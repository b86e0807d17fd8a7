//! The scanner: which files qualify for a scan, how a file's content is
//! hashed as it is read, and how the hashed records become groups.

use crate::utils::{
    contains_text, lowercase, lowercase_all, lowercase_of, lowercased, path_extension,
    path_extension_of, texts_view,
};
use crate::{
    has_duplicates, refusal, with_file, DedupResult, FileInfo, FileInfoView, GroupError,
    records_view,
};
use vstd::prelude::*;

verus! {

/// Configuration for file scanning. Extensions are compared in lowercase:
/// the two lists hold lowercase extensions without the dot.
#[derive(Debug, Clone)]
pub struct ScanConfig {
    /// The smallest size that qualifies, in bytes.
    pub min_size: u64,
    /// The largest size that qualifies, if there is a limit.
    pub max_size: Option<u64>,
    /// Where this list is not empty, only files with one of its extensions
    /// qualify.
    pub include_extensions: Vec<String>,
    /// Files with one of these extensions never qualify.
    pub exclude_extensions: Vec<String>,
    pub verbose: bool,
}

/// The mathematical value of a [`ScanConfig`].
pub struct ScanConfigView {
    pub min_size: u64,
    pub max_size: Option<u64>,
    pub include_extensions: Seq<Seq<char>>,
    pub exclude_extensions: Seq<Seq<char>>,
    pub verbose: bool,
}

impl View for ScanConfig {
    type V = ScanConfigView;

    open spec fn view(&self) -> ScanConfigView {
        ScanConfigView {
            min_size: self.min_size,
            max_size: self.max_size,
            include_extensions: texts_view(self.include_extensions@),
            exclude_extensions: texts_view(self.exclude_extensions@),
            verbose: self.verbose,
        }
    }
}

/// The configuration that lets every file qualify.
pub open spec fn default_config() -> ScanConfigView {
    ScanConfigView {
        min_size: 0,
        max_size: None,
        include_extensions: Seq::<Seq<char>>::empty(),
        exclude_extensions: Seq::<Seq<char>>::empty(),
        verbose: false,
    }
}

impl Default for ScanConfig {
    fn default() -> (res: Self)
        ensures
            res@ == default_config(),
    {
        let res = Self {
            min_size: 0,
            max_size: None,
            include_extensions: Vec::new(),
            exclude_extensions: Vec::new(),
            verbose: false,
        };
        assert(texts_view(res.include_extensions@) =~= Seq::<Seq<char>>::empty());
        assert(texts_view(res.exclude_extensions@) =~= Seq::<Seq<char>>::empty());
        res
    }
}

/// Whether a file of `size` bytes qualifies for a scan, given its
/// extension in lowercase, if it has one.
///
/// - Its size is at least the minimum, and at most the maximum where one
///   is set.
/// - Where extensions are to be included, the file has an extension and it
///   is among them.
/// - Its extension is not among those to be excluded, whatever the list
///   of included extensions says.
pub open spec fn passes_filters(config: ScanConfigView, size: u64, extension: Option<Seq<char>>)
    -> bool {
    &&& size >= config.min_size
    &&& match config.max_size {
        Some(max) => size <= max,
        None => true,
    }
    &&& match extension {
        Some(ext) => {
            &&& config.include_extensions.len() == 0 || config.include_extensions.contains(ext)
            &&& !config.exclude_extensions.contains(ext)
        },
        None => config.include_extensions.len() == 0,
    }
}

/// Whether a file of `size` bytes at `path` qualifies for a scan: it
/// passes the filters with the extension of its name in lowercase.
pub open spec fn qualifies(config: ScanConfigView, path: Seq<char>, size: u64) -> bool {
    passes_filters(
        config,
        size,
        match path_extension_of(path) {
            Some(ext) => Some(lowercase_of(ext)),
            None => None,
        },
    )
}

/// What is said of a root that cannot be scanned: that it does not exist,
/// or that it is no directory. A root that is a directory gets no warning.
pub open spec fn root_warning_text(dir: Seq<char>, exists: bool, is_dir: bool) -> Option<
    Seq<char>,
> {
    if !exists {
        Some("Warning: Directory "@ + dir + " does not exist"@)
    } else if !is_dir {
        Some("Warning: "@ + dir + " is not a directory"@)
    } else {
        None
    }
}

/// Decides whether a root is scanned. A root that does not exist or is no
/// directory is skipped with the warning returned here; the scan goes on
/// with the other roots.
pub fn root_warning(dir: &str, exists: bool, is_dir: bool) -> (res: Option<String>)
    ensures
        match res {
            Some(text) => root_warning_text(dir@, exists, is_dir) == Some(text@),
            None => root_warning_text(dir@, exists, is_dir) is None,
        },
{
    if !exists {
        let mut text = String::from_str("Warning: Directory ");
        text.append(dir);
        text.append(" does not exist");
        Some(text)
    } else if !is_dir {
        let mut text = String::from_str("Warning: ");
        text.append(dir);
        text.append(" is not a directory");
        Some(text)
    } else {
        None
    }
}

/// Whether a candidate, a path with the size of its file, qualifies.
pub open spec fn candidate_qualifies(config: ScanConfigView) -> spec_fn((Seq<char>, u64)) -> bool {
    |c: (Seq<char>, u64)| qualifies(config, c.0, c.1)
}

/// The values of a list of candidates, in their order.
pub open spec fn candidates_view(list: Seq<(String, u64)>) -> Seq<(Seq<char>, u64)> {
    list.map_values(|c: (String, u64)| (c.0@, c.1))
}

/// Whether a record qualifies by its path and size.
pub open spec fn record_qualifies(config: ScanConfigView) -> spec_fn(FileInfoView) -> bool {
    |f: FileInfoView| qualifies(config, f.path, f.size)
}

/// What a result holds after records have arrived one after the other.
pub struct Grouped {
    pub groups: Seq<Seq<FileInfoView>>,
    pub files: nat,
    pub bytes: nat,
}

/// Groups records in the order of their arrival. The first record that is
/// refused ends the grouping with its error.
pub open spec fn group_all(records: Seq<FileInfoView>) -> Result<Grouped, GroupError>
    decreases records.len(),
{
    if records.len() == 0 {
        Ok(Grouped { groups: Seq::<Seq<FileInfoView>>::empty(), files: 0, bytes: 0 })
    } else {
        match group_all(records.drop_last()) {
            Ok(g) => match refusal(g.groups, g.files, g.bytes, records.last()) {
                Some(e) => Err(e),
                None => Ok(
                    Grouped {
                        groups: with_file(g.groups, records.last()),
                        files: g.files + 1,
                        bytes: g.bytes + records.last().size as nat,
                    },
                ),
            },
            Err(e) => Err(e),
        }
    }
}

/// A refusal among the first records is the refusal of all.
pub proof fn lemma_group_all_refused(records: Seq<FileInfoView>, n: int)
    requires
        0 <= n <= records.len(),
        group_all(records.take(n)) is Err,
    ensures
        group_all(records) == group_all(records.take(n)),
    decreases records.len() - n,
{
    if n < records.len() {
        assert(records.take(n + 1).drop_last() =~= records.take(n));
        lemma_group_all_refused(records, n + 1);
    } else {
        assert(records.take(n) =~= records);
    }
}

/// Records that were grouped without a refusal are in consistent groups:
/// all members of a group report one hash and one size, and no two groups
/// have the same hash.
pub proof fn lemma_group_all_consistent(records: Seq<FileInfoView>)
    requires
        group_all(records) is Ok,
    ensures
        crate::groups_consistent(group_all(records)->Ok_0.groups),
    decreases records.len(),
{
    if records.len() > 0 {
        lemma_group_all_consistent(records.drop_last());
        crate::lemma_with_file_consistent(
            group_all(records.drop_last())->Ok_0.groups,
            records.last(),
        );
    }
}

/// Scanner for finding duplicate files
#[derive(Debug, Clone)]
pub struct Scanner {
    config: ScanConfig,
}

impl View for Scanner {
    type V = ScanConfigView;

    closed spec fn view(&self) -> ScanConfigView {
        self.config@
    }
}

impl Scanner {
    /// A scanner for which every file qualifies.
    pub fn new() -> (res: Self)
        ensures
            res@ == default_config(),
    {
        Self { config: ScanConfig::default() }
    }

    /// The scanner's configuration.
    pub fn config(&self) -> (res: &ScanConfig)
        ensures
            res@ == self@,
    {
        &self.config
    }

    /// Sets the smallest size that qualifies.
    pub fn set_min_size(&mut self, size: u64)
        ensures
            final(self)@ == (ScanConfigView { min_size: size, ..old(self)@ }),
    {
        self.config.min_size = size;
    }

    /// Sets the largest size that qualifies.
    pub fn set_max_size(&mut self, size: u64)
        ensures
            final(self)@ == (ScanConfigView { max_size: Some(size), ..old(self)@ }),
    {
        self.config.max_size = Some(size);
    }

    /// Sets the extensions to include; they are kept in lowercase.
    pub fn set_include_extensions(&mut self, extensions: Vec<String>)
        ensures
            final(self)@ == (ScanConfigView {
                include_extensions: lowercased(texts_view(extensions@)),
                ..old(self)@
            }),
    {
        self.config.include_extensions = lowercase_all(extensions.as_slice());
    }

    /// Sets the extensions to exclude; they are kept in lowercase.
    pub fn set_exclude_extensions(&mut self, extensions: Vec<String>)
        ensures
            final(self)@ == (ScanConfigView {
                exclude_extensions: lowercased(texts_view(extensions@)),
                ..old(self)@
            }),
    {
        self.config.exclude_extensions = lowercase_all(extensions.as_slice());
    }

    /// Sets whether the scan reports what it does.
    pub fn set_verbose(&mut self, verbose: bool)
        ensures
            final(self)@ == (ScanConfigView { verbose, ..old(self)@ }),
    {
        self.config.verbose = verbose;
    }

    /// Whether a file of `size` bytes passes the filters, given its
    /// extension in lowercase, if it has one.
    pub fn passes(&self, size: u64, extension: Option<&String>) -> (res: bool)
        ensures
            res == passes_filters(
                self@,
                size,
                match extension {
                    Some(ext) => Some(ext@),
                    None => None,
                },
            ),
    {
        if size < self.config.min_size {
            return false;
        }
        if let Some(max_size) = self.config.max_size {
            if size > max_size {
                return false;
            }
        }
        match extension {
            Some(ext) => {
                if self.config.include_extensions.len() > 0 && !contains_text(
                    &self.config.include_extensions,
                    ext,
                ) {
                    return false;
                }
                !contains_text(&self.config.exclude_extensions, ext)
            },
            None => self.config.include_extensions.len() == 0,
        }
    }

    /// Check if a file should be included based on filters
    pub fn should_include_file(&self, path: &str, size: u64) -> (res: bool)
        ensures
            res == qualifies(self@, path@, size),
    {
        match path_extension(path) {
            Some(ext) => {
                let ext = lowercase(ext.as_str());
                self.passes(size, Some(&ext))
            },
            None => self.passes(size, None),
        }
    }

    /// Collect, from the files found under the roots, those that qualify,
    /// in the order in which they were found. Each candidate is a path
    /// with the size of its file.
    pub fn collect_files(&self, found: &Vec<(String, u64)>) -> (res: Vec<String>)
        ensures
            texts_view(res@) == candidates_view(found@).filter(
                candidate_qualifies(self@),
            ).map_values(|c: (Seq<char>, u64)| c.0),
    {
        let ghost all = candidates_view(found@);
        let ghost keep = candidate_qualifies(self@);
        let ghost path_of = |c: (Seq<char>, u64)| c.0;
        let mut files: Vec<String> = Vec::new();
        let mut i: usize = 0;
        proof {
            reveal(Seq::filter);
            assert(all.take(0) =~= Seq::<(Seq<char>, u64)>::empty());
            assert(texts_view(files@) =~= all.take(0).filter(keep).map_values(path_of));
        }
        while i < found.len()
            invariant
                i <= found@.len(),
                all == candidates_view(found@),
                keep == candidate_qualifies(self@),
                path_of == |c: (Seq<char>, u64)| c.0,
                texts_view(files@) == all.take(i as int).filter(keep).map_values(path_of),
            decreases found@.len() - i,
        {
            proof {
                assert(all.take(i + 1) =~= all.take(i as int).push(all[i as int]));
                all.take(i as int).lemma_filter_push(all[i as int], keep);
            }
            if self.should_include_file(found[i].0.as_str(), found[i].1) {
                let ghost before = texts_view(files@);
                files.push(found[i].0.clone());
                proof {
                    assert(texts_view(files@) =~= before.push(all[i as int].0));
                    assert(all.take(i as int).filter(keep).push(all[i as int]).map_values(path_of)
                        =~= all.take(i as int).filter(keep).map_values(path_of).push(
                        all[i as int].0,
                    ));
                }
            }
            i = i + 1;
        }
        assert(all.take(i as int) =~= all);
        files
    }

    /// Groups hashed records in the order of their arrival and keeps the
    /// groups that hold duplicates.
    pub fn group_files(&self, files: Vec<FileInfo>) -> (res: Result<DedupResult, GroupError>)
        ensures
            match res {
                Ok(result) => group_all(records_view(files@)) matches Ok(g) && result@
                    == g.groups.filter(has_duplicates()) && result.files_examined() == g.files
                    && result.bytes_examined() == g.bytes,
                Err(e) => group_all(records_view(files@)) == Err::<Grouped, GroupError>(e),
            },
            res matches Ok(result) ==> forall|i: int|
                0 <= i < result@.len() ==> (#[trigger] result@[i]).len() >= 2,
    {
        let ghost all = records_view(files@);
        let mut rest = files;
        let mut result = DedupResult::new();
        let mut i: usize = 0;
        proof {
            assert(all.take(0) =~= Seq::<FileInfoView>::empty());
        }
        while i < rest.len()
            invariant
                i <= rest@.len(),
                rest@.len() == all.len(),
                all == records_view(files@),
                forall|k: int| i <= k < rest@.len() ==> (#[trigger] rest@[k])@ == all[k],
                group_all(all.take(i as int)) == Ok::<Grouped, GroupError>(
                    Grouped {
                        groups: result@,
                        files: result.files_examined(),
                        bytes: result.bytes_examined(),
                    },
                ),
            decreases rest@.len() - i,
        {
            let mut file = FileInfo {
                path: String::new(),
                size: 0,
                hash: String::new(),
                modified: 0,
            };
            core::mem::swap(&mut file, &mut rest[i]);
            proof {
                assert(file@ == all[i as int]);
                assert(all.take(i + 1).drop_last() =~= all.take(i as int));
                assert(all.take(i + 1).last() == all[i as int]);
            }
            let ghost before = Grouped {
                groups: result@,
                files: result.files_examined(),
                bytes: result.bytes_examined(),
            };
            match result.add_file(file) {
                Ok(_) => {},
                Err(e) => {
                    proof {
                        assert(refusal(before.groups, before.files, before.bytes, all[i as int])
                            == Some(e));
                        assert(group_all(all.take(i + 1)) == Err::<Grouped, GroupError>(e));
                        lemma_group_all_refused(all, i + 1);
                        assert(group_all(all) == Err::<Grouped, GroupError>(e));
                    }
                    return Err(e);
                },
            }
            i = i + 1;
        }
        assert(all.take(i as int) =~= all);
        result.filter_duplicates();
        Ok(result)
    }

    /// Scan hashed records for duplicate files: the records that qualify
    /// are grouped, and the groups that hold duplicates are the result.
    pub fn scan_directories(&self, files: Vec<FileInfo>) -> (res: Result<DedupResult, GroupError>)
        ensures
            match res {
                Ok(result) => group_all(records_view(files@).filter(record_qualifies(self@)))
                    matches Ok(g) && result@ == g.groups.filter(has_duplicates())
                    && result.files_examined() == g.files && result.bytes_examined() == g.bytes,
                Err(e) => group_all(records_view(files@).filter(record_qualifies(self@)))
                    == Err::<Grouped, GroupError>(e),
            },
            res matches Ok(result) ==> forall|i: int|
                0 <= i < result@.len() ==> (#[trigger] result@[i]).len() >= 2,
    {
        let ghost all = records_view(files@);
        let ghost keep = record_qualifies(self@);
        let mut rest = files;
        let mut kept: Vec<FileInfo> = Vec::new();
        let mut i: usize = 0;
        proof {
            reveal(Seq::filter);
            assert(all.take(0) =~= Seq::<FileInfoView>::empty());
            assert(records_view(kept@) =~= all.take(0).filter(keep));
        }
        while i < rest.len()
            invariant
                i <= rest@.len(),
                rest@.len() == all.len(),
                keep == record_qualifies(self@),
                forall|k: int| i <= k < rest@.len() ==> (#[trigger] rest@[k])@ == all[k],
                records_view(kept@) == all.take(i as int).filter(keep),
            decreases rest@.len() - i,
        {
            let mut file = FileInfo {
                path: String::new(),
                size: 0,
                hash: String::new(),
                modified: 0,
            };
            core::mem::swap(&mut file, &mut rest[i]);
            proof {
                assert(file@ == all[i as int]);
                assert(all.take(i + 1) =~= all.take(i as int).push(all[i as int]));
                all.take(i as int).lemma_filter_push(all[i as int], keep);
            }
            if self.should_include_file(file.path.as_str(), file.size) {
                let ghost before = records_view(kept@);
                kept.push(file);
                assert(records_view(kept@) =~= before.push(all[i as int]));
            }
            i = i + 1;
        }
        assert(all.take(i as int) =~= all);
        self.group_files(kept)
    }
}

impl Default for Scanner {
    fn default() -> (res: Self)
        ensures
            res@ == default_config(),
    {
        Self::new()
    }
}


/// `blake3::Hasher`, the incremental state of the BLAKE3 hash function.
#[verifier::external_type_specification]
#[verifier::external_body]
pub struct ExHasher(blake3::Hasher);

/// The bytes that a `blake3::Hasher` has been given since it was made, in
/// the order in which it was given them.
pub uninterp spec fn hasher_input(hasher: blake3::Hasher) -> Seq<u8>;

/// The BLAKE3 hash of `data`, as `blake3::Hash::to_hex` writes it: in
/// lowercase hexadecimal.
pub uninterp spec fn blake3_hex(data: Seq<u8>) -> Seq<char>;

/// `blake3::Hasher::new`: a hasher that has been given nothing.
#[verifier::external_body]
fn new_hasher() -> (res: blake3::Hasher)
    ensures
        hasher_input(res) == Seq::<u8>::empty(),
{
    blake3::Hasher::new()
}

/// `blake3::Hasher::update`: the hasher is given `data` after what it was
/// given before. The hash function takes up to 2^64 - 1 bytes.
#[verifier::external_body]
fn absorb(hasher: &mut blake3::Hasher, data: &[u8])
    requires
        hasher_input(*old(hasher)).len() + data@.len() <= u64::MAX,
    ensures
        hasher_input(*final(hasher)) == hasher_input(*old(hasher)) + data@,
{
    hasher.update(data);
}

/// `blake3::Hasher::finalize`, written out by `blake3::Hash::to_hex`: the
/// hash of all that the hasher was given, which is that of the same bytes
/// hashed at once, in 64 hexadecimal digits. The hasher is left as it was.
#[verifier::external_body]
fn hex_digest(hasher: &blake3::Hasher) -> (res: String)
    ensures
        res@ == blake3_hex(hasher_input(*hasher)),
        res@.len() == 64,
{
    hasher.finalize().to_hex().to_string()
}

/// The number of bytes in which a file is read for hashing.
pub const CHUNK_SIZE: usize = 8192;

/// Hashes a file's content as it is read, chunk by chunk, so that no more
/// than one chunk has to be held at a time.
pub struct ContentHasher {
    inner: blake3::Hasher,
    length: u64,
}

impl View for ContentHasher {
    type V = Seq<u8>;

    /// The content taken in so far.
    closed spec fn view(&self) -> Seq<u8> {
        hasher_input(self.inner)
    }
}

impl ContentHasher {
    /// The length kept is that of the content taken in.
    #[verifier::type_invariant]
    spec fn length_kept(self) -> bool {
        self.length == hasher_input(self.inner).len()
    }

    /// A hasher that has taken in nothing.
    pub fn new() -> (res: Self)
        ensures
            res@ == Seq::<u8>::empty(),
    {
        Self { inner: new_hasher(), length: 0 }
    }

    /// Takes in the next chunk of the content. Content of more than
    /// 2^64 - 1 bytes cannot be hashed: a chunk that would exceed that is
    /// not taken in, and `false` is returned.
    pub fn update(&mut self, chunk: &[u8]) -> (res: bool)
        ensures
            res == (old(self)@.len() + chunk@.len() <= u64::MAX),
            final(self)@ == if res {
                old(self)@ + chunk@
            } else {
                old(self)@
            },
    {
        proof {
            use_type_invariant(&*self);
        }
        if chunk.len() as u64 > u64::MAX - self.length {
            return false;
        }
        let mut taken = Self::new();
        core::mem::swap(self, &mut taken);
        proof {
            use_type_invariant(&taken);
        }
        let length = taken.length + chunk.len() as u64;
        let mut inner = taken.inner;
        absorb(&mut inner, chunk);
        *self = Self { inner, length };
        true
    }

    /// The hash of the content taken in so far, in 64 hexadecimal digits.
    pub fn finish(&self) -> (res: String)
        ensures
            res@ == blake3_hex(self@),
            res@.len() == 64,
            self@.len() <= u64::MAX,
    {
        proof {
            use_type_invariant(self);
        }
        hex_digest(&self.inner)
    }
}

/// Chunks put together in their order.
pub open spec fn chunks_joined(chunks: Seq<Vec<u8>>) -> Seq<u8>
    decreases chunks.len(),
{
    if chunks.len() == 0 {
        Seq::<u8>::empty()
    } else {
        chunks_joined(chunks.drop_last()) + chunks.last()@
    }
}

/// Calculate the BLAKE3 hash of a content given in chunks. How the content
/// is cut into chunks makes no difference. There is no hash for content
/// of more than 2^64 - 1 bytes.
pub fn calculate_hash(chunks: &Vec<Vec<u8>>) -> (res: Option<String>)
    ensures
        match res {
            Some(hash) => chunks_joined(chunks@).len() <= u64::MAX && hash@ == blake3_hex(
                chunks_joined(chunks@),
            ) && hash@.len() == 64,
            None => chunks_joined(chunks@).len() > u64::MAX,
        },
{
    let mut hasher = ContentHasher::new();
    let mut i: usize = 0;
    assert(chunks@.take(0) =~= Seq::<Vec<u8>>::empty());
    while i < chunks.len()
        invariant
            i <= chunks@.len(),
            hasher@ == chunks_joined(chunks@.take(i as int)),
        decreases chunks@.len() - i,
    {
        proof {
            assert(chunks@.take(i + 1).drop_last() =~= chunks@.take(i as int));
            assert(chunks@.take(i + 1).last() == chunks@[i as int]);
        }
        if !hasher.update(chunks[i].as_slice()) {
            proof {
                lemma_chunks_joined_grows(chunks@, i + 1);
            }
            return None;
        }
        i = i + 1;
    }
    assert(chunks@.take(i as int) =~= chunks@);
    Some(hasher.finish())
}

/// The first chunks joined are no longer than all of them joined.
pub proof fn lemma_chunks_joined_grows(chunks: Seq<Vec<u8>>, n: int)
    requires
        0 <= n <= chunks.len(),
    ensures
        chunks_joined(chunks.take(n)).len() <= chunks_joined(chunks).len(),
    decreases chunks.len() - n,
{
    if n < chunks.len() {
        assert(chunks.take(n + 1).drop_last() =~= chunks.take(n));
        lemma_chunks_joined_grows(chunks, n + 1);
    } else {
        assert(chunks.take(n) =~= chunks);
    }
}

} // verus!
