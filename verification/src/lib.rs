//! Finds files with identical content and plans what to do with the redundant
//! copies. The library holds the rules: which files qualify for a scan, how
//! hashed records are grouped, and how each action proceeds step by step on
//! what the file system answers. It never touches the file system itself.

use vstd::prelude::*;

pub mod actions;
pub mod dedup;
pub mod scanner;
pub mod utils;

pub use dedup::perform_deduplication;
pub use scanner::Scanner;

verus! {

/// A file that was hashed: where it is, how large it is, the hex digest of
/// its content and when it was last modified (seconds since the Unix epoch).
#[derive(Debug, Clone, PartialEq, Eq)]
pub struct FileInfo {
    pub path: String,
    pub size: u64,
    pub hash: String,
    pub modified: u64,
}

/// The mathematical value of a [`FileInfo`].
pub struct FileInfoView {
    pub path: Seq<char>,
    pub size: u64,
    pub hash: Seq<char>,
    pub modified: u64,
}

impl View for FileInfo {
    type V = FileInfoView;

    open spec fn view(&self) -> FileInfoView {
        FileInfoView { path: self.path@, size: self.size, hash: self.hash@, modified: self.modified }
    }
}

/// What to do with the redundant copies of a group. The first member of a
/// group is kept whatever the action.
#[derive(Debug, Clone, PartialEq, Eq)]
pub enum DedupAction {
    /// List duplicate files without taking any action
    List,
    /// Delete duplicate files (keeps the first occurrence)
    Delete,
    /// Move duplicate files to a specified directory
    Move(String),
    /// Create hard links for duplicate files
    Hardlink,
    /// Create symbolic links for duplicate files
    Symlink,
}

/// The mathematical value of a [`DedupAction`].
pub enum DedupActionView {
    List,
    Delete,
    Move(Seq<char>),
    Hardlink,
    Symlink,
}

impl View for DedupAction {
    type V = DedupActionView;

    open spec fn view(&self) -> DedupActionView {
        match self {
            DedupAction::List => DedupActionView::List,
            DedupAction::Delete => DedupActionView::Delete,
            DedupAction::Move(dir) => DedupActionView::Move(dir@),
            DedupAction::Hardlink => DedupActionView::Hardlink,
            DedupAction::Symlink => DedupActionView::Symlink,
        }
    }
}

/// The values of the records of a group, in their order.
pub open spec fn records_view(files: Seq<FileInfo>) -> Seq<FileInfoView> {
    files.map_values(|f: FileInfo| f@)
}


/// The values of the groups of a scan, in their order.
pub open spec fn groups_view(groups: Seq<Vec<FileInfo>>) -> Seq<Seq<FileInfoView>> {
    groups.map_values(|g: Vec<FileInfo>| records_view(g@))
}

/// The position of the first group whose members have the hash `hash`, or
/// -1 where there is no such group.
pub open spec fn group_position(groups: Seq<Seq<FileInfoView>>, hash: Seq<char>) -> int
    decreases groups.len(),
{
    if groups.len() == 0 {
        -1
    } else {
        let before = group_position(groups.drop_last(), hash);
        if before >= 0 {
            before
        } else if groups.last().len() > 0 && groups.last()[0].hash == hash {
            groups.len() - 1
        } else {
            -1
        }
    }
}

/// `group_position` names a group with the hash, and no group before it
/// has the hash; it is -1 exactly where no group has the hash.
pub proof fn lemma_group_position(groups: Seq<Seq<FileInfoView>>, hash: Seq<char>)
    ensures
        -1 <= group_position(groups, hash) < groups.len(),
        group_position(groups, hash) >= 0 ==> groups[group_position(groups, hash)].len() > 0
            && groups[group_position(groups, hash)][0].hash == hash,
        forall|k: int|
            0 <= k < groups.len() && (k < group_position(groups, hash) || group_position(
                groups,
                hash,
            ) < 0) ==> !(groups[k].len() > 0 && groups[k][0].hash == hash),
    decreases groups.len(),
{
    if groups.len() > 0 {
        let front = groups.drop_last();
        lemma_group_position(front, hash);
        assert forall|k: int|
            0 <= k < groups.len() && (k < group_position(groups, hash) || group_position(
                groups,
                hash,
            ) < 0) implies !(groups[k].len() > 0 && groups[k][0].hash == hash) by {
            if k < front.len() {
                assert(front[k] == groups[k]);
            }
        }
    }
}

/// The groups after a record has arrived: the record joins, as its last
/// member, the group that has its hash, or starts a new group behind all
/// the others.
pub open spec fn with_file(groups: Seq<Seq<FileInfoView>>, file: FileInfoView) -> Seq<
    Seq<FileInfoView>,
> {
    let at = group_position(groups, file.hash);
    if at >= 0 {
        groups.update(at, groups[at].push(file))
    } else {
        groups.push(seq![file])
    }
}

/// A record has the hash of a group but not the size of its members.
pub open spec fn size_mismatch(groups: Seq<Seq<FileInfoView>>, file: FileInfoView) -> bool {
    let at = group_position(groups, file.hash);
    at >= 0 && groups[at][0].size != file.size
}

/// The sizes of the members of a group, added up.
pub open spec fn group_bytes(group: Seq<FileInfoView>) -> nat
    decreases group.len(),
{
    if group.len() == 0 {
        0
    } else {
        group_bytes(group.drop_last()) + group.last().size as nat
    }
}

/// The sum over all groups of what `f` gives for each.
pub open spec fn sum_groups(
    groups: Seq<Seq<FileInfoView>>,
    f: spec_fn(Seq<FileInfoView>) -> nat,
) -> nat
    decreases groups.len(),
{
    if groups.len() == 0 {
        0
    } else {
        sum_groups(groups.drop_last(), f) + f(groups.last())
    }
}

/// How many members a group has.
pub open spec fn members_of() -> spec_fn(Seq<FileInfoView>) -> nat {
    |g: Seq<FileInfoView>| g.len()
}

/// How many bytes the members of a group hold.
pub open spec fn bytes_of() -> spec_fn(Seq<FileInfoView>) -> nat {
    |g: Seq<FileInfoView>| group_bytes(g)
}

/// How many redundant copies a group holds: every member but the keeper.
pub open spec fn duplicates_of() -> spec_fn(Seq<FileInfoView>) -> nat {
    |g: Seq<FileInfoView>|
        if g.len() > 1 {
            (g.len() - 1) as nat
        } else {
            0
        }
}

/// The bytes that the redundant copies of a group occupy: the keeper's size
/// for every member but the keeper.
pub open spec fn waste_of() -> spec_fn(Seq<FileInfoView>) -> nat {
    |g: Seq<FileInfoView>|
        if g.len() > 1 {
            (g[0].size * (g.len() - 1)) as nat
        } else {
            0
        }
}

/// The number of redundant copies in all groups.
pub open spec fn duplicate_count(groups: Seq<Seq<FileInfoView>>) -> nat {
    sum_groups(groups, duplicates_of())
}

/// The bytes that the redundant copies of all groups occupy.
pub open spec fn wasted_space(groups: Seq<Seq<FileInfoView>>) -> nat {
    sum_groups(groups, waste_of())
}

/// A group has a member, and all its members have one hash and one size.
pub open spec fn group_consistent(group: Seq<FileInfoView>) -> bool {
    &&& group.len() >= 1
    &&& forall|j: int|
        0 <= j < group.len() ==> (#[trigger] group[j]).hash == group[0].hash && group[j].size
            == group[0].size
}

/// Every group is consistent, and no two groups have the same hash.
pub open spec fn groups_consistent(groups: Seq<Seq<FileInfoView>>) -> bool {
    &&& forall|i: int| 0 <= i < groups.len() ==> group_consistent(#[trigger] groups[i])
    &&& forall|i: int, k: int|
        0 <= i < groups.len() && 0 <= k < groups.len() && i != k ==> (#[trigger] groups[i])[0].hash
            != (#[trigger] groups[k])[0].hash
}

/// Whether a group holds redundant copies.
pub open spec fn has_duplicates() -> spec_fn(Seq<FileInfoView>) -> bool {
    |g: Seq<FileInfoView>| g.len() > 1
}

/// Putting another group in the place of one changes a sum by the
/// difference between what the two give.
pub proof fn lemma_sum_update(
    groups: Seq<Seq<FileInfoView>>,
    at: int,
    group: Seq<FileInfoView>,
    f: spec_fn(Seq<FileInfoView>) -> nat,
)
    requires
        0 <= at < groups.len(),
    ensures
        sum_groups(groups.update(at, group), f) + f(groups[at]) == sum_groups(groups, f) + f(
            group,
        ),
    decreases groups.len(),
{
    let changed = groups.update(at, group);
    if at == groups.len() - 1 {
        assert(changed.drop_last() =~= groups.drop_last());
    } else {
        lemma_sum_update(groups.drop_last(), at, group, f);
        assert(changed.drop_last() =~= groups.drop_last().update(at, group));
    }
}

/// Where one function gives no more than another on every group, its sum
/// is no more than the other's.
pub proof fn lemma_sum_le(
    groups: Seq<Seq<FileInfoView>>,
    f: spec_fn(Seq<FileInfoView>) -> nat,
    h: spec_fn(Seq<FileInfoView>) -> nat,
)
    requires
        forall|i: int| 0 <= i < groups.len() ==> f(#[trigger] groups[i]) <= h(groups[i]),
    ensures
        sum_groups(groups, f) <= sum_groups(groups, h),
    decreases groups.len(),
{
    if groups.len() > 0 {
        let front = groups.drop_last();
        assert forall|i: int| 0 <= i < front.len() implies f(#[trigger] front[i]) <= h(
            front[i],
        ) by {
            assert(front[i] == groups[i]);
        }
        lemma_sum_le(front, f, h);
        assert(groups.last() == groups[groups.len() - 1]);
    }
}

/// Leaving groups out does not raise a sum.
pub proof fn lemma_sum_filter(
    groups: Seq<Seq<FileInfoView>>,
    keep: spec_fn(Seq<FileInfoView>) -> bool,
    f: spec_fn(Seq<FileInfoView>) -> nat,
)
    ensures
        sum_groups(groups.filter(keep), f) <= sum_groups(groups, f),
    decreases groups.len(),
{
    reveal(Seq::filter);
    if groups.len() > 0 {
        lemma_sum_filter(groups.drop_last(), keep, f);
        if keep(groups.last()) {
            assert(groups.filter(keep).drop_last() =~= groups.drop_last().filter(keep));
        }
    }
}

/// The members of a consistent group hold as many bytes as the keeper's
/// size for each of them.
pub proof fn lemma_group_bytes(group: Seq<FileInfoView>, size: u64)
    requires
        forall|j: int| 0 <= j < group.len() ==> (#[trigger] group[j]).size == size,
    ensures
        group_bytes(group) == size * group.len(),
    decreases group.len(),
{
    if group.len() > 0 {
        let front = group.drop_last();
        assert forall|j: int| 0 <= j < front.len() implies (#[trigger] front[j]).size
            == size by {
            assert(front[j] == group[j]);
        }
        lemma_group_bytes(front, size);
        assert(group.last() == group[group.len() - 1]);
        assert(size * (group.len() - 1) + size == size * group.len()) by (nonlinear_arith);
    }
}

/// Among consistent groups the redundant copies are fewer than the members
/// and occupy fewer bytes than the members hold.
pub proof fn lemma_duplicates_bounded(groups: Seq<Seq<FileInfoView>>)
    requires
        groups_consistent(groups),
    ensures
        duplicate_count(groups) <= sum_groups(groups, members_of()),
        wasted_space(groups) <= sum_groups(groups, bytes_of()),
{
    assert forall|i: int| 0 <= i < groups.len() implies waste_of()(#[trigger] groups[i])
        <= bytes_of()(groups[i]) by {
        let g = groups[i];
        assert(group_consistent(g));
        lemma_group_bytes(g, g[0].size);
        if g.len() > 1 {
            assert(g[0].size * (g.len() - 1) <= g[0].size * g.len()) by (nonlinear_arith)
                requires
                    g.len() > 1,
            ;
        }
    }
    lemma_sum_le(groups, duplicates_of(), members_of());
    lemma_sum_le(groups, waste_of(), bytes_of());
}


/// Why a record was not added to a scan's result.
#[derive(Debug, Clone, Copy, PartialEq, Eq)]
pub enum GroupError {
    /// The record has the hash of a group but not the size of its members:
    /// the hashes cannot be trusted.
    SizeMismatch,
    /// The count of files or the count of bytes would no longer fit.
    TotalsOverflow,
}

/// Why a record is refused by a result that holds `groups` and has
/// examined `files` files of `bytes` bytes, if it is.
pub open spec fn refusal(
    groups: Seq<Seq<FileInfoView>>,
    files: nat,
    bytes: nat,
    file: FileInfoView,
) -> Option<GroupError> {
    if size_mismatch(groups, file) {
        Some(GroupError::SizeMismatch)
    } else if files + 1 > usize::MAX || bytes + file.size > u64::MAX {
        Some(GroupError::TotalsOverflow)
    } else {
        None
    }
}

/// Results of a directory scan for duplicate files: the records grouped by
/// hash, each group in the order in which its members arrived and the
/// groups in the order in which their first members arrived, with the
/// number of files and bytes examined.
#[derive(Debug)]
pub struct DedupResult {
    duplicates: Vec<Vec<FileInfo>>,
    total_files: usize,
    total_size: u64,
}

impl View for DedupResult {
    type V = Seq<Seq<FileInfoView>>;

    closed spec fn view(&self) -> Seq<Seq<FileInfoView>> {
        groups_view(self.duplicates@)
    }
}

/// The position of the group with a hash among the groups of a result.
fn find_group(groups: &Vec<Vec<FileInfo>>, hash: &String) -> (res: Option<usize>)
    requires
        groups_consistent(groups_view(groups@)),
    ensures
        match res {
            Some(at) => at as int == group_position(groups_view(groups@), hash@),
            None => group_position(groups_view(groups@), hash@) == -1,
        },
{
    let ghost all = groups_view(groups@);
    proof {
        lemma_group_position(all, hash@);
    }
    let mut i: usize = 0;
    while i < groups.len()
        invariant
            i <= groups@.len(),
            all == groups_view(groups@),
            groups_consistent(all),
            forall|k: int| 0 <= k < i ==> (#[trigger] all[k])[0].hash != hash@,
        decreases groups@.len() - i,
    {
        assert(group_consistent(all[i as int]));
        assert(all[i as int][0] == groups@[i as int]@[0]@);
        if groups[i][0].hash == *hash {
            proof {
                lemma_group_position(all, hash@);
                let at = group_position(all, hash@);
                assert(all[i as int].len() > 0 && all[i as int][0].hash == hash@);
                if 0 <= at < i {
                    assert(all[at][0].hash != hash@);
                }
            }
            return Some(i);
        }
        i = i + 1;
    }
    proof {
        lemma_group_position(all, hash@);
        let at = group_position(all, hash@);
        if at >= 0 {
            assert(all[at][0].hash != hash@);
        }
    }
    None
}

impl DedupResult {
    /// The groups are consistent, and no more files and bytes are in them
    /// than were examined.
    #[verifier::type_invariant]
    spec fn sound(self) -> bool {
        &&& groups_consistent(groups_view(self.duplicates@))
        &&& sum_groups(groups_view(self.duplicates@), members_of()) <= self.total_files
        &&& sum_groups(groups_view(self.duplicates@), bytes_of()) <= self.total_size
    }

    /// The number of files examined.
    pub closed spec fn files_examined(&self) -> nat {
        self.total_files as nat
    }

    /// The number of bytes examined.
    pub closed spec fn bytes_examined(&self) -> nat {
        self.total_size as nat
    }

    /// A result that has examined nothing.
    pub fn new() -> (res: Self)
        ensures
            res@ == Seq::<Seq<FileInfoView>>::empty(),
            res.files_examined() == 0,
            res.bytes_examined() == 0,
    {
        let duplicates: Vec<Vec<FileInfo>> = Vec::new();
        assert(groups_view(duplicates@) =~= Seq::<Seq<FileInfoView>>::empty());
        Self { duplicates, total_files: 0, total_size: 0 }
    }

    /// Counts a record as examined and puts it into the group of its hash.
    /// The first record of a hash becomes its group's keeper. A record that
    /// is refused leaves the result as it was.
    pub fn add_file(&mut self, file: FileInfo) -> (res: Result<(), GroupError>)
        ensures
            refusal(old(self)@, old(self).files_examined(), old(self).bytes_examined(), file@)
                == match res {
                Ok(_) => None::<GroupError>,
                Err(e) => Some(e),
            },
            match res {
                Ok(_) => {
                    &&& final(self)@ == with_file(old(self)@, file@)
                    &&& final(self).files_examined() == old(self).files_examined() + 1
                    &&& final(self).bytes_examined() == old(self).bytes_examined() + file.size
                },
                Err(_) => {
                    &&& final(self)@ == old(self)@
                    &&& final(self).files_examined() == old(self).files_examined()
                    &&& final(self).bytes_examined() == old(self).bytes_examined()
                },
            },
    {
        proof {
            use_type_invariant(&*self);
            lemma_group_position(self@, file.hash@);
        }
        let found = find_group(&self.duplicates, &file.hash);
        if let Some(at) = found {
            assert(group_consistent(self@[at as int]));
            assert(self@[at as int][0] == self.duplicates@[at as int]@[0]@);
            if self.duplicates[at][0].size != file.size {
                return Err(GroupError::SizeMismatch);
            }
        }
        if self.total_files == usize::MAX || file.size > u64::MAX - self.total_size {
            return Err(GroupError::TotalsOverflow);
        }
        let mut taken = Self::new();
        core::mem::swap(self, &mut taken);
        let ghost before = groups_view(taken.duplicates@);
        let ghost added = file@;
        let total_files = taken.total_files + 1;
        let total_size = taken.total_size + file.size;
        let mut duplicates = taken.duplicates;
        match found {
            Some(at) => {
                duplicates[at].push(file);
                proof {
                    let after = groups_view(duplicates@);
                    let grown = before[at as int].push(added);
                    assert(records_view(duplicates@[at as int]@) =~= grown);
                    assert(after =~= before.update(at as int, grown));
                    lemma_sum_update(before, at as int, grown, members_of());
                    lemma_sum_update(before, at as int, grown, bytes_of());
                    assert(grown.drop_last() =~= before[at as int]);
                    assert(group_consistent(before[at as int]));
                    assert(group_consistent(grown));
                    assert(groups_consistent(after));
                }
            },
            None => {
                let mut group: Vec<FileInfo> = Vec::new();
                group.push(file);
                duplicates.push(group);
                proof {
                    let after = groups_view(duplicates@);
                    let fresh = seq![added];
                    assert(records_view(group@) =~= fresh);
                    assert(after =~= before.push(fresh));
                    assert(after.drop_last() =~= before);
                    assert(fresh.drop_last() =~= Seq::<FileInfoView>::empty());
                    assert(group_bytes(fresh.drop_last()) == 0);
                    assert(group_bytes(fresh) == added.size);
                    assert(group_consistent(fresh));
                    assert(groups_consistent(after));
                }
            },
        }
        *self = Self { duplicates, total_files, total_size };
        Ok(())
    }

    /// The number of redundant copies: in every group, each member but the
    /// keeper.
    pub fn get_duplicate_count(&self) -> (res: usize)
        ensures
            res == duplicate_count(self@),
    {
        proof {
            use_type_invariant(self);
            lemma_duplicates_bounded(self@);
        }
        let ghost all = self@;
        let mut count: usize = 0;
        let mut i: usize = 0;
        assert(all.take(0) =~= Seq::<Seq<FileInfoView>>::empty());
        while i < self.duplicates.len()
            invariant
                i <= self.duplicates@.len(),
                all == groups_view(self.duplicates@),
                count == duplicate_count(all.take(i as int)),
                duplicate_count(all) <= usize::MAX,
            decreases self.duplicates@.len() - i,
        {
            proof {
                assert(all.take(i + 1).drop_last() =~= all.take(i as int));
                assert(all.take(i + 1).last() == all[i as int]);
                lemma_sum_prefix(all, i + 1, duplicates_of());
            }
            let n = self.duplicates[i].len();
            if n > 1 {
                count = count + (n - 1);
            }
            i = i + 1;
        }
        assert(all.take(i as int) =~= all);
        count
    }

    /// The bytes that the redundant copies occupy: in every group, the
    /// keeper's size for each member but the keeper.
    pub fn get_wasted_space(&self) -> (res: u64)
        ensures
            res == wasted_space(self@),
    {
        proof {
            use_type_invariant(self);
            lemma_duplicates_bounded(self@);
        }
        let ghost all = self@;
        let mut wasted: u64 = 0;
        let mut i: usize = 0;
        assert(all.take(0) =~= Seq::<Seq<FileInfoView>>::empty());
        while i < self.duplicates.len()
            invariant
                i <= self.duplicates@.len(),
                all == groups_view(self.duplicates@),
                groups_consistent(all),
                wasted == wasted_space(all.take(i as int)),
                wasted_space(all) <= u64::MAX,
            decreases self.duplicates@.len() - i,
        {
            proof {
                assert(all.take(i + 1).drop_last() =~= all.take(i as int));
                assert(all.take(i + 1).last() == all[i as int]);
                lemma_sum_prefix(all, i + 1, waste_of());
                assert(group_consistent(all[i as int]));
                assert(all[i as int][0] == self.duplicates@[i as int]@[0]@);
            }
            let n = self.duplicates[i].len();
            if n > 1 {
                let size = self.duplicates[i][0].size;
                let copies = (n - 1) as u64;
                assert(size * copies == waste_of()(all[i as int]));
                wasted = wasted + size * copies;
            }
            i = i + 1;
        }
        assert(all.take(i as int) =~= all);
        wasted
    }

    /// Filter out groups that don't have actual duplicates: only the
    /// groups of two members or more stay, in their order.
    pub fn filter_duplicates(&mut self)
        ensures
            final(self)@ == old(self)@.filter(has_duplicates()),
            forall|i: int| 0 <= i < final(self)@.len() ==> (#[trigger] final(self)@[i]).len() >= 2,
            final(self).files_examined() == old(self).files_examined(),
            final(self).bytes_examined() == old(self).bytes_examined(),
    {
        let mut taken = Self::new();
        core::mem::swap(self, &mut taken);
        proof {
            use_type_invariant(&taken);
        }
        let ghost before = groups_view(taken.duplicates@);
        let total_files = taken.total_files;
        let total_size = taken.total_size;
        let mut groups = taken.duplicates;
        let mut kept: Vec<Vec<FileInfo>> = Vec::new();
        let mut i: usize = 0;
        proof {
            reveal(Seq::filter);
            assert(before.take(0) =~= Seq::<Seq<FileInfoView>>::empty());
            assert(groups_view(kept@) =~= Seq::<Seq<FileInfoView>>::empty());
        }
        while i < groups.len()
            invariant
                i <= groups@.len(),
                groups@.len() == before.len(),
                forall|k: int| i <= k < groups@.len() ==> records_view(groups@[k]@) == before[k],
                groups_view(kept@) == before.take(i as int).filter(has_duplicates()),
            decreases groups@.len() - i,
        {
            let mut group: Vec<FileInfo> = Vec::new();
            core::mem::swap(&mut group, &mut groups[i]);
            proof {
                assert(records_view(group@) == before[i as int]);
                assert(before.take(i + 1) =~= before.take(i as int).push(before[i as int]));
                before.take(i as int).lemma_filter_push(before[i as int], has_duplicates());
            }
            if group.len() > 1 {
                let ghost kept_before = groups_view(kept@);
                kept.push(group);
                assert(groups_view(kept@) =~= kept_before.push(before[i as int]));
            }
            i = i + 1;
        }
        proof {
            assert(before.take(i as int) =~= before);
            let after = groups_view(kept@);
            lemma_sum_filter(before, has_duplicates(), members_of());
            lemma_sum_filter(before, has_duplicates(), bytes_of());
            lemma_filter_consistent(before);
            assert forall|k: int| 0 <= k < after.len() implies (#[trigger] after[k]).len()
                >= 2 by {
                before.lemma_filter_pred(has_duplicates(), k);
            }
        }
        *self = Self { duplicates: kept, total_files, total_size };
    }

    /// The group whose members have the hash `hash`, if there is one.
    pub fn find(&self, hash: &String) -> (res: Option<&Vec<FileInfo>>)
        ensures
            match res {
                Some(group) => group_position(self@, hash@) >= 0 && records_view(group@)
                    == self@[group_position(self@, hash@)],
                None => group_position(self@, hash@) == -1,
            },
    {
        proof {
            use_type_invariant(self);
            lemma_group_position(self@, hash@);
        }
        match find_group(&self.duplicates, hash) {
            Some(at) => Some(&self.duplicates[at]),
            None => None,
        }
    }

    /// The groups, each with its keeper first. The groups of every result
    /// are consistent: each has a member, the members of a group agree in
    /// hash and size, and no two groups have the same hash.
    pub fn groups(&self) -> (res: &Vec<Vec<FileInfo>>)
        ensures
            groups_view(res@) == self@,
            groups_consistent(self@),
            sum_groups(self@, members_of()) <= usize::MAX,
            sum_groups(self@, bytes_of()) <= u64::MAX,
    {
        proof {
            use_type_invariant(self);
        }
        &self.duplicates
    }

    /// The number of files examined.
    pub fn total_files(&self) -> (res: usize)
        ensures
            res == self.files_examined(),
    {
        self.total_files
    }

    /// The number of bytes examined.
    pub fn total_size(&self) -> (res: u64)
        ensures
            res == self.bytes_examined(),
    {
        self.total_size
    }
}

/// A record that fits keeps consistent groups consistent.
pub proof fn lemma_with_file_consistent(groups: Seq<Seq<FileInfoView>>, file: FileInfoView)
    requires
        groups_consistent(groups),
        !size_mismatch(groups, file),
    ensures
        groups_consistent(with_file(groups, file)),
{
    lemma_group_position(groups, file.hash);
    let at = group_position(groups, file.hash);
    let after = with_file(groups, file);
    if at >= 0 {
        assert(group_consistent(groups[at]));
        let grown = groups[at].push(file);
        assert forall|i: int| 0 <= i < after.len() implies group_consistent(
            #[trigger] after[i],
        ) by {
            if i == at {
                assert forall|j: int| 0 <= j < grown.len() implies (#[trigger] grown[j]).hash
                    == grown[0].hash && grown[j].size == grown[0].size by {
                    if j < groups[at].len() {
                        assert(grown[j] == groups[at][j]);
                    }
                }
            } else {
                assert(after[i] == groups[i]);
            }
        }
        assert forall|i: int, k: int|
            0 <= i < after.len() && 0 <= k < after.len() && i != k implies (
        #[trigger] after[i])[0].hash != (#[trigger] after[k])[0].hash by {
            assert(group_consistent(groups[i]));
            assert(group_consistent(groups[k]));
            assert(after[i][0] == groups[i][0]);
            assert(after[k][0] == groups[k][0]);
        }
    } else {
        let fresh = seq![file];
        assert forall|i: int| 0 <= i < after.len() implies group_consistent(
            #[trigger] after[i],
        ) by {
            if i < groups.len() {
                assert(after[i] == groups[i]);
            }
        }
        assert forall|i: int, k: int|
            0 <= i < after.len() && 0 <= k < after.len() && i != k implies (
        #[trigger] after[i])[0].hash != (#[trigger] after[k])[0].hash by {
            if i < groups.len() {
                assert(group_consistent(groups[i]));
                assert(after[i] == groups[i]);
            }
            if k < groups.len() {
                assert(group_consistent(groups[k]));
                assert(after[k] == groups[k]);
            }
        }
    }
}

/// The sum over the first `n` groups is the sum over the first `n - 1`
/// and what the `n`-th gives, and no more than the sum over all.
pub proof fn lemma_sum_prefix(
    groups: Seq<Seq<FileInfoView>>,
    n: int,
    f: spec_fn(Seq<FileInfoView>) -> nat,
)
    requires
        0 < n <= groups.len(),
    ensures
        sum_groups(groups.take(n), f) == sum_groups(groups.take(n - 1), f) + f(groups[n - 1]),
        sum_groups(groups.take(n), f) <= sum_groups(groups, f),
    decreases groups.len() - n,
{
    assert(groups.take(n).drop_last() =~= groups.take(n - 1));
    assert(groups.take(n).last() == groups[n - 1]);
    if n < groups.len() {
        lemma_sum_prefix(groups, n + 1, f);
    } else {
        assert(groups.take(n) =~= groups);
    }
}

/// Each group that stays after filtering is one of the groups.
pub proof fn lemma_kept_is_group(groups: Seq<Seq<FileInfoView>>, i: int) -> (j: int)
    requires
        0 <= i < groups.filter(has_duplicates()).len(),
    ensures
        0 <= j < groups.len(),
        groups[j] == groups.filter(has_duplicates())[i],
{
    let kept = groups.filter(has_duplicates());
    assert(kept.contains(kept[i]));
    groups.lemma_filter_contains_rev(has_duplicates(), kept[i]);
    choose|j: int| 0 <= j < groups.len() && groups[j] == kept[i]
}

/// Leaving groups out keeps the others consistent.
pub proof fn lemma_filter_consistent(groups: Seq<Seq<FileInfoView>>)
    requires
        groups_consistent(groups),
    ensures
        groups_consistent(groups.filter(has_duplicates())),
    decreases groups.len(),
{
    reveal(Seq::filter);
    if groups.len() > 0 {
        let front = groups.drop_last();
        assert(groups_consistent(front)) by {
            assert forall|i: int| 0 <= i < front.len() implies group_consistent(
                #[trigger] front[i],
            ) by {
                assert(front[i] == groups[i]);
            }
            assert forall|i: int, k: int|
                0 <= i < front.len() && 0 <= k < front.len() && i != k implies (
            #[trigger] front[i])[0].hash != (#[trigger] front[k])[0].hash by {
                assert(front[i] == groups[i]);
                assert(front[k] == groups[k]);
            }
        }
        lemma_filter_consistent(front);
        let kept = front.filter(has_duplicates());
        if has_duplicates()(groups.last()) {
            let all = kept.push(groups.last());
            let end = groups.len() - 1;
            assert(groups.filter(has_duplicates()) == all);
            assert forall|i: int| 0 <= i < all.len() implies group_consistent(
                #[trigger] all[i],
            ) by {
                if i < kept.len() {
                    assert(all[i] == kept[i]);
                } else {
                    assert(all[i] == groups[end]);
                }
            }
            assert forall|i: int, k: int|
                0 <= i < all.len() && 0 <= k < all.len() && i != k implies (
            #[trigger] all[i])[0].hash != (#[trigger] all[k])[0].hash by {
                if i < kept.len() && k < kept.len() {
                    assert(all[i] == kept[i]);
                    assert(all[k] == kept[k]);
                } else if i < kept.len() {
                    let j = lemma_kept_is_group(front, i);
                    assert(front[j] == groups[j]);
                    assert(all[k] == groups[end]);
                } else {
                    let j = lemma_kept_is_group(front, k);
                    assert(front[j] == groups[j]);
                    assert(all[i] == groups[end]);
                }
            }
        }
    }
}

} // verus!
