//! Text helpers: decimal numbers, file names and their parts, numbered
//! variants of a name, and a few classifications of paths.

use vstd::prelude::*;

verus! {

/// The character of a decimal digit.
pub open spec fn digit_char(d: int) -> char {
    if d == 0 {
        '0'
    } else if d == 1 {
        '1'
    } else if d == 2 {
        '2'
    } else if d == 3 {
        '3'
    } else if d == 4 {
        '4'
    } else if d == 5 {
        '5'
    } else if d == 6 {
        '6'
    } else if d == 7 {
        '7'
    } else if d == 8 {
        '8'
    } else {
        '9'
    }
}

/// The decimal numeral of `n`, without leading zeros.
pub open spec fn decimal_text(n: nat) -> Seq<char>
    decreases n,
{
    if n < 10 {
        seq![digit_char(n as int)]
    } else {
        decimal_text(n / 10).push(digit_char((n % 10) as int))
    }
}

/// The numeral of one digit, as text.
fn digit_str(d: u64) -> (res: &'static str)
    requires
        d < 10,
    ensures
        res@ == seq![digit_char(d as int)],
{
    proof {
        reveal_strlit("0");
        reveal_strlit("1");
        reveal_strlit("2");
        reveal_strlit("3");
        reveal_strlit("4");
        reveal_strlit("5");
        reveal_strlit("6");
        reveal_strlit("7");
        reveal_strlit("8");
        reveal_strlit("9");
    }
    let res = if d == 0 {
        "0"
    } else if d == 1 {
        "1"
    } else if d == 2 {
        "2"
    } else if d == 3 {
        "3"
    } else if d == 4 {
        "4"
    } else if d == 5 {
        "5"
    } else if d == 6 {
        "6"
    } else if d == 7 {
        "7"
    } else if d == 8 {
        "8"
    } else {
        "9"
    };
    assert(res@ =~= seq![digit_char(d as int)]);
    res
}

/// Writes `n` in decimal.
pub fn decimal_string(n: u64) -> (res: String)
    ensures
        res@ == decimal_text(n as nat),
    decreases n,
{
    if n < 10 {
        String::from_str(digit_str(n))
    } else {
        let mut res = decimal_string(n / 10);
        res.append(digit_str(n % 10));
        assert(res@ =~= decimal_text(n as nat));
        res
    }
}

/// The position of the last `c` in `s`, or -1 where `s` holds none.
pub open spec fn last_index_of(s: Seq<char>, c: char) -> int
    decreases s.len(),
{
    if s.len() == 0 {
        -1
    } else if s.last() == c {
        s.len() - 1
    } else {
        last_index_of(s.drop_last(), c)
    }
}

/// `last_index_of` names a position that holds `c`, and no later position
/// holds it; it is -1 exactly where `c` does not occur.
pub proof fn lemma_last_index_of(s: Seq<char>, c: char)
    ensures
        -1 <= last_index_of(s, c) < s.len(),
        last_index_of(s, c) >= 0 ==> s[last_index_of(s, c)] == c,
        forall|j: int| last_index_of(s, c) < j < s.len() ==> s[j] != c,
    decreases s.len(),
{
    if s.len() > 0 && s.last() != c {
        let t = s.drop_last();
        lemma_last_index_of(t, c);
        assert forall|j: int| last_index_of(s, c) < j < s.len() implies s[j] != c by {
            if j < t.len() {
                assert(t[j] == s[j]);
            }
        }
    }
}

/// Finds the last `c` in `s`, counted in characters.
pub fn find_last(s: &str, c: char) -> (res: Option<usize>)
    ensures
        match res {
            Some(i) => i as int == last_index_of(s@, c),
            None => last_index_of(s@, c) == -1,
        },
{
    let n = s.unicode_len();
    let mut found: Option<usize> = None;
    let mut i: usize = 0;
    assert(s@.take(0) =~= Seq::<char>::empty());
    while i < n
        invariant
            n == s@.len(),
            i <= n,
            match found {
                Some(k) => k as int == last_index_of(s@.take(i as int), c),
                None => last_index_of(s@.take(i as int), c) == -1,
            },
        decreases n - i,
    {
        let ch = s.get_char(i);
        assert(s@.take(i + 1).drop_last() =~= s@.take(i as int));
        assert(s@.take(i + 1).last() == ch);
        if ch == c {
            found = Some(i);
        }
        i = i + 1;
    }
    assert(s@.take(n as int) =~= s@);
    found
}


/// Splits a file name at its last dot into what stands before and what
/// stands after it. A name without a dot is all stem.
pub open spec fn split_name(name: Seq<char>) -> (Seq<char>, Seq<char>) {
    let i = last_index_of(name, '.');
    if i < 0 {
        (name, Seq::<char>::empty())
    } else {
        (name.take(i), name.skip(i + 1))
    }
}

/// Split filename into stem and extension.
pub fn split_filename(filename: &str) -> (res: (String, String))
    ensures
        (res.0@, res.1@) == split_name(filename@),
{
    proof {
        lemma_last_index_of(filename@, '.');
    }
    match find_last(filename, '.') {
        Some(i) => {
            let n = filename.unicode_len();
            let stem = String::from_str(filename.substring_char(0, i));
            let ext = String::from_str(filename.substring_char(i + 1, n));
            assert(stem@ =~= filename@.take(i as int));
            assert(ext@ =~= filename@.skip(i + 1));
            (stem, ext)
        },
        None => (String::from_str(filename), String::new()),
    }
}

/// The extension of a file name: what follows its last dot. A name without
/// a dot has none, and neither has one whose only dot is its first
/// character.
pub open spec fn extension_of(name: Seq<char>) -> Option<Seq<char>> {
    let i = last_index_of(name, '.');
    if i <= 0 {
        None
    } else {
        Some(name.skip(i + 1))
    }
}

/// The stem of a file name: the name without its extension and the dot
/// before it.
pub open spec fn stem_of(name: Seq<char>) -> Seq<char> {
    let i = last_index_of(name, '.');
    if i <= 0 {
        name
    } else {
        name.take(i)
    }
}

/// The extension of a file name, if it has one.
pub fn extension(name: &str) -> (res: Option<String>)
    ensures
        match res {
            Some(e) => extension_of(name@) == Some(e@),
            None => extension_of(name@) is None,
        },
{
    proof {
        lemma_last_index_of(name@, '.');
    }
    match find_last(name, '.') {
        Some(i) => {
            if i == 0 {
                None
            } else {
                let n = name.unicode_len();
                let ext = String::from_str(name.substring_char(i + 1, n));
                assert(ext@ =~= name@.skip(i + 1));
                Some(ext)
            }
        },
        None => None,
    }
}

/// The stem of a file name.
pub fn file_stem(name: &str) -> (res: String)
    ensures
        res@ == stem_of(name@),
{
    proof {
        lemma_last_index_of(name@, '.');
    }
    match find_last(name, '.') {
        Some(i) => {
            if i == 0 {
                String::from_str(name)
            } else {
                let stem = String::from_str(name.substring_char(0, i));
                assert(stem@ =~= name@.take(i as int));
                stem
            }
        },
        None => String::from_str(name),
    }
}

/// The last component of a path whose components are separated by `/`.
/// There is none where the path ends in a separator, in `.` or in `..`.
pub open spec fn file_name_of(path: Seq<char>) -> Option<Seq<char>> {
    let last = path.skip(last_index_of(path, '/') + 1);
    if last.len() == 0 || last == seq!['.'] || last == seq!['.', '.'] {
        None
    } else {
        Some(last)
    }
}

/// The file name of a path, if it has one.
pub fn file_name(path: &str) -> (res: Option<String>)
    ensures
        match res {
            Some(name) => file_name_of(path@) == Some(name@),
            None => file_name_of(path@) is None,
        },
{
    proof {
        lemma_last_index_of(path@, '/');
    }
    let n = path.unicode_len();
    let start: usize = match find_last(path, '/') {
        Some(i) => i + 1,
        None => 0,
    };
    let last = path.substring_char(start, n);
    assert(last@ =~= path@.skip(last_index_of(path@, '/') + 1));
    let len = last.unicode_len();
    if len == 0 {
        None
    } else if len == 1 && last.get_char(0) == '.' {
        assert(last@ =~= seq!['.']);
        None
    } else if len == 2 && last.get_char(0) == '.' && last.get_char(1) == '.' {
        assert(last@ =~= seq!['.', '.']);
        None
    } else {
        assert(last@ != seq!['.']) by {
            if last@ == seq!['.'] {
                assert(last@.len() == 1 && last@[0] == '.');
            }
        }
        assert(last@ != seq!['.', '.']) by {
            if last@ == seq!['.', '.'] {
                assert(last@.len() == 2 && last@[0] == '.' && last@[1] == '.');
            }
        }
        Some(String::from_str(last))
    }
}

/// The extension of the file that a path names.
pub open spec fn path_extension_of(path: Seq<char>) -> Option<Seq<char>> {
    match file_name_of(path) {
        Some(name) => extension_of(name),
        None => None,
    }
}

/// The extension of the file that a path names, if it has one.
pub fn path_extension(path: &str) -> (res: Option<String>)
    ensures
        match res {
            Some(e) => path_extension_of(path@) == Some(e@),
            None => path_extension_of(path@) is None,
        },
{
    match file_name(path) {
        Some(name) => extension(name.as_str()),
        None => None,
    }
}

/// A directory and a name put together, with one `/` between them unless
/// the directory is empty or already ends in one.
pub open spec fn joined(dir: Seq<char>, name: Seq<char>) -> Seq<char> {
    if dir.len() == 0 || dir.last() == '/' {
        dir + name
    } else {
        dir + seq!['/'] + name
    }
}

/// Joins a directory and a file name.
pub fn join_path(dir: &str, name: &str) -> (res: String)
    ensures
        res@ == joined(dir@, name@),
{
    let n = dir.unicode_len();
    let mut res = String::from_str(dir);
    if n > 0 && dir.get_char(n - 1) != '/' {
        proof {
            reveal_strlit("/");
        }
        res.append("/");
        assert(res@ =~= dir@ + seq!['/']);
    }
    res.append(name);
    res
}

/// A stem and an extension made into the `k`-th variant of a name: the
/// number follows the stem after an underscore, and the extension, where
/// there is one, follows the number after a dot.
pub open spec fn numbered(stem: Seq<char>, ext: Seq<char>, k: nat) -> Seq<char> {
    if ext.len() == 0 {
        stem + seq!['_'] + decimal_text(k)
    } else {
        stem + seq!['_'] + decimal_text(k) + seq!['.'] + ext
    }
}

/// Builds the `counter`-th variant of a name from its stem and extension.
pub fn numbered_name(stem: &str, ext: &str, counter: u64) -> (res: String)
    ensures
        res@ == numbered(stem@, ext@, counter as nat),
{
    proof {
        reveal_strlit("_");
        reveal_strlit(".");
    }
    let mut res = String::from_str(stem);
    res.append("_");
    let digits = decimal_string(counter);
    res.append(digits.as_str());
    assert(res@ =~= stem@ + seq!['_'] + decimal_text(counter as nat));
    if ext.unicode_len() > 0 {
        res.append(".");
        res.append(ext);
        assert(res@ =~= stem@ + seq!['_'] + decimal_text(counter as nat) + seq!['.'] + ext@);
    }
    res
}


/// What `str::to_lowercase` makes of a text: its lowercase equivalent as
/// Unicode defines it.
pub uninterp spec fn lowercase_of(text: Seq<char>) -> Seq<char>;

/// The lowercase equivalent of a text, as `str::to_lowercase` of the
/// standard library computes it. Nothing is claimed of the result but that
/// it depends on the text alone.
#[verifier::external_body]
pub(crate) fn lowercase(text: &str) -> (res: String)
    ensures
        res@ == lowercase_of(text@),
{
    text.to_lowercase()
}

/// Whether a list of texts holds `text`.
pub fn contains_text(list: &Vec<String>, text: &String) -> (res: bool)
    ensures
        res == texts_view(list@).contains(text@),
{
    let ghost all = texts_view(list@);
    let mut i: usize = 0;
    while i < list.len()
        invariant
            i <= list@.len(),
            all == texts_view(list@),
            forall|k: int| 0 <= k < i ==> all[k] != text@,
        decreases list@.len() - i,
    {
        if list[i] == *text {
            assert(all[i as int] == text@);
            return true;
        }
        i = i + 1;
    }
    false
}

/// The values of a list of texts, in their order.
pub open spec fn texts_view(list: Seq<String>) -> Seq<Seq<char>> {
    list.map_values(|s: String| s@)
}


/// What `humansize::format_size` with the options `DECIMAL` makes of a
/// size in bytes: the size in the largest decimal unit that it fills, with
/// up to two decimal places and the unit's abbreviation.
pub uninterp spec fn decimal_size_text(size: u64) -> Seq<char>;

/// Format file size in human-readable format, as `humansize::format_size`
/// does with the options `humansize::DECIMAL`. Nothing is claimed of the
/// text but that it depends on the size alone.
#[verifier::external_body]
pub fn format_file_size(size: u64) -> (res: String)
    ensures
        res@ == decimal_size_text(size),
{
    humansize::format_size(size, humansize::DECIMAL)
}

/// `pathdiff::diff_paths`: the path that leads from `base` to `path`, if
/// there is one. How a path falls into components depends on the platform,
/// so nothing is claimed of the result.
#[verifier::external_body]
fn diff_paths(path: &str, base: &str) -> (res: Option<String>) {
    pathdiff::diff_paths(path, base).map(|p| p.to_string_lossy().into_owned())
}

/// The path to show for `to`: the relative path where one was found, else
/// `to` itself.
pub fn relative_or_whole(relative: Option<String>, to: &str) -> (res: String)
    ensures
        res@ == match relative {
            Some(path) => path@,
            None => to@,
        },
{
    match relative {
        Some(path) => path,
        None => String::from_str(to),
    }
}

/// Get the relative path between two paths, both given in canonical form:
/// the path that leads from `from` to `to` where `pathdiff::diff_paths`
/// finds one, else `to` itself. What is found depends on the platform's
/// path syntax; `relative_or_whole` says what is returned for each outcome.
pub fn get_relative_path(from: &str, to: &str) -> (res: String) {
    relative_or_whole(diff_paths(to, from), to)
}

/// Whether `text` begins with `prefix`.
pub fn starts_with(text: &str, prefix: &str) -> (res: bool)
    ensures
        res == prefix@.is_prefix_of(text@),
{
    let n = prefix.unicode_len();
    if text.unicode_len() < n {
        return false;
    }
    let mut i: usize = 0;
    while i < n
        invariant
            n == prefix@.len(),
            n <= text@.len(),
            i <= n,
            forall|k: int| 0 <= k < i ==> text@[k] == prefix@[k],
        decreases n - i,
    {
        if text.get_char(i) != prefix.get_char(i) {
            assert(text@.subrange(0, n as int)[i as int] != prefix@[i as int]);
            return false;
        }
        i = i + 1;
    }
    assert(prefix@ =~= text@.subrange(0, n as int));
    true
}

/// Whether a path lies under one of the directories of the system, by its
/// text: the directories of programs on Unix, macOS and Windows.
pub open spec fn under_system_dir(path: Seq<char>) -> bool {
    ||| "/bin"@.is_prefix_of(path)
    ||| "/sbin"@.is_prefix_of(path)
    ||| "/usr/bin"@.is_prefix_of(path)
    ||| "/usr/sbin"@.is_prefix_of(path)
    ||| "/System"@.is_prefix_of(path)
    ||| "/Library"@.is_prefix_of(path)
    ||| "/Applications"@.is_prefix_of(path)
    ||| "C:\\Windows"@.is_prefix_of(path)
    ||| "C:\\Program Files"@.is_prefix_of(path)
    ||| "C:\\Program Files (x86)"@.is_prefix_of(path)
}

/// Check if a path is safe to operate on (basic safety checks): it is,
/// unless it lies under a directory of the system.
pub fn is_safe_path(path: &str) -> (res: bool)
    ensures
        res == !under_system_dir(path@),
{
    !(starts_with(path, "/bin") || starts_with(path, "/sbin") || starts_with(path, "/usr/bin")
        || starts_with(path, "/usr/sbin") || starts_with(path, "/System") || starts_with(
        path,
        "/Library",
    ) || starts_with(path, "/Applications") || starts_with(path, "C:\\Windows") || starts_with(
        path,
        "C:\\Program Files",
    ) || starts_with(path, "C:\\Program Files (x86)"))
}

/// Whether two texts are the same.
pub fn same_text(a: &str, b: &str) -> (res: bool)
    ensures
        res == (a@ == b@),
{
    String::from_str(a) == String::from_str(b)
}

/// Whether a file name, in lowercase, is that of a file that an operating
/// system keeps for itself.
pub open spec fn system_file_name(name: Seq<char>) -> bool {
    ||| name == "desktop.ini"@
    ||| name == "thumbs.db"@
    ||| name == ".ds_store"@
    ||| name == "pagefile.sys"@
    ||| name == "hiberfil.sys"@
    ||| name == "swapfile.sys"@
    ||| name == "bootmgr"@
    ||| name == "ntldr"@
}

/// The file name of a path, or nothing where it has none.
pub open spec fn file_name_or_empty(path: Seq<char>) -> Seq<char> {
    match file_name_of(path) {
        Some(name) => name,
        None => Seq::<char>::empty(),
    }
}

/// Whether a file name that is already in lowercase is one of the names
/// that operating systems use for their own files.
pub fn is_system_file_name(lower: &str) -> (res: bool)
    ensures
        res == system_file_name(lower@),
{
    same_text(lower, "desktop.ini") || same_text(lower, "thumbs.db") || same_text(
        lower,
        ".ds_store",
    ) || same_text(lower, "pagefile.sys") || same_text(lower, "hiberfil.sys") || same_text(
        lower,
        "swapfile.sys",
    ) || same_text(lower, "bootmgr") || same_text(lower, "ntldr")
}

/// Check if a file is likely to be a system file: its name, whatever the
/// case of its letters, is one of the names that operating systems use for
/// their own files.
pub fn is_system_file(path: &str) -> (res: bool)
    ensures
        res == system_file_name(lowercase_of(file_name_or_empty(path@))),
{
    let name = match file_name(path) {
        Some(name) => name,
        None => String::new(),
    };
    let lower = lowercase(name.as_str());
    is_system_file_name(lower.as_str())
}

/// Each text of a list in lowercase, in the list's order.
pub open spec fn lowercased(list: Seq<Seq<char>>) -> Seq<Seq<char>> {
    list.map_values(|s: Seq<char>| lowercase_of(s))
}

/// Puts every text of a list into lowercase.
pub(crate) fn lowercase_all(list: &[String]) -> (res: Vec<String>)
    ensures
        texts_view(res@) == lowercased(texts_view(list@)),
{
    let mut res: Vec<String> = Vec::new();
    let mut i: usize = 0;
    while i < list.len()
        invariant
            i <= list@.len(),
            res@.len() == i,
            forall|k: int| 0 <= k < i ==> (#[trigger] res@[k])@ == lowercase_of(list@[k]@),
        decreases list@.len() - i,
    {
        res.push(lowercase(list[i].as_str()));
        i = i + 1;
    }
    assert(texts_view(res@) =~= lowercased(texts_view(list@)));
    res
}

/// Whether an extension is allowed by a list: the list is empty, or the
/// path has an extension that is, but for the case of letters, among those
/// of the list.
pub open spec fn extension_allowed(path: Seq<char>, allowed: Seq<Seq<char>>) -> bool {
    allowed.len() == 0 || match path_extension_of(path) {
        Some(ext) => lowercased(allowed).contains(lowercase_of(ext)),
        None => false,
    }
}

/// Validate that a file extension is in the allowed list
pub fn is_extension_allowed(path: &str, allowed: &[String]) -> (res: bool)
    ensures
        res == extension_allowed(path@, texts_view(allowed@)),
{
    if allowed.len() == 0 {
        return true;
    }
    match path_extension(path) {
        Some(ext) => {
            let ext = lowercase(ext.as_str());
            let list = lowercase_all(allowed);
            contains_text(&list, &ext)
        },
        None => false,
    }
}

/// A duration of `secs` seconds for reading: seconds alone under a
/// minute, minutes and seconds under an hour, else hours, minutes and
/// seconds.
pub open spec fn duration_text(secs: nat) -> Seq<char> {
    if secs < 60 {
        decimal_text(secs) + "s"@
    } else if secs < 3600 {
        decimal_text(secs / 60) + "m "@ + decimal_text(secs % 60) + "s"@
    } else {
        decimal_text(secs / 3600) + "h "@ + decimal_text((secs % 3600) / 60) + "m "@
            + decimal_text(secs % 60) + "s"@
    }
}

/// Format duration in human-readable format
pub fn format_duration(secs: u64) -> (res: String)
    ensures
        res@ == duration_text(secs as nat),
{
    if secs < 60 {
        let mut res = decimal_string(secs);
        res.append("s");
        res
    } else if secs < 3600 {
        let mut res = decimal_string(secs / 60);
        res.append("m ");
        res.append(decimal_string(secs % 60).as_str());
        res.append("s");
        res
    } else {
        let mut res = decimal_string(secs / 3600);
        res.append("h ");
        res.append(decimal_string((secs % 3600) / 60).as_str());
        res.append("m ");
        res.append(decimal_string(secs % 60).as_str());
        res.append("s");
        res
    }
}


/// The `k`-th name tried in place of a name that is taken: the name
/// itself, then the name with `_1`, `_2`, ... between its stem and its
/// extension, as `split_name` parts them.
pub open spec fn variant_of(name: Seq<char>, k: nat) -> Seq<char> {
    if k == 0 {
        name
    } else {
        numbered(split_name(name).0, split_name(name).1, k)
    }
}

/// The `k`-th path tried for a name in a directory.
pub open spec fn candidate(dir: Seq<char>, name: Seq<char>, k: nat) -> Seq<char> {
    joined(dir, variant_of(name, k))
}

/// The `k`-th path is the first that is not among the existing ones.
pub open spec fn first_free(
    dir: Seq<char>,
    name: Seq<char>,
    existing: Seq<Seq<char>>,
    k: nat,
) -> bool {
    &&& !existing.contains(candidate(dir, name, k))
    &&& forall|j: nat| j < k ==> existing.contains(#[trigger] candidate(dir, name, j))
}

/// A numeral has a digit, and two where the number is ten or more.
pub proof fn lemma_decimal_text_len(n: nat)
    ensures
        decimal_text(n).len() >= 1,
        n >= 10 ==> decimal_text(n).len() >= 2,
    decreases n,
{
    if n >= 10 {
        lemma_decimal_text_len(n / 10);
    }
}

/// Different numbers have different numerals.
pub proof fn lemma_decimal_text_injective(a: nat, b: nat)
    requires
        decimal_text(a) == decimal_text(b),
    ensures
        a == b,
    decreases a,
{
    lemma_decimal_text_len(a);
    lemma_decimal_text_len(b);
    if a < 10 {
        assert(decimal_text(a)[0] == digit_char(a as int));
        assert(decimal_text(b)[0] == digit_char(b as int));
    } else {
        let front_a = decimal_text(a / 10);
        let front_b = decimal_text(b / 10);
        let last_a = digit_char((a % 10) as int);
        let last_b = digit_char((b % 10) as int);
        assert(front_a.push(last_a).drop_last() =~= front_a);
        assert(front_b.push(last_b).drop_last() =~= front_b);
        assert(front_a.push(last_a).last() == last_a);
        assert(front_b.push(last_b).last() == last_b);
        lemma_decimal_text_injective(a / 10, b / 10);
    }
}

/// What is put behind the same text is the same where the whole is.
pub proof fn lemma_same_rest(front: Seq<char>, a: Seq<char>, b: Seq<char>)
    requires
        front + a == front + b,
    ensures
        a == b,
{
    assert((front + a).len() == front.len() + a.len());
    assert((front + b).len() == front.len() + b.len());
    assert forall|i: int| 0 <= i < a.len() implies a[i] == b[i] by {
        assert((front + a)[front.len() + i] == a[i]);
        assert((front + b)[front.len() + i] == b[i]);
    }
    assert(a =~= b);
}

/// What is put before the same text is the same where the whole is.
pub proof fn lemma_same_front(a: Seq<char>, b: Seq<char>, rest: Seq<char>)
    requires
        a + rest == b + rest,
    ensures
        a == b,
{
    assert((a + rest).len() == a.len() + rest.len());
    assert((b + rest).len() == b.len() + rest.len());
    assert forall|i: int| 0 <= i < a.len() implies a[i] == b[i] by {
        assert((a + rest)[i] == a[i]);
        assert((b + rest)[i] == b[i]);
    }
    assert(a =~= b);
}

/// Different numbers give different paths.
pub proof fn lemma_candidates_differ(dir: Seq<char>, name: Seq<char>, a: nat, b: nat)
    requires
        a != b,
    ensures
        candidate(dir, name, a) != candidate(dir, name, b),
{
    let va = variant_of(name, a);
    let vb = variant_of(name, b);
    if candidate(dir, name, a) == candidate(dir, name, b) {
        if dir.len() == 0 || dir.last() == '/' {
            lemma_same_rest(dir, va, vb);
        } else {
            lemma_same_rest(dir + seq!['/'], va, vb);
        }
        assert(va == vb);
        let stem = split_name(name).0;
        let ext = split_name(name).1;
        lemma_last_index_of(name, '.');
        lemma_decimal_text_len(a);
        lemma_decimal_text_len(b);
        if a == 0 || b == 0 {
            assert(name.len() <= stem.len() + 1 + ext.len());
            assert(va.len() != vb.len());
        } else {
            let front = stem + seq!['_'];
            if ext.len() == 0 {
                lemma_same_rest(front, decimal_text(a), decimal_text(b));
            } else {
                let rest = seq!['.'] + ext;
                assert(va =~= front + (decimal_text(a) + rest));
                assert(vb =~= front + (decimal_text(b) + rest));
                lemma_same_rest(front, decimal_text(a) + rest, decimal_text(b) + rest);
                lemma_same_front(decimal_text(a), decimal_text(b), rest);
            }
            lemma_decimal_text_injective(a, b);
        }
    }
}

/// Among the first paths for a name, one more than there are existing
/// paths, one is not among the existing paths.
pub proof fn lemma_free_candidate(dir: Seq<char>, name: Seq<char>, existing: Seq<Seq<char>>)
    ensures
        exists|k: nat| k <= existing.len() && !existing.contains(#[trigger] candidate(dir, name, k)),
{
    if forall|k: nat| k <= existing.len() ==> existing.contains(#[trigger] candidate(dir, name, k)) {
        let tried = Seq::new(existing.len() + 1, |k: int| candidate(dir, name, k as nat));
        assert forall|i: int, j: int|
            0 <= i < tried.len() && 0 <= j < tried.len() && i != j implies tried[i]
            != tried[j] by {
            lemma_candidates_differ(dir, name, i as nat, j as nat);
        }
        tried.unique_seq_to_set();
        existing.lemma_cardinality_of_set();
        assert(tried.to_set().subset_of(existing.to_set())) by {
            assert forall|p: Seq<char>| tried.to_set().contains(p) implies existing.to_set().contains(
                p,
            ) by {
                let i = choose|i: int| 0 <= i < tried.len() && tried[i] == p;
                assert(existing.contains(candidate(dir, name, i as nat)));
            }
        }
        vstd::seq_lib::seq_to_set_is_finite(existing);
        vstd::set_lib::lemma_len_subset(tried.to_set(), existing.to_set());
    }
}

/// Generate a unique filename in a directory: the path of the name in the
/// directory if it is not among the existing paths, else the first of its
/// numbered variants that is not.
pub fn generate_unique_filename(dir: &str, original_name: &str, existing: &Vec<String>) -> (res:
    String)
    ensures
        exists|k: nat|
            first_free(dir@, original_name@, texts_view(existing@), k) && res@ == candidate(
                dir@,
                original_name@,
                k,
            ),
{
    let ghost taken = texts_view(existing@);
    let mut path = join_path(dir, original_name);
    let mut counter: u64 = 0;
    let n = existing.len();
    while contains_text(existing, &path)
        invariant
            n == existing@.len(),
            taken == texts_view(existing@),
            path@ == candidate(dir@, original_name@, counter as nat),
            counter <= existing@.len(),
            forall|j: nat|
                j < counter ==> taken.contains(#[trigger] candidate(dir@, original_name@, j)),
        decreases existing@.len() - counter,
    {
        proof {
            lemma_free_candidate(dir@, original_name@, taken);
            let k = choose|k: nat|
                k <= taken.len() && !taken.contains(
                    #[trigger] candidate(dir@, original_name@, k),
                );
            assert(k > counter);
        }
        let parts = split_filename(original_name);
        counter = counter + 1;
        let name = numbered_name(parts.0.as_str(), parts.1.as_str(), counter);
        path = join_path(dir, name.as_str());
    }
    assert(first_free(dir@, original_name@, taken, counter as nat));
    path
}

} // verus!
