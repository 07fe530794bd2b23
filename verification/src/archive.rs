//! Decisions made while extracting an archive.

use vstd::prelude::*;

verus! {

/// One component of a path, told apart by kind only.
#[derive(Clone, Copy, Debug, PartialEq, Eq, Structural)]
pub enum PathPart {
    Prefix,
    RootDir,
    CurDir,
    ParentDir,
    Normal,
}

/// The kinds of the components that `std::path::Path::components` yields
/// for a path given as text, on the platform the library is built for.
pub uninterp spec fn path_parts_of(name: Seq<char>) -> Seq<PathPart>;

/// A path segment that reads as one normal component on every platform:
/// not empty, without a separator (`/` or `\\`) or a drive colon, and
/// neither `.` nor `..`.
pub open spec fn is_plain_segment(s: Seq<char>) -> bool {
    &&& s.len() > 0
    &&& forall|i: int| 0 <= i < s.len() ==> #[trigger] s[i] != '/' && s[i] != '\\' && s[i] != ':'
    &&& s != seq!['.']
    &&& s != seq!['.', '.']
}

/// The index of the first `/` in `s` at or after `i`; the length of `s`
/// when there is none.
pub open spec fn slash_from(s: Seq<char>, i: nat) -> nat
    decreases s.len() - i,
{
    if i >= s.len() {
        s.len()
    } else if s[i as int] == '/' {
        i
    } else {
        slash_from(s, i + 1)
    }
}

/// A relative path made of plain segments joined by single `/`s.
pub open spec fn is_plain_path(s: Seq<char>) -> bool
    decreases s.len(),
{
    let k = slash_from(s, 0);
    if k >= s.len() {
        is_plain_segment(s)
    } else {
        is_plain_segment(s.take(k as int)) && is_plain_path(s.skip(k as int + 1))
    }
}

/// The number of `/`-separated segments of `s`.
pub open spec fn segment_count(s: Seq<char>) -> nat
    decreases s.len(),
{
    let k = slash_from(s, 0);
    if k >= s.len() {
        1
    } else {
        1 + segment_count(s.skip(k as int + 1))
    }
}

/// Calls `std::path::Path::components` on `name` and records the kind of
/// each component, in order. The contract names the result as a function
/// of the text alone for a given target platform (Windows paths, for one,
/// have prefixes that Unix paths do not), and states what the documentation
/// of `components` shows for plain relative paths on every platform: each
/// `/`-separated segment is one normal component. How std splits other
/// paths is left unsaid.
#[verifier::external_body]
fn path_parts(name: &str) -> (parts: Vec<PathPart>)
    ensures
        parts@ == path_parts_of(name@),
        is_plain_path(name@) ==> parts@.len() == segment_count(name@),
        is_plain_path(name@) ==> forall|i: int| 0 <= i < parts@.len() ==> #[trigger] parts@[i] == PathPart::Normal,
{
    let mut parts = Vec::new();
    for part in std::path::Path::new(name).components() {
        parts.push(match part {
            std::path::Component::Prefix(_) => PathPart::Prefix,
            std::path::Component::RootDir => PathPart::RootDir,
            std::path::Component::CurDir => PathPart::CurDir,
            std::path::Component::ParentDir => PathPart::ParentDir,
            std::path::Component::Normal(_) => PathPart::Normal,
        });
    }
    parts
}

/// A component that would lead outside the directory it is joined to.
pub open spec fn is_escaping(part: PathPart) -> bool {
    part == PathPart::Prefix || part == PathPart::RootDir || part == PathPart::ParentDir
}

/// Some component of `parts` leads outside the output directory.
pub open spec fn escapes(parts: Seq<PathPart>) -> bool {
    exists|i: int| 0 <= i < parts.len() && is_escaping(#[trigger] parts[i])
}

/// An archive entry whose name would be written outside the output directory.
#[derive(Debug)]
pub struct EscapingEntry {
    pub name: String,
}

/// Whether some of the given components would lead outside the output
/// directory.
pub fn any_escaping(parts: &Vec<PathPart>) -> (found: bool)
    ensures
        found == escapes(parts@),
{
    let mut i: usize = 0;
    while i < parts.len()
        invariant
            i <= parts.len(),
            forall|j: int| 0 <= j < i ==> !is_escaping(#[trigger] parts@[j]),
        decreases parts.len() - i,
    {
        let part = parts[i];
        if part == PathPart::Prefix || part == PathPart::RootDir || part == PathPart::ParentDir {
            assert(is_escaping(parts@[i as int]));
            return true;
        }
        i = i + 1;
    }
    false
}

/// Checks that an archive entry name stays inside the output directory:
/// it is refused when one of its path components is a prefix, the root
/// directory or a parent directory; otherwise it is the relative path itself.
pub fn safe_relative_path(name: &str) -> (res: Result<String, EscapingEntry>)
    ensures
        res is Ok <==> !escapes(path_parts_of(name@)),
        res matches Ok(path) ==> path@ == name@,
        res matches Err(e) ==> e.name@ == name@,
        is_plain_path(name@) ==> res is Ok,
{
    let parts = path_parts(name);
    if any_escaping(&parts) {
        Err(EscapingEntry { name: name.to_owned() })
    } else {
        Ok(name.to_owned())
    }
}

proof fn lemma_slash_from_bounds(s: Seq<char>, i: nat)
    requires
        i <= s.len(),
    ensures
        i <= slash_from(s, i) <= s.len(),
        slash_from(s, i) < s.len() ==> s[slash_from(s, i) as int] == '/',
        forall|j: int| i <= j < slash_from(s, i) ==> s[j] != '/',
    decreases s.len() - i,
{
    if i < s.len() && s[i as int] != '/' {
        lemma_slash_from_bounds(s, i + 1);
    }
}

/// The first `/` found from `i` is the same in `s + t` as in `s` when `s`
/// has one; otherwise it is at the end of `s` when `t` starts with `/`.
proof fn lemma_slash_from_append(s: Seq<char>, t: Seq<char>, i: nat)
    requires
        i <= s.len(),
        t.len() > 0 && t[0] == '/',
    ensures
        slash_from(s + t, i) == slash_from(s, i),
    decreases s.len() - i,
{
    let st = s + t;
    if i < s.len() {
        assert(st[i as int] == s[i as int]);
        if s[i as int] != '/' {
            lemma_slash_from_append(s, t, i + 1);
        }
    } else {
        assert(st[i as int] == t[0]);
    }
}

proof fn lemma_plain_join(a: Seq<char>, b: Seq<char>)
    requires
        is_plain_path(a),
        is_plain_path(b),
    ensures
        is_plain_path(a + seq!['/'] + b),
        segment_count(a + seq!['/'] + b) == segment_count(a) + segment_count(b),
    decreases a.len(),
{
    let joined = a + seq!['/'] + b;
    let rest = seq!['/'] + b;
    assert(joined =~= a + rest);
    lemma_slash_from_append(a, rest, 0);
    lemma_slash_from_bounds(a, 0);
    let k = slash_from(a, 0);
    if k >= a.len() {
        assert(joined.take(k as int) =~= a);
        assert(joined.skip(k as int + 1) =~= b);
    } else {
        assert(joined.take(k as int) =~= a.take(k as int));
        assert(joined.skip(k as int + 1) =~= a.skip(k as int + 1) + seq!['/'] + b);
        lemma_plain_join(a.skip(k as int + 1), b);
    }
}

/// Joining two plain relative paths with `/` gives a plain relative path
/// with the segments of both; such a name never escapes the output
/// directory, so [`safe_relative_path`] accepts it as it is.
pub proof fn plain_paths_join(a: Seq<char>, b: Seq<char>)
    requires
        is_plain_path(a),
        is_plain_path(b),
    ensures
        is_plain_path(a + seq!['/'] + b),
        segment_count(a + seq!['/'] + b) == segment_count(a) + segment_count(b),
{
    lemma_plain_join(a, b);
}

/// A plain segment is a plain relative path of one segment.
pub proof fn plain_segment_is_plain_path(s: Seq<char>)
    requires
        is_plain_segment(s),
    ensures
        is_plain_path(s),
        segment_count(s) == 1,
{
    lemma_slash_from_bounds(s, 0);
    if slash_from(s, 0) < s.len() {
        assert(s[slash_from(s, 0) as int] != '/');
    }
}

/// The sum of the first `n` sizes.
pub open spec fn size_sum(sizes: Seq<usize>, n: int) -> nat
    decreases n,
{
    if n <= 0 {
        0
    } else {
        size_sum(sizes, n - 1) + sizes[n - 1] as nat
    }
}

/// The total size of an archive's entries, when it fits in a `usize`.
pub fn archive_total_size(sizes: &Vec<usize>) -> (total: Option<usize>)
    ensures
        match total {
            Some(t) => t == size_sum(sizes@, sizes@.len() as int),
            None => size_sum(sizes@, sizes@.len() as int) > usize::MAX,
        },
{
    let mut total: usize = 0;
    let mut i: usize = 0;
    while i < sizes.len()
        invariant
            i <= sizes.len(),
            total == size_sum(sizes@, i as int),
        decreases sizes.len() - i,
    {
        if total > usize::MAX - sizes[i] {
            proof { lemma_size_sum_grows(sizes@, i + 1, sizes@.len() as int); }
            return None;
        }
        total = total + sizes[i];
        i = i + 1;
    }
    Some(total)
}

proof fn lemma_size_sum_grows(sizes: Seq<usize>, i: int, j: int)
    requires
        0 <= i <= j <= sizes.len(),
    ensures
        size_sum(sizes, i) <= size_sum(sizes, j),
    decreases j - i,
{
    if i < j {
        lemma_size_sum_grows(sizes, i, j - 1);
    }
}

/// Whether extracting an entry writes its file: not when a file already
/// there holds exactly the entry's bytes.
pub fn entry_needs_write(existing: Option<&[u8]>, data: &[u8]) -> (write: bool)
    ensures
        write == !(existing matches Some(e) && e@ == data@),
{
    match existing {
        None => true,
        Some(e) => {
            if e.len() != data.len() {
                return true;
            }
            let mut i: usize = 0;
            while i < e.len()
                invariant
                    i <= e.len(),
                    e.len() == data.len(),
                    existing == Some(e),
                    forall|j: int| 0 <= j < i ==> e@[j] == data@[j],
                decreases e.len() - i,
            {
                if e[i] != data[i] {
                    return true;
                }
                i = i + 1;
            }
            assert(e@ =~= data@);
            false
        },
    }
}

} // verus!
