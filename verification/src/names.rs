//! File names the image converter derives: the color-key source named in an
//! image header, the alpha-mask companions of an image, and output names.

use vstd::prelude::*;
use vstd::string::{StrSliceExecFns, StringExecFns};
use crate::text::chars_of;

verus! {

/// `s` without its trailing NUL characters.
pub open spec fn without_trailing_nuls(s: Seq<char>) -> Seq<char>
    decreases s.len(),
{
    if s.len() > 0 && s.last() == '\0' {
        without_trailing_nuls(s.drop_last())
    } else {
        s
    }
}

/// A character with the Unicode `White_Space` property, which `str::trim`
/// removes.
pub open spec fn is_white_space(c: char) -> bool {
    ||| '\u{9}' <= c && c <= '\u{d}'
    ||| c == ' ' || c == '\u{85}' || c == '\u{a0}' || c == '\u{1680}'
    ||| '\u{2000}' <= c && c <= '\u{200a}'
    ||| c == '\u{2028}' || c == '\u{2029}' || c == '\u{202f}' || c == '\u{205f}' || c == '\u{3000}'
}

/// `s` without its leading white space.
pub open spec fn trimmed_start(s: Seq<char>) -> Seq<char>
    decreases s.len(),
{
    if s.len() > 0 && is_white_space(s[0]) {
        trimmed_start(s.drop_first())
    } else {
        s
    }
}

/// `s` without its trailing white space.
pub open spec fn trimmed_end(s: Seq<char>) -> Seq<char>
    decreases s.len(),
{
    if s.len() > 0 && is_white_space(s.last()) {
        trimmed_end(s.drop_last())
    } else {
        s
    }
}

/// `s` without leading and trailing white space, as `str::trim` gives it.
pub open spec fn trimmed(s: Seq<char>) -> Seq<char> {
    trimmed_end(trimmed_start(s))
}

fn white_space(c: char) -> (w: bool)
    ensures
        w == is_white_space(c),
{
    ('\u{9}' <= c && c <= '\u{d}') || c == ' ' || c == '\u{85}' || c == '\u{a0}' || c == '\u{1680}'
        || ('\u{2000}' <= c && c <= '\u{200a}') || c == '\u{2028}' || c == '\u{2029}'
        || c == '\u{202f}' || c == '\u{205f}' || c == '\u{3000}'
}

/// `s` without leading and trailing white space.
pub fn trim_whitespace(s: &str) -> (t: &str)
    ensures
        t@ == trimmed(s@),
{
    let cs = chars_of(s);
    let mut start: usize = 0;
    assert(cs@.skip(0) =~= cs@);
    while start < cs.len() && white_space(cs[start])
        invariant
            start <= cs.len(),
            cs@ == s@,
            trimmed_start(s@) == trimmed_start(cs@.skip(start as int)),
        decreases cs.len() - start,
    {
        assert(cs@.skip(start as int).drop_first() =~= cs@.skip(start + 1));
        start = start + 1;
    }
    let ghost rest = cs@.skip(start as int);
    assert(trimmed_start(rest) == rest);
    let mut end: usize = cs.len();
    assert(cs@.subrange(start as int, end as int) =~= rest);
    while end > start && white_space(cs[end - 1])
        invariant
            start <= end <= cs.len(),
            cs@ == s@,
            trimmed_end(rest) == trimmed_end(cs@.subrange(start as int, end as int)),
        decreases end,
    {
        assert(cs@.subrange(start as int, end as int).drop_last() =~= cs@.subrange(start as int, end - 1));
        end = end - 1;
    }
    let t = s.substring_char(start, end);
    assert(t@ =~= cs@.subrange(start as int, end as int));
    t
}

/// The color-key source that an image's class name designates: the name
/// without trailing NULs and then without surrounding white space; none
/// when nothing is left.
pub open spec fn color_key_source_name(class_name: Seq<char>) -> Option<Seq<char>> {
    let name = trimmed(without_trailing_nuls(class_name));
    if name.len() == 0 {
        None
    } else {
        Some(name)
    }
}

/// `s` without its trailing NUL characters.
pub fn strip_trailing_nuls(s: &str) -> (t: &str)
    ensures
        t@ == without_trailing_nuls(s@),
{
    let cs = chars_of(s);
    let mut end: usize = cs.len();
    assert(cs@.take(end as int) =~= cs@);
    while end > 0 && cs[end - 1] == '\0'
        invariant
            end <= cs.len(),
            cs@ == s@,
            without_trailing_nuls(s@) == without_trailing_nuls(cs@.take(end as int)),
        decreases end,
    {
        assert(cs@.take(end as int).drop_last() =~= cs@.take(end - 1));
        end = end - 1;
    }
    let t = s.substring_char(0, end);
    assert(t@ =~= cs@.take(end as int));
    t
}

/// The color-key source named by an already trimmed class name: none when
/// it is empty.
pub fn source_from_trimmed(name: &str) -> (source: Option<String>)
    ensures
        name@.len() == 0 ==> source is None,
        name@.len() > 0 ==> (source matches Some(s) && s@ == name@),
{
    if name.is_empty() {
        None
    } else {
        Some(name.to_owned())
    }
}

/// The file name of the color-key source that an image's class name
/// designates, if any.
pub fn color_key_source(class_name: Option<&str>) -> (name: Option<String>)
    ensures
        match class_name {
            None => name is None,
            Some(c) => match color_key_source_name(c@) {
                None => name is None,
                Some(expected) => name matches Some(n) && n@ == expected,
            },
        },
{
    match class_name {
        None => None,
        Some(c) => {
            source_from_trimmed(trim_whitespace(strip_trailing_nuls(c)))
        },
    }
}

/// The suffix of the alpha-mask candidate `k / 2`: `_`, `_alfa`, `_alpha`.
pub open spec fn alpha_suffix(k: int) -> Seq<char> {
    if k == 0 {
        "_"@
    } else if k == 1 {
        "_alfa"@
    } else {
        "_alpha"@
    }
}

/// The extension of an alpha-mask candidate: `rc8` before `rct`.
pub open spec fn alpha_extension(k: int) -> Seq<char> {
    if k == 0 {
        "rc8"@
    } else {
        "rct"@
    }
}

/// Candidate `k` among the alpha-mask file names of an image stem.
pub open spec fn alpha_mask_name(stem: Seq<char>, k: int) -> Seq<char> {
    stem + alpha_suffix(k / 2) + "."@ + alpha_extension(k % 2)
}

fn joined(stem: &str, suffix: &str, extension: &str) -> (name: String)
    ensures
        name@ == stem@ + suffix@ + "."@ + extension@,
{
    String::from_str(stem).concat(suffix).concat(".").concat(extension)
}

/// The file names, in the order they are tried, under which the alpha
/// mask of an image with this stem may be found; none for an empty stem.
pub fn alpha_mask_names(stem: &str) -> (names: Vec<String>)
    ensures
        stem@.len() == 0 ==> names@.len() == 0,
        stem@.len() > 0 ==> names@.len() == 6,
        forall|k: int| 0 <= k < names@.len() ==> #[trigger] names@[k]@ == alpha_mask_name(stem@, k),
{
    let mut names: Vec<String> = Vec::new();
    if stem.is_empty() {
        return names;
    }
    names.push(joined(stem, "_", "rc8"));
    names.push(joined(stem, "_", "rct"));
    names.push(joined(stem, "_alfa", "rc8"));
    names.push(joined(stem, "_alfa", "rct"));
    names.push(joined(stem, "_alpha", "rc8"));
    names.push(joined(stem, "_alpha", "rct"));
    names
}

/// The PNG file name written for an image with this stem.
pub fn png_file_name(stem: &str) -> (name: String)
    ensures
        name@ == stem@ + ".png"@,
{
    String::from_str(stem).concat(".png")
}

} // verus!
