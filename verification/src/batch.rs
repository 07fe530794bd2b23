//! Batch conversion of a directory of images: which files to take up, and
//! the tally that decides the run's result.

use vstd::prelude::*;
use vstd::string::StringExecFns;
use crate::image::pixel_total;
use crate::text::chars_of;

verus! {

/// What `str::to_lowercase` gives for a text.
pub uninterp spec fn lowercase_of(s: Seq<char>) -> Seq<char>;

/// A text made of ASCII characters only.
pub open spec fn is_ascii_text(s: Seq<char>) -> bool {
    forall|i: int| 0 <= i < s.len() ==> (#[trigger] s[i] as nat) < 128
}

/// The lower-case form of an ASCII character: `A`..`Z` become `a`..`z`,
/// every other character stays.
pub open spec fn ascii_lower_char(c: char) -> char {
    if 'A' <= c && c <= 'Z' {
        (c as nat + 32) as char
    } else {
        c
    }
}

/// A text with each ASCII upper-case letter put in lower case.
pub open spec fn ascii_lowered(s: Seq<char>) -> Seq<char> {
    s.map_values(|c: char| ascii_lower_char(c))
}

/// Calls `str::to_lowercase`. The contract names the result as a function
/// of the text alone, and states the mapping on ASCII text (`A`..`Z` to
/// `a`..`z`, every other character kept, as Unicode's lower-case mapping
/// does there); the mapping of other characters is left unsaid.
#[verifier::external_body]
fn to_lowercase(s: &str) -> (lower: String)
    ensures
        lower@ == lowercase_of(s@),
        is_ascii_text(s@) ==> lower@ == ascii_lowered(s@),
{
    s.to_lowercase()
}

/// What to do with one directory entry.
#[derive(Clone, Copy, Debug, PartialEq, Eq, Structural)]
pub enum EntryAction {
    /// Not an image to convert: another extension, or a mask file.
    Ignore,
    /// The run writes PNG files, the output exists and may not be overwritten.
    KeepExisting,
    /// Decode the image (and write it, when the run writes PNG files).
    Convert,
}

/// An extension, already in lower case, that names a Majiro image.
pub open spec fn is_image_extension_lowered(lower: Seq<char>) -> bool {
    lower == "rct"@ || lower == "rc8"@
}

/// An extension that names a Majiro image, in any case.
pub open spec fn is_image_extension(extension: Seq<char>) -> bool {
    is_image_extension_lowered(lowercase_of(extension))
}

/// A stem that ends in `_`: the name of a mask that belongs to another image.
pub open spec fn is_mask_stem(stem: Seq<char>) -> bool {
    stem.len() > 0 && stem.last() == '_'
}

/// The action for a directory entry whose extension, in lower case, is
/// `lower`.
pub open spec fn entry_action_lowered(
    lower: Seq<char>,
    stem: Seq<char>,
    raw: bool,
    write: bool,
    output_exists: bool,
    force: bool,
) -> EntryAction {
    if !is_image_extension_lowered(lower) {
        EntryAction::Ignore
    } else if !raw && is_mask_stem(stem) {
        EntryAction::Ignore
    } else if write && output_exists && !force {
        EntryAction::KeepExisting
    } else {
        EntryAction::Convert
    }
}

/// The action for a directory entry with this extension and stem.
pub open spec fn entry_action(
    extension: Seq<char>,
    stem: Seq<char>,
    raw: bool,
    write: bool,
    output_exists: bool,
    force: bool,
) -> EntryAction {
    entry_action_lowered(lowercase_of(extension), stem, raw, write, output_exists, force)
}

/// Decides what a batch run does with a directory entry whose extension
/// has already been put in lower case.
pub fn plan_lowered_entry(
    lower: &str,
    stem: &str,
    raw: bool,
    write: bool,
    output_exists: bool,
    force: bool,
) -> (action: EntryAction)
    ensures
        action == entry_action_lowered(lower@, stem@, raw, write, output_exists, force),
{
    let lower = String::from_str(lower);
    if !(lower == String::from_str("rct") || lower == String::from_str("rc8")) {
        return EntryAction::Ignore;
    }
    let cs = chars_of(stem);
    if !raw && cs.len() > 0 && cs[cs.len() - 1] == '_' {
        return EntryAction::Ignore;
    }
    if write && output_exists && !force {
        EntryAction::KeepExisting
    } else {
        EntryAction::Convert
    }
}

/// Decides what a batch run does with one directory entry: only `.rct` and
/// `.rc8` files are taken up; mask files (stem ending in `_`) only when raw
/// pixels are asked for; when the run writes PNG files (`write`), an
/// existing output is kept unless overwriting is forced.
pub fn plan_batch_entry(
    extension: &str,
    stem: &str,
    raw: bool,
    write: bool,
    output_exists: bool,
    force: bool,
) -> (action: EntryAction)
    ensures
        action == entry_action(extension@, stem@, raw, write, output_exists, force),
        is_ascii_text(extension@) ==> action == entry_action_lowered(ascii_lowered(extension@), stem@, raw, write, output_exists, force),
{
    let lower = to_lowercase(extension);
    plan_lowered_entry(lower.as_str(), stem, raw, write, output_exists, force)
}

/// An extension spelt `rct` or `rc8` in any mix of ASCII cases names a
/// Majiro image: its ASCII lower-case form is `rct` or `rc8`.
pub proof fn extensions_in_any_case(extension: Seq<char>)
    requires
        extension.len() == 3,
        extension[0] == 'r' || extension[0] == 'R',
        extension[1] == 'c' || extension[1] == 'C',
        extension[2] == 't' || extension[2] == 'T' || extension[2] == '8',
    ensures
        is_ascii_text(extension),
        is_image_extension_lowered(ascii_lowered(extension)),
{
    reveal_strlit("rct");
    reveal_strlit("rc8");
    let lower = ascii_lowered(extension);
    if extension[2] == '8' {
        assert(lower =~= "rc8"@);
    } else {
        assert(lower =~= "rct"@);
    }
}

/// A directory entry whose extension is `rct` or `rc8` in any mix of ASCII
/// cases is converted, unless it is a mask file outside a raw run or an
/// output it would overwrite is kept.
pub proof fn upper_case_images_are_converted(
    extension: Seq<char>,
    stem: Seq<char>,
    raw: bool,
    write: bool,
    output_exists: bool,
    force: bool,
)
    requires
        extension.len() == 3,
        extension[0] == 'r' || extension[0] == 'R',
        extension[1] == 'c' || extension[1] == 'C',
        extension[2] == 't' || extension[2] == 'T' || extension[2] == '8',
        raw || !is_mask_stem(stem),
        !(write && output_exists && !force),
    ensures
        entry_action_lowered(ascii_lowered(extension), stem, raw, write, output_exists, force) == EntryAction::Convert,
{
    extensions_in_any_case(extension);
}

/// The running tally of a batch: images converted (or validated), entries
/// that failed, and the pixels of the converted images.
#[derive(Clone, Copy, Debug, PartialEq, Eq, Structural)]
pub struct BatchTally {
    pub converted: u64,
    pub errors: u64,
    pub total_pixels: u64,
}

impl BatchTally {
    /// An empty tally.
    pub fn new() -> (tally: BatchTally)
        ensures
            tally == (BatchTally { converted: 0, errors: 0, total_pixels: 0 }),
    {
        BatchTally { converted: 0, errors: 0, total_pixels: 0 }
    }

    /// Counts an entry that could not be read, decoded or written.
    pub fn record_failure(&mut self)
        requires
            old(self).errors < u64::MAX,
        ensures
            *final(self) == (BatchTally { errors: (old(self).errors + 1) as u64, ..*old(self) }),
    {
        self.errors = self.errors + 1;
    }

    /// Counts an image of `width` by `height` pixels that was converted.
    pub fn record_image(&mut self, width: u32, height: u32)
        requires
            old(self).converted < u64::MAX,
            old(self).total_pixels + width * height <= u64::MAX,
        ensures
            *final(self) == (BatchTally {
                converted: (old(self).converted + 1) as u64,
                total_pixels: (old(self).total_pixels + width * height) as u64,
                ..*old(self)
            }),
    {
        let pixels = pixel_total(width, height);
        self.converted = self.converted + 1;
        self.total_pixels = self.total_pixels + pixels;
    }

    /// The result of the run: a validation run fails, with the number of
    /// failed entries, when any entry failed; a conversion run succeeds.
    pub fn outcome(&self, check: bool) -> (res: Result<(), u64>)
        ensures
            res is Err <==> check && self.errors > 0,
            res matches Err(n) ==> n == self.errors,
    {
        if check && self.errors > 0 {
            Err(self.errors)
        } else {
            Ok(())
        }
    }
}

} // verus!
