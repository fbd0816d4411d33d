//! The file-type classifier: a tool outside this library that describes a
//! byte sequence in a line of text. This module decides when it is asked and
//! what its answer is worth.

use vstd::prelude::*;
use crate::result::{opt_view, DetectResult, DetectResultView};
use crate::text::{has_prefix, lossy_text, str_chars, text_of, trim_string, trimmed};

verus! {

/// Smallest input that the classifier is asked about.
pub const MIN_DATA_SIZE: usize = 5;

/// The classifier, switched on.
pub struct FileCmd {
    enabled: bool,
}

/// A description that says nothing of interest: it starts with one of a
/// fixed list of phrases.
pub open spec fn is_ignored(desc: Seq<char>) -> bool {
    ||| "data"@.is_prefix_of(desc)
    ||| "empty"@.is_prefix_of(desc)
    ||| "Sendmail frozen configuration"@.is_prefix_of(desc)
    ||| "DBase 3 data file"@.is_prefix_of(desc)
    ||| "DOS executable"@.is_prefix_of(desc)
    ||| "Dyalog APL"@.is_prefix_of(desc)
    ||| "8086 relocatable"@.is_prefix_of(desc)
    ||| "SysEx File"@.is_prefix_of(desc)
    ||| "COM executable"@.is_prefix_of(desc)
    ||| "Non-ISO extended-ASCII text"@.is_prefix_of(desc)
    ||| "ISO-8859 text"@.is_prefix_of(desc)
    ||| "very short file"@.is_prefix_of(desc)
    ||| "International EBCDIC text"@.is_prefix_of(desc)
    ||| "lif file"@.is_prefix_of(desc)
    ||| "AmigaOS bitmap font"@.is_prefix_of(desc)
    ||| "a python script text executable"@.is_prefix_of(desc)
}

/// The description that the tool's output holds: the output as text, without
/// the white space at its ends.
pub open spec fn description(output: Seq<u8>) -> Seq<char> {
    trimmed(lossy_text(output))
}

/// What a description is worth: nothing if it is empty or ignored.
pub open spec fn spec_judge(desc: Seq<char>) -> Option<DetectResultView> {
    if desc.len() > 0 && !is_ignored(desc) {
        Some(DetectResultView::FileType(desc))
    } else {
        None
    }
}

/// What the classifier's answer is worth. `output` is what the tool wrote,
/// if it ran and ended well. There is no finding for input shorter than five
/// bytes, without output, for an empty description or for one that is
/// ignored.
pub open spec fn spec_file_result(
    enabled: bool,
    data: Seq<u8>,
    output: Option<Seq<u8>>,
) -> Option<DetectResultView> {
    match output {
        Some(out) => if enabled && data.len() >= MIN_DATA_SIZE {
            spec_judge(description(out))
        } else {
            None
        },
        None => None,
    }
}

/// The view of an optional byte slice.
pub open spec fn opt_slice(s: Option<&[u8]>) -> Option<Seq<u8>> {
    match s {
        Some(b) => Some(b@),
        None => None,
    }
}

fn ignored(desc: &Vec<char>) -> (r: bool)
    ensures
        r == is_ignored(desc@),
{
    has_prefix(desc, "data") || has_prefix(desc, "empty") || has_prefix(
        desc,
        "Sendmail frozen configuration",
    ) || has_prefix(desc, "DBase 3 data file") || has_prefix(desc, "DOS executable")
        || has_prefix(desc, "Dyalog APL") || has_prefix(desc, "8086 relocatable") || has_prefix(
        desc,
        "SysEx File",
    ) || has_prefix(desc, "COM executable") || has_prefix(desc, "Non-ISO extended-ASCII text")
        || has_prefix(desc, "ISO-8859 text") || has_prefix(desc, "very short file")
        || has_prefix(desc, "International EBCDIC text") || has_prefix(desc, "lif file")
        || has_prefix(desc, "AmigaOS bitmap font") || has_prefix(
        desc,
        "a python script text executable",
    )
}

impl FileCmd {
    /// Whether the classifier is switched on.
    pub closed spec fn is_enabled(&self) -> bool {
        self.enabled
    }

    /// The classifier if it is enabled, nothing if not.
    pub fn new(enabled: bool) -> (r: Option<Self>)
        ensures
            r is Some <==> enabled,
            r matches Some(f) ==> f.is_enabled(),
    {
        if enabled {
            Some(FileCmd { enabled })
        } else {
            None
        }
    }

    /// Whether the tool is to be run on `data`.
    pub fn wants(&self, data: &[u8]) -> (r: bool)
        ensures
            r == (self.is_enabled() && data@.len() >= MIN_DATA_SIZE),
    {
        self.enabled && data.len() >= MIN_DATA_SIZE
    }

    /// Judges a description: a finding unless it is empty or says nothing
    /// of interest.
    pub fn judge(desc: String) -> (r: Option<DetectResult>)
        ensures
            opt_view(r) == spec_judge(desc@),
    {
        let chars = str_chars(desc.as_str());
        if chars.len() == 0 || ignored(&chars) {
            None
        } else {
            Some(DetectResult::FileType(desc))
        }
    }

    /// Turns the tool's output on `data` into a finding. `output` is what
    /// the tool wrote, or `None` if it could not be run or failed.
    pub fn data2result(&self, data: &[u8], output: Option<&[u8]>) -> (r: Option<DetectResult>)
        ensures
            opt_view(r) == spec_file_result(self.is_enabled(), data@, opt_slice(output)),
    {
        if !self.enabled || data.len() < MIN_DATA_SIZE {
            return None;
        }
        match output {
            Some(out) => {
                let text = text_of(out);
                FileCmd::judge(trim_string(text.as_str()))
            },
            None => None,
        }
    }
}

} // verus!
