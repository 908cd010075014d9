//! The JSON-lines protocol of the command line tool: its events.
use vstd::prelude::*;

verus! {

/// One event that the command line tool reports.
#[derive(Debug, Clone, PartialEq, Eq)]
pub enum CliEvent {
    CompileSuccess { compile_success: bool },
    ExportComplete { export_complete: bool },
    Issues { issues: Vec<String> },
    Text { text: String },
    Tags { tags: Vec<String> },
    Choices { choices: Vec<ChoiceItem> },
}

/// One choice offered to the reader, with its tags and their number (none
/// when there are no tags).
#[derive(Debug, Clone, PartialEq, Eq)]
pub struct ChoiceItem {
    pub text: String,
    pub tags: Vec<String>,
    pub tag_count: Option<usize>,
}

impl ChoiceItem {
    /// A choice with its tags; the tag count is none when there are no tags.
    pub fn new(text: String, tags: Vec<String>) -> (r: Self)
        ensures
            r.text == text,
            r.tags == tags,
            r.tag_count == (if tags@.len() == 0 {
                None
            } else {
                Some(tags@.len() as usize)
            }),
    {
        let tag_count = if tags.len() == 0 {
            None
        } else {
            Some(tags.len())
        };
        ChoiceItem { text, tags, tag_count }
    }
}

} // verus!
