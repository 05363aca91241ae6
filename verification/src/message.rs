//! A message, once the parser has been through it.

use vstd::prelude::*;

verus! {

/// What a message carries beside its text.
#[derive(Debug, Clone, PartialEq, Eq)]
pub struct ParsedAttachment {
    pub filename: Option<String>,
    pub content_type: String,
    pub size: u64,
}

/// One address on a message, and what it is there for: from, to, cc, bcc.
#[derive(Debug, Clone, PartialEq, Eq)]
pub struct AddressLine {
    pub role: String,
    pub addr: String,
    pub name: Option<String>,
}

/// The parts of a message that anything here reads.
#[derive(Debug, Clone, PartialEq, Eq)]
pub struct ParsedMessage {
    pub message_id: Option<String>,
    pub references: Vec<String>,
    pub from_display: Option<String>,
    pub from_addr: Option<String>,
    pub to: Vec<(Option<String>, String)>,
    pub cc: Vec<(Option<String>, String)>,
    pub subject: Option<String>,
    pub list_id: Option<String>,
    pub date_ms: Option<i64>,
    /// The plain part, or the HTML part with its tags taken off.
    pub index_text: String,
    /// Every header: the name in lower case, the value as written.
    pub headers: Vec<(String, String)>,
    pub attachments: Vec<ParsedAttachment>,
    pub addresses: Vec<AddressLine>,
}

/// The text of something that may not be there.
pub open spec fn or_empty(s: Option<String>) -> Seq<char> {
    match s {
        Some(t) => t@,
        None => Seq::empty(),
    }
}

} // verus!
