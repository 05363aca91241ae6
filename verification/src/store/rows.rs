//! The rows the store answers with.

use std::sync::Arc;
use vstd::prelude::*;

verus! {

/// A tag on a row.
#[derive(Debug, Clone, PartialEq, Eq)]
pub struct ThreadRowTag {
    /// Carried so a row can be untagged without consulting the rail's list.
    pub id: i64,
    pub name: String,
    pub colour: String,
}

/// One conversation as the message list shows it: the newest message's
/// details, plus how many messages it stands for.
#[derive(Debug, Clone, PartialEq, Eq)]
pub struct ThreadListing {
    pub thread_id: i64,
    /// Newest message in the conversation: what the row displays.
    pub id: i64,
    pub from_display: String,
    pub from_addr: String,
    pub subject: String,
    pub snippet: String,
    pub date_ms: i64,
    pub message_count: i64,
    pub participants: String,
    /// Thread-level rollups: a conversation is unread if *any* message in it
    /// is, which is what makes a reply to a read thread pull it back to
    /// attention.
    pub unread: bool,
    pub starred: bool,
    pub has_attachments: bool,
    /// Every tag on any message in the conversation, deduplicated.
    pub tags: Vec<ThreadRowTag>,
    /// Why this row matched, when it came from a search: the text around the
    /// hit, with the matched words marked.
    pub match_snippet: Option<String>,
    /// First attachment filename, for the row chip; the reader lists them all.
    pub attachment_name: Option<String>,
}

/// A list-ready row shared by recents and search results.
#[derive(Debug, Clone, PartialEq, Eq)]
pub struct Listing {
    pub id: i64,
    pub from_display: String,
    pub from_addr: String,
    pub subject: String,
    pub snippet: String,
    pub date_ms: i64,
}

/// Where an account's mail comes from and goes through. Never a password: that
/// is kept by the operating system.
#[derive(Debug, Clone, PartialEq, Eq)]
pub struct AccountServers {
    pub imap_host: String,
    pub imap_port: u16,
    pub smtp_host: String,
    pub smtp_port: u16,
    /// The sign-in name, which is usually the address but not always.
    pub username: String,
    /// What the account was set up as.
    pub provider: String,
}

/// A folder that serves a purpose.
#[derive(Debug, Clone, PartialEq, Eq)]
pub struct FolderMapping {
    /// Archive, sent, drafts, spam, trash.
    pub role: String,
    pub path: String,
}

/// An account as the settings show it.
#[derive(Debug, Clone, PartialEq, Eq)]
pub struct AccountSummary {
    pub id: i64,
    pub kind: String,
    pub email: String,
    pub display_name: String,
    pub color: String,
    /// True when deletions on the server do not remove local content.
    pub local_archive: bool,
    pub message_count: i64,
    pub unread_count: i64,
    /// The newest message held.
    pub newest_ms: Option<i64>,
    pub folders: Vec<FolderMapping>,
    /// Whether this is the one the window shows.
    pub active: bool,
}

#[derive(Debug, Clone, PartialEq, Eq)]
pub struct Attachment {
    pub filename: String,
    pub size: i64,
    /// Which part of the message this is, for fetching its bytes on demand.
    pub part: i64,
    /// The declared type, which decides whether it can be previewed in place.
    pub mime: String,
}

/// One message of a conversation, enough to draw a collapsed card. Recipients,
/// attachments and the body stay off this row, so that a conversation of
/// twenty thousand messages is one question.
#[derive(Debug, Clone, PartialEq, Eq)]
pub struct ThreadIndexRow {
    pub id: i64,
    pub from_display: String,
    pub from_addr: String,
    pub snippet: String,
    pub date_ms: i64,
    pub unread: bool,
}

/// One message of a conversation, as the reading pane shows it.
#[derive(Debug, Clone, PartialEq, Eq)]
pub struct ThreadMessage {
    pub id: i64,
    pub from_display: String,
    pub from_addr: String,
    pub subject: String,
    pub snippet: String,
    pub date_ms: i64,
    pub unread: bool,
    pub to: Vec<String>,
    pub cc: Vec<String>,
    /// Display names, To then Cc.
    pub recipients: Vec<String>,
    /// The same people as addresses.
    pub recipient_addrs: Vec<String>,
    pub attachments: Vec<Attachment>,
    /// A calendar part is aboard: only then is the invitation asked for.
    pub has_calendar: bool,
    /// What was answered to an invitation, if anything was.
    pub invite_response: Option<String>,
    /// What a reply names as the message it answers.
    pub msgid: Option<String>,
    pub references: Vec<String>,
}

#[derive(Debug, Clone, PartialEq, Eq)]
pub struct TagSummary {
    pub id: i64,
    pub name: String,
    pub colour: String,
    pub thread_count: i64,
}

/// One message's worth of work waiting to reach the server.
#[derive(Debug, Clone)]
pub struct PendingAction {
    pub action_id: i64,
    pub kind_json: String,
    /// Shared by the messages of one action: a copy for each of twenty
    /// thousand messages would not fit.
    pub payload_json: Arc<String>,
    pub message_id: i64,
    /// Absent when the message was never placed in a folder.
    pub uid: Option<u32>,
    pub folder_path: String,
    /// The Message-ID, where there is one: the address of last resort.
    pub msgid: Option<String>,
    /// The folders worth asking for the number, best guess first.
    pub candidate_paths: Vec<String>,
}

/// What threads a reply into its conversation, and what is attached.
#[derive(Debug, Clone, PartialEq, Eq)]
pub struct DraftEnvelope {
    pub in_reply_to: Option<String>,
    pub references: Vec<String>,
    /// Paths on this machine. The file is read when the draft goes.
    pub attachments: Vec<String>,
}

impl Default for DraftEnvelope {
    /// The envelope of a draft that answers nothing and carries nothing.
    fn default() -> (e: DraftEnvelope)
        ensures
            e.in_reply_to is None,
            e.references@.len() == 0,
            e.attachments@.len() == 0,
    {
        DraftEnvelope { in_reply_to: None, references: Vec::new(), attachments: Vec::new() }
    }
}

#[derive(Debug, Clone, PartialEq, Eq)]
pub struct DraftRecord {
    pub id: i64,
    pub to: String,
    pub cc: String,
    pub subject: String,
    /// Plain text: the snippet, the search index, and the text half of the
    /// message that goes out.
    pub body: String,
    /// The rich-text half, empty for a draft that has none.
    pub html: String,
    pub envelope: DraftEnvelope,
}

/// Who a message is sent as.
#[derive(Debug, Clone, PartialEq, Eq)]
pub struct Identity {
    pub address: String,
    pub display_name: String,
    pub signature: String,
    pub signature_on_reply: bool,
}

/// An account's share of what is stored. A message two accounts hold is in
/// both figures: each says how much of this is mine.
#[derive(Debug, Clone, PartialEq, Eq)]
pub struct AccountStorage {
    pub account_id: i64,
    pub messages: i64,
    pub blob_bytes: u64,
}

/// How much is stored.
#[derive(Debug, Clone, PartialEq, Eq)]
pub struct StorageReport {
    pub messages: i64,
    pub attachments: i64,
    /// The database file and its log.
    pub database_bytes: u64,
    pub blob_bytes: u64,
    /// The part that can be built again.
    pub index_bytes: u64,
    pub accounts: Vec<AccountStorage>,
}

/// A folder as the move picker shows it.
#[derive(Debug, Clone, PartialEq, Eq)]
pub struct FolderSummary {
    pub id: i64,
    /// Empty for folders the user made; otherwise archive, sent, trash and so on.
    pub role: String,
    pub path: String,
}

/// One message in the outbox, as the view shows it.
#[derive(Debug, Clone, PartialEq, Eq)]
pub struct OutboxRow {
    pub id: i64,
    pub subject: String,
    pub to: String,
    pub send_after_ms: i64,
    /// A send state, by name.
    pub state: String,
    pub error: Option<String>,
    pub attempts: i64,
    pub next_ms: Option<i64>,
    pub attachments: i64,
}

} // verus!
