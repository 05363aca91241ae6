//! Triage actions: the writing half of the client.
//!
//! An action is applied here first and queued for the server second. What is
//! here can so be ahead of the server, and each queued action carries the
//! state it replaced: undoing restores what was, rather than inferring an
//! inverse.

use vstd::prelude::*;

verus! {

#[derive(Debug, Clone, Copy, PartialEq, Eq, Structural)]
pub enum ActionKind {
    Archive,
    Trash,
    Spam,
    Star,
    Unstar,
    MarkRead,
    MarkUnread,
    /// To a folder somebody named. Which one rides alongside as a target.
    Move,
    Tag,
    Untag,
    /// Out of sight until a moment, which rides alongside as the target.
    Snooze,
    Unsnooze,
    /// Out of every folder for good. There is no way back from this one.
    DeleteForever,
}

/// The folder an action files under, if it files at all.
pub open spec fn filed_under(kind: ActionKind) -> Option<Seq<char>> {
    match kind {
        ActionKind::Archive => Some("archive"@),
        ActionKind::Trash => Some("trash"@),
        ActionKind::Spam => Some("spam"@),
        _ => None,
    }
}

/// What an action is called once it has happened.
pub open spec fn said_after(kind: ActionKind) -> Seq<char> {
    match kind {
        ActionKind::Archive => "Archived"@,
        ActionKind::Trash => "Moved to Trash"@,
        ActionKind::Spam => "Reported as spam"@,
        ActionKind::Star => "Starred"@,
        ActionKind::Unstar => "Unstarred"@,
        ActionKind::MarkRead => "Marked read"@,
        ActionKind::MarkUnread => "Marked unread"@,
        ActionKind::Move => "Moved"@,
        ActionKind::Tag => "Tagged"@,
        ActionKind::Untag => "Untagged"@,
        ActionKind::Snooze => "Snoozed"@,
        ActionKind::Unsnooze => "Unsnoozed"@,
        ActionKind::DeleteForever => "Deleted forever"@,
    }
}

pub open spec fn names_a_target(kind: ActionKind) -> bool {
    kind == ActionKind::Move || kind == ActionKind::Tag || kind == ActionKind::Untag || kind
        == ActionKind::Snooze
}

/// Whether an action files a message somewhere else.
pub open spec fn moves(kind: ActionKind) -> bool {
    kind == ActionKind::Archive || kind == ActionKind::Trash || kind == ActionKind::Spam || kind
        == ActionKind::Move
}

/// Whether an action is nobody's business but this machine's.
pub open spec fn stays_here(kind: ActionKind) -> bool {
    kind == ActionKind::Snooze || kind == ActionKind::Unsnooze
}

/// What an action is called where nobody but a programmer reads it.
pub open spec fn plain_name(kind: ActionKind) -> Seq<char> {
    match kind {
        ActionKind::Archive => "Archive"@,
        ActionKind::Trash => "Trash"@,
        ActionKind::Spam => "Spam"@,
        ActionKind::Star => "Star"@,
        ActionKind::Unstar => "Unstar"@,
        ActionKind::MarkRead => "MarkRead"@,
        ActionKind::MarkUnread => "MarkUnread"@,
        ActionKind::Move => "Move"@,
        ActionKind::Tag => "Tag"@,
        ActionKind::Untag => "Untag"@,
        ActionKind::Snooze => "Snooze"@,
        ActionKind::Unsnooze => "Unsnooze"@,
        ActionKind::DeleteForever => "DeleteForever"@,
    }
}

impl ActionKind {
    /// The role of the folder a message lands in, if this action moves it to
    /// one of the folders that have a role.
    pub fn destination_role(self) -> (role: Option<&'static str>)
        ensures
            match role {
                Some(r) => filed_under(self) == Some(r@),
                None => filed_under(self) is None,
            },
    {
        match self {
            ActionKind::Archive => Some("archive"),
            ActionKind::Trash => Some("trash"),
            ActionKind::Spam => Some("spam"),
            _ => None,
        }
    }

    /// Whether this action means nothing without a target: a folder for a
    /// move, a tag for tagging.
    pub fn needs_target(self) -> (r: bool)
        ensures
            r == names_a_target(self),
    {
        matches!(
            self,
            ActionKind::Move | ActionKind::Tag | ActionKind::Untag | ActionKind::Snooze
        )
    }

    /// Whether this action takes a message out of where it is.
    pub fn is_a_move(self) -> (r: bool)
        ensures
            r == moves(self),
    {
        matches!(
            self,
            ActionKind::Archive | ActionKind::Trash | ActionKind::Spam | ActionKind::Move
        )
    }

    /// Whether this action never goes to a server.
    pub fn is_local_only(self) -> (r: bool)
        ensures
            r == stays_here(self),
    {
        matches!(self, ActionKind::Snooze | ActionKind::Unsnooze)
    }

    /// Whether this action can be taken back. A permanent deletion is
    /// confirmed first instead.
    pub fn is_undoable(self) -> (r: bool)
        ensures
            r == (self != ActionKind::DeleteForever),
    {
        !matches!(self, ActionKind::DeleteForever)
    }

    /// The name of the variant.
    pub fn name(self) -> (name: &'static str)
        ensures
            name@ == plain_name(self),
    {
        match self {
            ActionKind::Archive => "Archive",
            ActionKind::Trash => "Trash",
            ActionKind::Spam => "Spam",
            ActionKind::Star => "Star",
            ActionKind::Unstar => "Unstar",
            ActionKind::MarkRead => "MarkRead",
            ActionKind::MarkUnread => "MarkUnread",
            ActionKind::Move => "Move",
            ActionKind::Tag => "Tag",
            ActionKind::Untag => "Untag",
            ActionKind::Snooze => "Snooze",
            ActionKind::Unsnooze => "Unsnooze",
            ActionKind::DeleteForever => "DeleteForever",
        }
    }

    /// What is said after it happens. Past tense, because it already has.
    pub fn past_tense(self) -> (said: &'static str)
        ensures
            said@ == said_after(self),
    {
        match self {
            ActionKind::Archive => "Archived",
            ActionKind::Trash => "Moved to Trash",
            ActionKind::Spam => "Reported as spam",
            ActionKind::Star => "Starred",
            ActionKind::Unstar => "Unstarred",
            ActionKind::MarkRead => "Marked read",
            ActionKind::MarkUnread => "Marked unread",
            ActionKind::Move => "Moved",
            ActionKind::Tag => "Tagged",
            ActionKind::Untag => "Untagged",
            ActionKind::Snooze => "Snoozed",
            ActionKind::Unsnooze => "Unsnoozed",
            ActionKind::DeleteForever => "Deleted forever",
        }
    }
}

/// How a provider models where a message is: in one folder, or under any
/// number of labels.
#[derive(Debug, Clone, Copy, PartialEq, Eq, Structural)]
pub enum PlacementPolicy {
    Exclusive,
    Labels,
}

impl PlacementPolicy {
    /// The policy of a kind of account. One that is not known gets the
    /// exclusive model: guessing labels for a server that has none would
    /// leave messages in two folders that can hold them in one.
    pub fn of_account_kind(kind: &str) -> (policy: Self)
        ensures
            policy == (if kind@ == "gmail"@ {
                PlacementPolicy::Labels
            } else {
                PlacementPolicy::Exclusive
            }),
    {
        if crate::text::same(kind, "gmail") {
            PlacementPolicy::Labels
        } else {
            PlacementPolicy::Exclusive
        }
    }

    /// Whether archiving takes a message out of every folder, or only out of
    /// the inbox.
    pub fn archive_clears_everything(self) -> (r: bool)
        ensures
            r == (self == PlacementPolicy::Exclusive),
    {
        matches!(self, PlacementPolicy::Exclusive)
    }
}

/// One message's state before an action touched it: enough to put it back
/// exactly.
#[derive(Debug, Clone, PartialEq, Eq)]
pub struct PriorState {
    pub message_id: i64,
    pub flags: i64,
    pub folder_ids: Vec<i64>,
    /// Undoing a tag puts back what was there, rather than removing what the
    /// action added: those differ the moment the tag was there already.
    pub tag_ids: Vec<i64>,
    /// Where the message can be addressed on the server.
    pub source_path: Option<String>,
    pub source_uid: Option<u32>,
    pub source_folder: Option<i64>,
    pub snoozed_until: Option<i64>,
}

/// A prior state, as a value.
#[verifier::ext_equal]
pub struct Prior {
    pub message_id: i64,
    pub flags: i64,
    pub folder_ids: Seq<i64>,
    pub tag_ids: Seq<i64>,
    pub source_path: Option<Seq<char>>,
    pub source_uid: Option<u32>,
    pub source_folder: Option<i64>,
    pub snoozed_until: Option<i64>,
}

pub open spec fn text_in(s: Option<String>) -> Option<Seq<char>> {
    match s {
        Some(t) => Some(t@),
        None => None,
    }
}

impl View for PriorState {
    type V = Prior;

    open spec fn view(&self) -> Prior {
        Prior {
            message_id: self.message_id,
            flags: self.flags,
            folder_ids: self.folder_ids@,
            tag_ids: self.tag_ids@,
            source_path: text_in(self.source_path),
            source_uid: self.source_uid,
            source_folder: self.source_folder,
            snoozed_until: self.snoozed_until,
        }
    }
}

pub open spec fn priors(states: Seq<PriorState>) -> Seq<Prior> {
    states.map_values(|p: PriorState| p@)
}

/// The queued action, and the state it replaced.
#[derive(Debug, Clone, PartialEq, Eq)]
pub struct ActionPayload {
    pub kind: ActionKind,
    pub thread_id: i64,
    /// The folder, tag or moment this action names, for the kinds that do.
    pub target: Option<i64>,
    pub prior: Vec<PriorState>,
}

/// Handed back so that an action can be undone without remembering anything.
#[derive(Debug, Clone, PartialEq, Eq)]
pub struct ActionReceipt {
    pub action_id: i64,
    pub kind: ActionKind,
    pub message_count: usize,
    /// Past tense already: the change has happened by the time this is read.
    pub description: String,
}

impl ActionReceipt {
    pub fn new(action_id: i64, kind: ActionKind, message_count: usize) -> (r: Self)
        ensures
            r.action_id == action_id,
            r.kind == kind,
            r.message_count == message_count,
            r.description@ == said_after(kind),
    {
        ActionReceipt {
            action_id,
            kind,
            message_count,
            description: crate::text::string_of(&crate::text::chars_of(kind.past_tense())),
        }
    }
}

/// An action that files a message under a folder with a role takes it out of
/// where it is, and so does one that names the folder. Nothing else moves
/// anything, what moves anything is told to the server, and what is put under
/// no folder has no role to go by.
pub proof fn what_is_filed_is_moved(kind: ActionKind)
    ensures
        moves(kind) == (filed_under(kind) is Some || kind == ActionKind::Move),
        moves(kind) ==> !stays_here(kind),
        filed_under(kind) is Some ==> !names_a_target(kind),
        filed_under(kind) == Some("archive"@) ==> kind == ActionKind::Archive,
        filed_under(kind) == Some("trash"@) ==> kind == ActionKind::Trash,
        filed_under(kind) == Some("spam"@) ==> kind == ActionKind::Spam,
        filed_under(ActionKind::Archive) == Some("archive"@),
        filed_under(ActionKind::Trash) == Some("trash"@),
        filed_under(ActionKind::Spam) == Some("spam"@),
        kind == ActionKind::DeleteForever ==> !moves(kind) && !names_a_target(kind),
{
    reveal_strlit("archive");
    reveal_strlit("trash");
    reveal_strlit("spam");
    assert("archive"@.len() == 7 && "trash"@.len() == 5 && "spam"@.len() == 4);
}

/// What is put on a message names what is put on it, and so does what takes a
/// tag off; what only turns a flag names nothing.
pub proof fn a_target_is_named_where_there_is_a_choice(kind: ActionKind)
    ensures
        kind == ActionKind::Move || kind == ActionKind::Tag || kind == ActionKind::Untag
            ==> names_a_target(kind) && !stays_here(kind),
        kind == ActionKind::Star || kind == ActionKind::Unstar || kind == ActionKind::MarkRead
            || kind == ActionKind::MarkUnread ==> !names_a_target(kind) && !moves(kind)
            && !stays_here(kind),
        kind == ActionKind::Snooze ==> names_a_target(kind) && stays_here(kind),
        kind == ActionKind::Unsnooze ==> !names_a_target(kind) && stays_here(kind),
{
}

/// Every action is told by what it did, and goes by its own name where only a
/// programmer reads it.
pub proof fn an_action_is_told_by_what_it_did(kind: ActionKind)
    ensures
        kind == ActionKind::Archive ==> said_after(kind) == "Archived"@,
        kind == ActionKind::Trash ==> said_after(kind) == "Moved to Trash"@,
        kind == ActionKind::Spam ==> said_after(kind) == "Reported as spam"@,
        kind == ActionKind::Star ==> said_after(kind) == "Starred"@,
        kind == ActionKind::Unstar ==> said_after(kind) == "Unstarred"@,
        kind == ActionKind::MarkRead ==> said_after(kind) == "Marked read"@,
        kind == ActionKind::MarkUnread ==> said_after(kind) == "Marked unread"@,
        kind == ActionKind::Move ==> said_after(kind) == "Moved"@,
        kind == ActionKind::Tag ==> said_after(kind) == "Tagged"@,
        kind == ActionKind::Untag ==> said_after(kind) == "Untagged"@,
        kind == ActionKind::Snooze ==> said_after(kind) == "Snoozed"@,
        kind == ActionKind::Unsnooze ==> said_after(kind) == "Unsnoozed"@,
        kind == ActionKind::DeleteForever ==> said_after(kind) == "Deleted forever"@,
        kind == ActionKind::Archive ==> plain_name(kind) == "Archive"@,
        kind == ActionKind::Trash ==> plain_name(kind) == "Trash"@,
        kind == ActionKind::Spam ==> plain_name(kind) == "Spam"@,
        kind == ActionKind::Star ==> plain_name(kind) == "Star"@,
        kind == ActionKind::Unstar ==> plain_name(kind) == "Unstar"@,
        kind == ActionKind::MarkRead ==> plain_name(kind) == "MarkRead"@,
        kind == ActionKind::MarkUnread ==> plain_name(kind) == "MarkUnread"@,
        kind == ActionKind::Move ==> plain_name(kind) == "Move"@,
        kind == ActionKind::Tag ==> plain_name(kind) == "Tag"@,
        kind == ActionKind::Untag ==> plain_name(kind) == "Untag"@,
        kind == ActionKind::Snooze ==> plain_name(kind) == "Snooze"@,
        kind == ActionKind::Unsnooze ==> plain_name(kind) == "Unsnooze"@,
        kind == ActionKind::DeleteForever ==> plain_name(kind) == "DeleteForever"@,
{
}

} // verus!
