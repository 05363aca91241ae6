//! Triage: what an action does to a conversation, what it replaces, and how
//! it is taken back.
//!
//! The database is read into a snapshot, the decisions are made here, and
//! what they come to is written back. An action is applied at once and queued
//! for the server after, so each carries the state it replaced.

pub mod delivery;
pub mod labels;
pub mod laws;
pub mod tags;
pub mod undo;

use super::error::{is_rejected, rejected, StoreError};
use super::views::{FLAGGED, SEEN};
use crate::actions::{
    filed_under, names_a_target, plain_name, priors, ActionKind, PlacementPolicy, Prior, PriorState,
};
use crate::text::{chars_of, same, string_of};
use vstd::prelude::*;

verus! {

// ---------------------------------------------------------------------
// The conversation as it stands
// ---------------------------------------------------------------------
/// One folder a message is in.
#[derive(Debug, Clone, PartialEq, Eq)]
pub struct Place {
    pub folder: i64,
    pub path: String,
    /// None for a folder somebody made.
    pub role: Option<String>,
    /// The number the server knows the message by there, if it is known.
    pub uid: Option<i64>,
}

/// One message of a conversation.
#[derive(Debug, Clone, PartialEq, Eq)]
pub struct Member {
    pub id: i64,
    pub flags: i64,
    pub snoozed_until: Option<i64>,
    pub places: Vec<Place>,
    pub tags: Vec<i64>,
}

#[verifier::ext_equal]
pub struct Spot {
    pub folder: i64,
    pub path: Seq<char>,
    pub role: Option<Seq<char>>,
    pub uid: Option<i64>,
}

#[verifier::ext_equal]
pub struct Mail {
    pub id: i64,
    pub flags: i64,
    pub snoozed_until: Option<i64>,
    pub spots: Seq<Spot>,
    pub tags: Seq<i64>,
}

impl View for Place {
    type V = Spot;

    open spec fn view(&self) -> Spot {
        Spot {
            folder: self.folder,
            path: self.path@,
            role: match self.role {
                Some(role) => Some(role@),
                None => None,
            },
            uid: self.uid,
        }
    }
}

impl View for Member {
    type V = Mail;

    open spec fn view(&self) -> Mail {
        Mail {
            id: self.id,
            flags: self.flags,
            snoozed_until: self.snoozed_until,
            spots: self.places@.map_values(|p: Place| p@),
            tags: self.tags@,
        }
    }
}

pub open spec fn mails(members: Seq<Member>) -> Seq<Mail> {
    members.map_values(|m: Member| m@)
}

// ---------------------------------------------------------------------
// What is refused
// ---------------------------------------------------------------------
/// Whether a target names a folder or a tag, which an account has or has not.
pub open spec fn names_a_row(kind: ActionKind) -> bool {
    kind == ActionKind::Move || kind == ActionKind::Tag || kind == ActionKind::Untag
}

pub open spec fn is_refused(kind: ActionKind, target: Option<i64>, owned: bool) -> bool {
    (names_a_target(kind) && target is None) || (names_a_row(kind) && target is Some && !owned)
}

/// Why an action cannot be performed, if it cannot. A move with no
/// destination is a mistake of whoever asked, and inventing one would file
/// mail where nobody meant it; a folder or tag this account does not have
/// would strand the message, or file it next door. Asked before anything is
/// touched.
pub fn refusal(kind: ActionKind, target: Option<i64>, owned: bool) -> (r: Option<StoreError>)
    ensures
        match r {
            Some(e) => is_refused(kind, target, owned) && is_rejected(
                e,
                plain_name(kind) + if target is None {
                    " needs a target folder or tag"@
                } else {
                    " names a folder or tag this account does not have"@
                },
            ),
            None => !is_refused(kind, target, owned),
        },
{
    match target {
        None => if kind.needs_target() {
            Some(rejected(kind.name(), " needs a target folder or tag"))
        } else {
            None
        },
        Some(_) => match kind {
            ActionKind::Move | ActionKind::Tag | ActionKind::Untag => if owned {
                None
            } else {
                Some(rejected(kind.name(), " names a folder or tag this account does not have"))
            },
            // A snooze's target is a moment, not a row.
            _ => None,
        },
    }
}

// ---------------------------------------------------------------------
// What is touched
// ---------------------------------------------------------------------
pub open spec fn is_in(mail: Mail, role: Seq<char>) -> bool {
    exists|i: int| 0 <= i < mail.spots.len() && (#[trigger] mail.spots[i]).role == Some(
        role,
    )
}

/// Whether an action leaves a message where it is. Archiving and moving do
/// not take somebody's own replies out of Sent, or a message out of the bin.
/// Where folders are labels, archiving is one label coming off, so there it
/// is for exactly what is in the inbox.
pub open spec fn stays_put(kind: ActionKind, policy: PlacementPolicy, mail: Mail) -> bool {
    if kind == ActionKind::Archive && policy == PlacementPolicy::Labels {
        is_in(mail, "drafts"@) || is_in(mail, "trash"@) || is_in(mail, "spam"@) || !is_in(
            mail,
            "inbox"@,
        )
    } else if kind == ActionKind::Archive || kind == ActionKind::Move {
        is_in(mail, "sent"@) || is_in(mail, "drafts"@) || is_in(mail, "trash"@) || is_in(
            mail,
            "spam"@,
        )
    } else {
        false
    }
}

/// Whether an action is about a message: reading is about what is unread, and
/// the other way round.
pub open spec fn is_about(kind: ActionKind, flags: i64) -> bool {
    if kind == ActionKind::MarkRead {
        flags & SEEN == 0
    } else if kind == ActionKind::MarkUnread {
        flags & SEEN != 0
    } else {
        true
    }
}

pub open spec fn is_touched(kind: ActionKind, policy: PlacementPolicy, mail: Mail) -> bool {
    is_about(kind, mail.flags) && !stays_put(kind, policy, mail)
}

fn has_role(place: &Place, role: &str) -> (r: bool)
    ensures
        r == (place@.role == Some(role@)),
{
    match &place.role {
        Some(own) => same(own, role),
        None => false,
    }
}

fn member_is_in(member: &Member, role: &str) -> (r: bool)
    ensures
        r == is_in(member@, role@),
{
    let mut i: usize = 0;
    while i < member.places.len()
        invariant
            i <= member.places@.len(),
            forall|j: int| 0 <= j < i ==> (#[trigger] member@.spots[j]).role != Some(role@),
        decreases member.places@.len() - i,
    {
        assert(member@.spots[i as int] == member.places@[i as int]@);
        if has_role(&member.places[i], role) {
            return true;
        }
        i += 1;
    }
    false
}

/// Whether an action touches a message.
pub fn touches(kind: ActionKind, policy: PlacementPolicy, member: &Member) -> (r: bool)
    ensures
        r == is_touched(kind, policy, member@),
{
    let about = match kind {
        ActionKind::MarkRead => member.flags & SEEN == 0,
        ActionKind::MarkUnread => member.flags & SEEN != 0,
        _ => true,
    };
    if !about {
        return false;
    }
    match kind {
        ActionKind::Archive => match policy {
            PlacementPolicy::Labels => member_is_in(member, "inbox") && !member_is_in(
                member,
                "drafts",
            ) && !member_is_in(member, "trash") && !member_is_in(member, "spam"),
            PlacementPolicy::Exclusive => is_loose(member),
        },
        ActionKind::Move => is_loose(member),
        _ => true,
    }
}

fn is_loose(member: &Member) -> (r: bool)
    ensures
        r == !(is_in(member@, "sent"@) || is_in(member@, "drafts"@) || is_in(member@, "trash"@)
            || is_in(member@, "spam"@)),
{
    !member_is_in(member, "sent") && !member_is_in(member, "drafts") && !member_is_in(
        member,
        "trash",
    ) && !member_is_in(member, "spam")
}

// ---------------------------------------------------------------------
// What is replaced
// ---------------------------------------------------------------------
/// How well a placement addresses a message: in the inbox first, then in
/// another folder that has a role, then in one that somebody made; and among
/// those with a number known first. The lower the better.
pub open spec fn rank(spot: Spot) -> int {
    (if spot.role == Some("inbox"@) {
        0int
    } else if spot.role is Some {
        2
    } else {
        4
    }) + (if spot.uid is Some {
        0int
    } else {
        1
    })
}

/// Whether a placement addresses a message at all. One without a number does
/// only where the action is about the inbox itself.
pub open spec fn addresses(spot: Spot, at_inbox: bool) -> bool {
    at_inbox || spot.uid is Some
}

/// The placement that addresses a message best, the first of equals.
pub open spec fn source(spots: Seq<Spot>, at_inbox: bool) -> Option<int>
    decreases spots.len(),
{
    if spots.len() == 0 {
        None
    } else {
        let so_far = source(spots.drop_last(), at_inbox);
        let last = spots.len() - 1;
        if !addresses(spots.last(), at_inbox) {
            so_far
        } else {
            match so_far {
                None => Some(last),
                Some(i) => if rank(spots.last()) < rank(spots[i]) {
                    Some(last)
                } else {
                    Some(i)
                },
            }
        }
    }
}

/// Whether an action is one label coming off: then it is addressed at the
/// inbox, whether or not a number is known there.
pub open spec fn is_about_the_inbox(kind: ActionKind, policy: PlacementPolicy) -> bool {
    kind == ActionKind::Archive && policy == PlacementPolicy::Labels
}

pub open spec fn folders_of(spots: Seq<Spot>) -> Seq<i64> {
    spots.map_values(|s: Spot| s.folder)
}

/// A number as the server writes it.
pub open spec fn server_number(uid: Option<i64>) -> Option<u32> {
    match uid {
        Some(n) => Some(n as u32),
        None => None,
    }
}

/// What a message is like before an action touches it.
pub open spec fn prior_of(mail: Mail, at_inbox: bool) -> Prior {
    let from = source(mail.spots, at_inbox);
    Prior {
        message_id: mail.id,
        flags: mail.flags,
        folder_ids: folders_of(mail.spots),
        tag_ids: mail.tags,
        source_path: match from {
            Some(i) => Some(mail.spots[i].path),
            None => None,
        },
        source_uid: match from {
            Some(i) => server_number(mail.spots[i].uid),
            None => None,
        },
        source_folder: match from {
            Some(i) => Some(mail.spots[i].folder),
            None => None,
        },
        snoozed_until: mail.snoozed_until,
    }
}

/// What an action replaces: the state of every message it touches, in order.
pub open spec fn replaced_by(
    kind: ActionKind,
    policy: PlacementPolicy,
    all: Seq<Mail>,
) -> Seq<Prior>
    decreases all.len(),
{
    if all.len() == 0 {
        Seq::empty()
    } else {
        let so_far = replaced_by(kind, policy, all.drop_last());
        if is_touched(kind, policy, all.last()) {
            so_far.push(prior_of(all.last(), is_about_the_inbox(kind, policy)))
        } else {
            so_far
        }
    }
}

pub proof fn a_source_is_a_placement(spots: Seq<Spot>, at_inbox: bool)
    ensures
        source(spots, at_inbox) matches Some(i) ==> 0 <= i < spots.len() && addresses(
            spots[i],
            at_inbox,
        ) && (forall|j: int|
            0 <= j < spots.len() && addresses(#[trigger] spots[j], at_inbox) ==> rank(spots[i])
                <= rank(spots[j])),
        source(spots, at_inbox) is None ==> forall|j: int|
            0 <= j < spots.len() ==> !addresses(#[trigger] spots[j], at_inbox),
    decreases spots.len(),
{
    if spots.len() > 0 {
        let front = spots.drop_last();
        a_source_is_a_placement(front, at_inbox);
        assert forall|j: int| 0 <= j < front.len() implies front[j] == #[trigger] spots[j] by {}
        assert(spots.last() == spots[spots.len() - 1]);
    }
}

fn place_rank(place: &Place) -> (r: u8)
    ensures
        r == rank(place@),
{
    let inbox: u8 = if has_role(place, "inbox") {
        0
    } else if place.role.is_some() {
        2
    } else {
        4
    };
    let number: u8 = if place.uid.is_some() {
        0
    } else {
        1
    };
    inbox + number
}

fn source_of(places: &Vec<Place>, at_inbox: bool) -> (r: Option<usize>)
    ensures
        match r {
            Some(i) => i < places@.len() && source(places@.map_values(|p: Place| p@), at_inbox)
                == Some(i as int),
            None => source(places@.map_values(|p: Place| p@), at_inbox) is None,
        },
{
    let ghost spots = places@.map_values(|p: Place| p@);
    let mut best: Option<usize> = None;
    let mut i: usize = 0;
    assert(spots.take(0) =~= Seq::<Spot>::empty());
    while i < places.len()
        invariant
            i <= places@.len(),
            spots == places@.map_values(|p: Place| p@),
            match best {
                Some(b) => b < i && source(spots.take(i as int), at_inbox) == Some(b as int),
                None => source(spots.take(i as int), at_inbox) is None,
            },
        decreases places@.len() - i,
    {
        let ghost now = spots.take(i + 1);
        assert(now.drop_last() =~= spots.take(i as int));
        assert(now.last() == places@[i as int]@);
        if at_inbox || places[i].uid.is_some() {
            best = match best {
                None => Some(i),
                Some(b) => {
                    assert(spots.take(i as int)[b as int] == places@[b as int]@);
                    assert(now.drop_last()[b as int] == now[b as int]);
                    if place_rank(&places[i]) < place_rank(&places[b]) {
                        Some(i)
                    } else {
                        Some(b)
                    }
                },
            };
        }
        i += 1;
    }
    assert(spots.take(i as int) =~= spots);
    best
}

fn as_server_number(uid: Option<i64>) -> (r: Option<u32>)
    ensures
        r == server_number(uid),
{
    match uid {
        Some(n) => Some(#[verifier::truncate] (n as u32)),
        None => None,
    }
}

fn prior_state(member: &Member, at_inbox: bool) -> (p: PriorState)
    ensures
        p@ == prior_of(member@, at_inbox),
{
    let mut folder_ids: Vec<i64> = Vec::new();
    let mut i: usize = 0;
    while i < member.places.len()
        invariant
            i <= member.places@.len(),
            folder_ids@ == folders_of(member@.spots.take(i as int)),
        decreases member.places@.len() - i,
    {
        assert(member@.spots.take(i + 1) =~= member@.spots.take(i as int).push(
            member.places@[i as int]@,
        ));
        folder_ids.push(member.places[i].folder);
        assert(folder_ids@ =~= folders_of(member@.spots.take(i + 1)));
        i += 1;
    }
    assert(member@.spots.take(i as int) =~= member@.spots);
    let mut tag_ids: Vec<i64> = Vec::new();
    let mut k: usize = 0;
    while k < member.tags.len()
        invariant
            k <= member.tags@.len(),
            tag_ids@ == member.tags@.take(k as int),
        decreases member.tags@.len() - k,
    {
        tag_ids.push(member.tags[k]);
        k += 1;
    }
    assert(member.tags@.take(k as int) =~= member.tags@);
    let from = source_of(&member.places, at_inbox);
    let (path, uid, folder) = match from {
        Some(at) => {
            assert(member@.spots[at as int] == member.places@[at as int]@);
            (
                Some(string_of(&chars_of(&member.places[at].path))),
                as_server_number(member.places[at].uid),
                Some(member.places[at].folder),
            )
        },
        None => (None, None, None),
    };
    PriorState {
        message_id: member.id,
        flags: member.flags,
        folder_ids,
        tag_ids,
        source_path: path,
        source_uid: uid,
        source_folder: folder,
        snoozed_until: member.snoozed_until,
    }
}

/// The state of every message an action will touch, before anything changes.
pub fn captured(kind: ActionKind, policy: PlacementPolicy, members: &Vec<Member>) -> (out: Vec<
    PriorState,
>)
    ensures
        priors(out@) == replaced_by(kind, policy, mails(members@)),
{
    let at_inbox = matches!(kind, ActionKind::Archive) && !policy.archive_clears_everything();
    let mut out: Vec<PriorState> = Vec::new();
    let mut i: usize = 0;
    let ghost all = mails(members@);
    assert(all.take(0) =~= Seq::<Mail>::empty());
    assert(priors(out@) =~= Seq::<Prior>::empty());
    while i < members.len()
        invariant
            i <= members@.len(),
            all == mails(members@),
            at_inbox == is_about_the_inbox(kind, policy),
            priors(out@) == replaced_by(kind, policy, all.take(i as int)),
        decreases members@.len() - i,
    {
        assert(all.take(i + 1).drop_last() =~= all.take(i as int));
        assert(all.take(i + 1).last() == members@[i as int]@);
        if touches(kind, policy, &members[i]) {
            let ghost before = out@;
            out.push(prior_state(&members[i], at_inbox));
            assert(priors(out@) =~= priors(before).push(out@.last()@));
        }
        i += 1;
    }
    assert(all.take(i as int) =~= all);
    out
}

// ---------------------------------------------------------------------
// What changes
// ---------------------------------------------------------------------
/// What is done to a message an action touches. A change of flags is made to
/// the whole conversation.
#[derive(Debug, Clone, Copy, PartialEq, Eq, Structural)]
pub enum Change {
    Flags { add: i64, remove: i64 },
    Snooze(i64),
    Unsnooze,
    /// Out of every view and out of search, to be destroyed later.
    Tombstone,
    Tag(i64),
    Untag(i64),
    /// Into a folder, and out of every other.
    Refile(i64),
    /// Into a folder, and out of the inbox alone.
    Unlabel(i64),
}

/// The change an action makes. `filed` is the folder that has the role the
/// action files under.
pub open spec fn change_of(
    kind: ActionKind,
    target: Option<i64>,
    filed: Option<i64>,
    policy: PlacementPolicy,
) -> Change {
    match kind {
        ActionKind::Star => Change::Flags { add: FLAGGED, remove: 0 },
        ActionKind::Unstar => Change::Flags { add: 0, remove: FLAGGED },
        ActionKind::MarkRead => Change::Flags { add: SEEN, remove: 0 },
        ActionKind::MarkUnread => Change::Flags { add: 0, remove: SEEN },
        ActionKind::Snooze => Change::Snooze(target.unwrap()),
        ActionKind::Unsnooze => Change::Unsnooze,
        ActionKind::DeleteForever => Change::Tombstone,
        ActionKind::Tag => Change::Tag(target.unwrap()),
        ActionKind::Untag => Change::Untag(target.unwrap()),
        ActionKind::Move => Change::Refile(target.unwrap()),
        ActionKind::Archive => if policy == PlacementPolicy::Labels {
            Change::Unlabel(filed.unwrap())
        } else {
            Change::Refile(filed.unwrap())
        },
        // Binning is exclusive whoever the provider is: a message in the
        // trash is not still in the inbox under a label.
        ActionKind::Trash | ActionKind::Spam => Change::Refile(filed.unwrap()),
    }
}

/// The change an action makes to each message it touches.
pub fn change_for(
    kind: ActionKind,
    target: Option<i64>,
    filed: Option<i64>,
    policy: PlacementPolicy,
) -> (change: Change)
    requires
        names_a_target(kind) ==> target is Some,
        filed_under(kind) is Some ==> filed is Some,
    ensures
        change == change_of(kind, target, filed, policy),
{
    let named: i64 = match target {
        Some(id) => id,
        None => 0,
    };
    let dest: i64 = match filed {
        Some(id) => id,
        None => 0,
    };
    match kind {
        ActionKind::Star => Change::Flags { add: FLAGGED, remove: 0 },
        ActionKind::Unstar => Change::Flags { add: 0, remove: FLAGGED },
        ActionKind::MarkRead => Change::Flags { add: SEEN, remove: 0 },
        ActionKind::MarkUnread => Change::Flags { add: 0, remove: SEEN },
        ActionKind::Snooze => Change::Snooze(named),
        ActionKind::Unsnooze => Change::Unsnooze,
        ActionKind::DeleteForever => Change::Tombstone,
        ActionKind::Tag => Change::Tag(named),
        ActionKind::Untag => Change::Untag(named),
        ActionKind::Move => Change::Refile(named),
        ActionKind::Archive => if policy.archive_clears_everything() {
            Change::Refile(dest)
        } else {
            Change::Unlabel(dest)
        },
        ActionKind::Trash | ActionKind::Spam => Change::Refile(dest),
    }
}

/// The state an action is queued in: nothing local ever waits for a server.
pub fn queue_state(kind: ActionKind) -> (state: &'static str)
    ensures
        state@ == (if crate::actions::stays_here(kind) {
            "local"@
        } else {
            "queued"@
        }),
{
    if kind.is_local_only() {
        "local"
    } else {
        "queued"
    }
}

} // verus!
