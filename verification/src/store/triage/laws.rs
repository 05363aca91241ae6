//! What actions and their undoing come to.

use super::undo::{can_be_undone, flag_of, put_back, restore_of, Restoring};
use super::{
    change_of, folders_of, is_about, is_about_the_inbox, is_refused, is_touched, prior_of,
    replaced_by, server_number, source, Change, Mail,
};
use crate::actions::{moves, ActionKind, PlacementPolicy, Prior};
use vstd::prelude::*;

verus! {

/// What the database holds of a message: its flags, the folders it is in with
/// the number each knows it by, its tags, and the rest.
#[verifier::ext_equal]
pub struct State {
    pub flags: i64,
    pub places: Map<i64, Option<i64>>,
    pub tags: Set<i64>,
    pub snoozed_until: Option<i64>,
    pub deleted: bool,
}

/// A folder added, which leaves one that is there already as it is.
pub open spec fn placed(places: Map<i64, Option<i64>>, folder: i64) -> Map<i64, Option<i64>> {
    if places.dom().contains(folder) {
        places
    } else {
        places.insert(folder, None)
    }
}

/// The folders some folders are without others.
pub open spec fn outside(places: Map<i64, Option<i64>>, others: Set<i64>) -> Map<i64, Option<i64>> {
    places.remove_keys(others)
}

/// A message after a change. `inboxes` are the folders with the inbox's role.
pub open spec fn changed(s: State, change: Change, inboxes: Set<i64>) -> State {
    match change {
        Change::Flags { add, remove } => State { flags: (s.flags | add) & !remove, ..s },
        Change::Snooze(until) => State { snoozed_until: Some(until), ..s },
        Change::Unsnooze => State { snoozed_until: None, ..s },
        Change::Tombstone => State { deleted: true, ..s },
        Change::Tag(tag) => State { tags: s.tags.insert(tag), ..s },
        Change::Untag(tag) => State { tags: s.tags.remove(tag), ..s },
        Change::Refile(into) => State {
            places: placed(
                Map::new(
                    |f: i64| f == into && s.places.dom().contains(f),
                    |f: i64| s.places[f],
                ),
                into,
            ),
            ..s
        },
        Change::Unlabel(into) => State { places: placed(outside(s.places, inboxes), into), ..s },
    }
}

/// The folders of a list, each with its number.
pub open spec fn as_places(list: Seq<(i64, Option<u32>)>) -> Map<i64, Option<i64>>
    decreases list.len(),
{
    if list.len() == 0 {
        Map::empty()
    } else {
        let (folder, uid) = list.last();
        let so_far = as_places(list.drop_last());
        match uid {
            Some(n) => so_far.insert(folder, Some(n as i64)),
            None => placed(so_far, folder),
        }
    }
}

/// A message after an action has been taken back.
pub open spec fn restored(s: State, how: Restoring) -> State {
    match how {
        Restoring::Nothing => s,
        Restoring::Flag { bit, flags } => State { flags: (s.flags & !bit) | (flags & bit), ..s },
        Restoring::Tags(tags) => State { tags: tags.to_set(), ..s },
        Restoring::Snooze(until) => State { snoozed_until: until, ..s },
        Restoring::Places(places) => State { places: as_places(places), ..s },
    }
}

/// What the database holds of a message that has this snapshot.
pub open spec fn is_snapshot(mail: Mail, s: State) -> bool {
    &&& mail.flags == s.flags
    &&& mail.snoozed_until == s.snoozed_until
    &&& mail.tags.to_set() == s.tags
    &&& s.places.dom() == folders_of(mail.spots).to_set()
    &&& forall|i: int|
        0 <= i < mail.spots.len() ==> s.places[(#[trigger] mail.spots[i]).folder]
            == mail.spots[i].uid
    &&& !s.deleted
}

// ---------------------------------------------------------------------
// Laws
// ---------------------------------------------------------------------
/// Wherever an action files a message, the message is there afterwards: no
/// move leaves one in no folder at all.
pub proof fn a_move_never_strands_a_message(
    s: State,
    kind: ActionKind,
    target: Option<i64>,
    filed: Option<i64>,
    policy: PlacementPolicy,
    inboxes: Set<i64>,
)
    requires
        moves(kind),
    ensures
        changed(s, change_of(kind, target, filed, policy), inboxes).places.dom().contains(
            if kind == ActionKind::Move {
                target.unwrap()
            } else {
                filed.unwrap()
            },
        ),
{
}

/// A message already in the folder it is moved to keeps the number the server
/// knows it by there.
pub proof fn a_move_keeps_the_number_of_what_is_there(
    s: State,
    into: i64,
    inboxes: Set<i64>,
)
    requires
        s.places.dom().contains(into),
        !inboxes.contains(into),
    ensures
        changed(s, Change::Refile(into), inboxes).places[into] == s.places[into],
        changed(s, Change::Unlabel(into), inboxes).places[into] == s.places[into],
{
}

/// A bin, and a folder on a server that has folders, holds a message alone.
pub proof fn refiling_is_exclusive(s: State, into: i64, inboxes: Set<i64>)
    ensures
        changed(s, Change::Refile(into), inboxes).places.dom() == set![into],
{
    assert(changed(s, Change::Refile(into), inboxes).places.dom() =~= set![into]);
}

/// Where folders are labels, archiving takes the inbox off and leaves every
/// other label alone.
pub proof fn archiving_keeps_other_labels(s: State, into: i64, inboxes: Set<i64>, label: i64)
    requires
        s.places.dom().contains(label),
        !inboxes.contains(label),
    ensures
        changed(s, Change::Unlabel(into), inboxes).places.dom().contains(label),
        changed(s, Change::Unlabel(into), inboxes).places[label] == s.places[label],
        forall|inbox: i64|
            #![trigger inboxes.contains(inbox)]
            inboxes.contains(inbox) && inbox != into ==> !changed(
                s,
                Change::Unlabel(into),
                inboxes,
            ).places.dom().contains(inbox),
{
}

/// Reading what is read, or unreading what is unread, changes nothing: what
/// an action does not touch, its flags leave alone.
pub proof fn flags_leave_alone_what_is_not_touched(
    s: State,
    kind: ActionKind,
    policy: PlacementPolicy,
    inboxes: Set<i64>,
)
    requires
        kind == ActionKind::MarkRead || kind == ActionKind::MarkUnread,
        !is_about(kind, s.flags),
    ensures
        changed(s, change_of(kind, None, None, policy), inboxes) == s,
{
    let f = s.flags;
    assert(f & 1i64 != 0 ==> (f | 1i64) & !0i64 == f) by (bit_vector);
    assert(f & 1i64 == 0 ==> (f | 0i64) & !1i64 == f) by (bit_vector);
}

/// Undoing an action leaves alone whatever it is not about, whatever has
/// happened since: a star survives the undoing of a mark-read, and a
/// conversation stays archived.
pub proof fn undoing_leaves_the_rest_alone(
    s: State,
    kind: ActionKind,
    prior: Prior,
    existing: Seq<i64>,
)
    ensures
        ({
            let after = restored(s, restore_of(kind, prior, existing));
            &&& after.deleted == s.deleted
            &&& !moves(kind) ==> after.places == s.places
            &&& kind != ActionKind::Tag && kind != ActionKind::Untag ==> after.tags == s.tags
            &&& kind != ActionKind::Snooze && kind != ActionKind::Unsnooze ==> after.snoozed_until
                == s.snoozed_until
            &&& flag_of(kind) is None ==> after.flags == s.flags
            &&& flag_of(kind) matches Some(bit) ==> after.flags & !bit == s.flags & !bit
                && after.flags & bit == prior.flags & bit
        }),
{
    let (f, p) = (s.flags, prior.flags);
    assert(((f & !1i64) | (p & 1i64)) & !1i64 == f & !1i64) by (bit_vector);
    assert(((f & !1i64) | (p & 1i64)) & 1i64 == p & 1i64) by (bit_vector);
    assert(((f & !4i64) | (p & 4i64)) & !4i64 == f & !4i64) by (bit_vector);
    assert(((f & !4i64) | (p & 4i64)) & 4i64 == p & 4i64) by (bit_vector);
}

proof fn put_back_everything(prior: Prior, existing: Seq<i64>, upto: int)
    requires
        0 <= upto <= prior.folder_ids.len(),
        forall|i: int|
            0 <= i < prior.folder_ids.len() ==> existing.contains(#[trigger] prior.folder_ids[i]),
    ensures
        put_back(prior, existing, upto).len() == upto,
        forall|i: int|
            0 <= i < upto ==> (#[trigger] put_back(prior, existing, upto)[i]) == (
                prior.folder_ids[i],
                if prior.source_folder == Some(prior.folder_ids[i]) {
                    prior.source_uid
                } else {
                    None
                },
            ),
    decreases upto,
{
    if upto > 0 {
        put_back_everything(prior, existing, upto - 1);
    }
}

proof fn places_of_a_list(list: Seq<(i64, Option<u32>)>, from: i64, uid: Option<u32>)
    requires
        forall|i: int|
            0 <= i < list.len() ==> (#[trigger] list[i]).1 == if list[i].0 == from {
                uid
            } else {
                None::<u32>
            },
    ensures
        forall|f: i64|
            #[trigger] as_places(list).dom().contains(f) <==> exists|i: int|
                0 <= i < list.len() && (#[trigger] list[i]).0 == f,
        forall|f: i64|
            #[trigger] as_places(list).dom().contains(f) ==> as_places(list)[f] == if f == from
                && uid is Some {
                Some(uid.unwrap() as i64)
            } else {
                None::<i64>
            },
    decreases list.len(),
{
    if list.len() > 0 {
        let front = list.drop_last();
        places_of_a_list(front, from, uid);
        let last = list.len() - 1;
        assert(list.last() == list[last]);
        assert forall|f: i64| #[trigger] as_places(list).dom().contains(f) implies exists|i: int|
            0 <= i < list.len() && (#[trigger] list[i]).0 == f by {
            if f == list[last].0 {
            } else {
                assert(as_places(front).dom().contains(f));
                let i = choose|i: int| 0 <= i < front.len() && (#[trigger] front[i]).0 == f;
                assert(list[i].0 == f);
            }
        }
        assert forall|f: i64|
            (exists|i: int| 0 <= i < list.len() && (#[trigger] list[i]).0 == f) implies
            #[trigger] as_places(list).dom().contains(f) by {
            let i = choose|i: int| 0 <= i < list.len() && (#[trigger] list[i]).0 == f;
            if i < last {
                assert(front[i].0 == f);
                assert(as_places(front).dom().contains(f));
            }
        }
    }
}

/// Undoing an action puts back what it replaced. What is about flags, tags or
/// a snooze is as it was in every respect. A moved message is back in exactly
/// the folders it was in, as long as they are still there, and has its number
/// back in the one it was addressed at. (One that was in no folder at all has
/// nowhere to be put back to, and stays where the move left it.)
pub proof fn undoing_puts_back_what_was(
    mail: Mail,
    s: State,
    kind: ActionKind,
    target: Option<i64>,
    filed: Option<i64>,
    policy: PlacementPolicy,
    inboxes: Set<i64>,
    existing: Seq<i64>,
)
    requires
        is_snapshot(mail, s),
        is_touched(kind, policy, mail),
        kind != ActionKind::DeleteForever,
        moves(kind) ==> mail.spots.len() > 0,
        forall|i: int|
            0 <= i < mail.spots.len() ==> existing.contains((#[trigger] mail.spots[i]).folder),
    ensures
        ({
            let prior = prior_of(mail, is_about_the_inbox(kind, policy));
            let there = changed(s, change_of(kind, target, filed, policy), inboxes);
            let back = restored(there, restore_of(kind, prior, existing));
            &&& !moves(kind) ==> back == s
            &&& back.places.dom() == s.places.dom()
            &&& back.flags == s.flags
            &&& back.tags == s.tags
            &&& back.snoozed_until == s.snoozed_until
            &&& back.deleted == s.deleted
            &&& moves(kind) ==> match source(mail.spots, is_about_the_inbox(kind, policy)) {
                Some(i) => match mail.spots[i].uid {
                    Some(n) => 0 <= n <= u32::MAX ==> back.places[mail.spots[i].folder]
                        == s.places[mail.spots[i].folder],
                    None => true,
                },
                None => true,
            }
        }),
{
    let at_inbox = is_about_the_inbox(kind, policy);
    let prior = prior_of(mail, at_inbox);
    let there = changed(s, change_of(kind, target, filed, policy), inboxes);
    let back = restored(there, restore_of(kind, prior, existing));
    let f = s.flags;
    assert(((((f | 1i64) & !0i64) & !1i64) | (f & 1i64)) == f) by (bit_vector);
    assert(((((f | 0i64) & !1i64) & !1i64) | (f & 1i64)) == f) by (bit_vector);
    assert(((((f | 4i64) & !0i64) & !4i64) | (f & 4i64)) == f) by (bit_vector);
    assert(((((f | 0i64) & !4i64) & !4i64) | (f & 4i64)) == f) by (bit_vector);
    if moves(kind) {
        assert forall|i: int| 0 <= i < prior.folder_ids.len() implies existing.contains(
            #[trigger] prior.folder_ids[i],
        ) by {
            assert(prior.folder_ids[i] == mail.spots[i].folder);
        }
        let n = prior.folder_ids.len() as int;
        put_back_everything(prior, existing, n);
        let list = put_back(prior, existing, n);
        super::a_source_is_a_placement(mail.spots, at_inbox);
        let from = match prior.source_folder {
            Some(id) => id,
            None => 0,
        };
        assert forall|i: int| 0 <= i < list.len() implies (#[trigger] list[i]).1 == if list[i].0
            == from {
            prior.source_uid
        } else {
            None::<u32>
        } by {
            assert(list[i].0 == prior.folder_ids[i]);
        }
        places_of_a_list(list, from, prior.source_uid);
        assert forall|folder: i64| back.places.dom().contains(folder) <==>
            s.places.dom().contains(folder) by {
            if back.places.dom().contains(folder) {
                let i = choose|i: int| 0 <= i < list.len() && (#[trigger] list[i]).0 == folder;
                assert(folders_of(mail.spots)[i] == folder);
                assert(folders_of(mail.spots).contains(folder));
            }
            if s.places.dom().contains(folder) {
                assert(folders_of(mail.spots).contains(folder));
                let i = choose|i: int|
                    0 <= i < mail.spots.len() && folders_of(mail.spots)[i] == folder;
                assert(list[i].0 == folder);
            }
        }
        assert(back.places.dom() =~= s.places.dom());
        if let Some(i) = source(mail.spots, at_inbox) {
            let folder = mail.spots[i].folder;
            assert(folders_of(mail.spots)[i] == folder);
            assert(folders_of(mail.spots).contains(folder));
            assert(s.places.dom().contains(folder));
            assert(s.places[folder] == mail.spots[i].uid);
            if let Some(number) = mail.spots[i].uid {
                assert(0 <= number <= u32::MAX ==> (number as u32) as i64 == number);
            }
        }
    } else {
        assert(back =~= s);
    }
}

// ---------------------------------------------------------------------
// What each action leaves behind
// ---------------------------------------------------------------------
/// A message after an action.
pub open spec fn acted(
    s: State,
    kind: ActionKind,
    target: Option<i64>,
    filed: Option<i64>,
    policy: PlacementPolicy,
    inboxes: Set<i64>,
) -> State {
    changed(s, change_of(kind, target, filed, policy), inboxes)
}

pub open spec fn is_starred(flags: i64) -> bool {
    flags & 4 != 0
}

pub open spec fn is_read(flags: i64) -> bool {
    flags & 1 != 0
}

/// Starring leaves a message starred and unstarring leaves it unstarred,
/// whichever it was; reading leaves it read and unreading unread. Each leaves
/// every other flag, and everything but the flags, as it was.
pub proof fn a_flag_is_what_the_action_says(
    s: State,
    target: Option<i64>,
    filed: Option<i64>,
    policy: PlacementPolicy,
    inboxes: Set<i64>,
)
    ensures
        is_starred(acted(s, ActionKind::Star, target, filed, policy, inboxes).flags),
        !is_starred(acted(s, ActionKind::Unstar, target, filed, policy, inboxes).flags),
        is_read(acted(s, ActionKind::MarkRead, target, filed, policy, inboxes).flags),
        !is_read(acted(s, ActionKind::MarkUnread, target, filed, policy, inboxes).flags),
        forall|kind: ActionKind|
            kind == ActionKind::Star || kind == ActionKind::Unstar ==> {
                let after = #[trigger] acted(s, kind, target, filed, policy, inboxes);
                after.flags & !4 == s.flags & !4 && after == (State { flags: after.flags, ..s })
            },
        forall|kind: ActionKind|
            kind == ActionKind::MarkRead || kind == ActionKind::MarkUnread ==> {
                let after = #[trigger] acted(s, kind, target, filed, policy, inboxes);
                after.flags & !1 == s.flags & !1 && after == (State { flags: after.flags, ..s })
            },
{
    let f = s.flags;
    assert(((f | 4i64) & !0i64) & 4i64 != 0 && ((f | 0i64) & !4i64) & 4i64 == 0 && ((f | 1i64)
        & !0i64) & 1i64 != 0 && ((f | 0i64) & !1i64) & 1i64 == 0) by (bit_vector);
    assert(((f | 4i64) & !0i64) & !4i64 == f & !4i64 && ((f | 0i64) & !4i64) & !4i64 == f & !4i64
        && ((f | 1i64) & !0i64) & !1i64 == f & !1i64 && ((f | 0i64) & !1i64) & !1i64 == f & !1i64)
        by (bit_vector);
}

/// Unstarring after starring, and unreading after reading, leave the flag off,
/// and the other way about they leave it on: the last word counts.
pub proof fn the_last_word_counts(
    s: State,
    target: Option<i64>,
    filed: Option<i64>,
    policy: PlacementPolicy,
    inboxes: Set<i64>,
)
    ensures
        ({
            let act = |s: State, kind: ActionKind| acted(s, kind, target, filed, policy, inboxes);
            &&& !is_starred(act(act(s, ActionKind::Star), ActionKind::Unstar).flags)
            &&& is_starred(act(act(s, ActionKind::Unstar), ActionKind::Star).flags)
            &&& !is_read(act(act(s, ActionKind::MarkRead), ActionKind::MarkUnread).flags)
            &&& is_read(act(act(s, ActionKind::MarkUnread), ActionKind::MarkRead).flags)
        }),
{
    let star = acted(s, ActionKind::Star, target, filed, policy, inboxes);
    let unstar = acted(s, ActionKind::Unstar, target, filed, policy, inboxes);
    let read = acted(s, ActionKind::MarkRead, target, filed, policy, inboxes);
    let unread = acted(s, ActionKind::MarkUnread, target, filed, policy, inboxes);
    a_flag_is_what_the_action_says(star, target, filed, policy, inboxes);
    a_flag_is_what_the_action_says(unstar, target, filed, policy, inboxes);
    a_flag_is_what_the_action_says(read, target, filed, policy, inboxes);
    a_flag_is_what_the_action_says(unread, target, filed, policy, inboxes);
}

/// Tagging puts on the tag that was named and untagging takes it off; no other
/// tag, and nothing else of the message, changes.
pub proof fn a_tag_is_put_on_and_taken_off(
    s: State,
    tag: i64,
    other: i64,
    filed: Option<i64>,
    policy: PlacementPolicy,
    inboxes: Set<i64>,
)
    ensures
        ({
            let on = acted(s, ActionKind::Tag, Some(tag), filed, policy, inboxes);
            let off = acted(s, ActionKind::Untag, Some(tag), filed, policy, inboxes);
            &&& on.tags.contains(tag)
            &&& !off.tags.contains(tag)
            &&& other != tag ==> on.tags.contains(other) == s.tags.contains(other)
            &&& other != tag ==> off.tags.contains(other) == s.tags.contains(other)
            &&& on == (State { tags: on.tags, ..s })
            &&& off == (State { tags: off.tags, ..s })
        }),
{
}

/// A snooze lasts until the moment that was named, and ends when it is taken
/// off; nothing else of the message changes.
pub proof fn a_snooze_lasts_until_its_moment(
    s: State,
    until: i64,
    filed: Option<i64>,
    policy: PlacementPolicy,
    inboxes: Set<i64>,
)
    ensures
        acted(s, ActionKind::Snooze, Some(until), filed, policy, inboxes) == (State {
            snoozed_until: Some(until),
            ..s
        }),
        acted(s, ActionKind::Unsnooze, None, filed, policy, inboxes) == (State {
            snoozed_until: None,
            ..s
        }),
{
}

/// A message deleted for good is gone, and no other action makes one so.
pub proof fn only_deleting_deletes(
    s: State,
    kind: ActionKind,
    target: Option<i64>,
    filed: Option<i64>,
    policy: PlacementPolicy,
    inboxes: Set<i64>,
)
    ensures
        acted(s, ActionKind::DeleteForever, target, filed, policy, inboxes) == (State {
            deleted: true,
            ..s
        }),
        acted(s, kind, target, filed, policy, inboxes).deleted != s.deleted ==> kind
            == ActionKind::DeleteForever,
{
}

/// A message moved is in the folder that was named and in no other. One that
/// was binned, or reported, is in that folder alone, whatever the provider.
/// An archived one is in the archive: alone, where folders are folders, and
/// where they are labels under every label it had but the inbox. Its flags,
/// its tags and its snooze are what they were.
pub proof fn a_message_is_where_it_was_filed(
    s: State,
    kind: ActionKind,
    target: Option<i64>,
    filed: Option<i64>,
    policy: PlacementPolicy,
    inboxes: Set<i64>,
    folder: i64,
)
    requires
        kind == ActionKind::Move ==> target is Some,
        kind == ActionKind::Archive || kind == ActionKind::Trash || kind == ActionKind::Spam
            ==> filed is Some,
    ensures
        ({
            let after = acted(s, kind, target, filed, policy, inboxes);
            let there = after.places.dom().contains(folder);
            let was = s.places.dom().contains(folder);
            &&& kind == ActionKind::Move ==> there == (target == Some(folder))
            &&& kind == ActionKind::Trash || kind == ActionKind::Spam ==> there == (filed == Some(
                folder,
            ))
            &&& kind == ActionKind::Archive && policy == PlacementPolicy::Exclusive ==> there == (
            filed == Some(folder))
            &&& kind == ActionKind::Archive && policy == PlacementPolicy::Labels ==> there == (filed
                == Some(folder) || was && !inboxes.contains(folder))
            &&& kind != ActionKind::Move && kind != ActionKind::Trash && kind != ActionKind::Spam
                && kind != ActionKind::Archive ==> after.places == s.places
            &&& kind == ActionKind::Move || kind == ActionKind::Trash || kind == ActionKind::Spam
                || kind == ActionKind::Archive ==> after == (State { places: after.places, ..s })
        }),
{
}

// ---------------------------------------------------------------------
// Which messages are touched, and where they are addressed
// ---------------------------------------------------------------------
pub open spec fn is_filed_as(mail: Mail, role: Seq<char>) -> bool {
    exists|i: int| 0 <= i < mail.spots.len() && (#[trigger] mail.spots[i]).role == Some(role)
}

/// Nobody's own replies are taken out of Sent, no draft out of Drafts and
/// nothing out of the bin by archiving or moving a conversation. Where folders
/// are labels archiving is for what is in the inbox, Sent or not. Every other
/// action is for the whole conversation, but that reading is for what is
/// unread and unreading for what is read.
pub proof fn an_action_is_for_the_messages_it_is_about(
    kind: ActionKind,
    policy: PlacementPolicy,
    mail: Mail,
)
    ensures
        ({
            let touched = is_touched(kind, policy, mail);
            let kept = is_filed_as(mail, "drafts"@) || is_filed_as(mail, "trash"@) || is_filed_as(
                mail,
                "spam"@,
            );
            let sent = is_filed_as(mail, "sent"@);
            &&& kind == ActionKind::Move ==> touched == !(kept || sent)
            &&& kind == ActionKind::Archive && policy == PlacementPolicy::Exclusive ==> touched
                == !(kept || sent)
            &&& kind == ActionKind::Archive && policy == PlacementPolicy::Labels ==> touched == (
            !kept && is_filed_as(mail, "inbox"@))
            &&& kind == ActionKind::MarkRead ==> touched == !is_read(mail.flags)
            &&& kind == ActionKind::MarkUnread ==> touched == is_read(mail.flags)
            &&& kind != ActionKind::Move && kind != ActionKind::Archive && kind
                != ActionKind::MarkRead && kind != ActionKind::MarkUnread ==> touched
        }),
{
}

/// What is captured is every message the action is for, in their order, each
/// once, and each as it stands: its flags, its tags, its snooze and every
/// folder it is in.
pub proof fn what_is_captured_is_as_it_stands(
    kind: ActionKind,
    policy: PlacementPolicy,
    all: Seq<Mail>,
)
    ensures
        ({
            let out = replaced_by(kind, policy, all);
            let kept = all.filter(|m: Mail| is_touched(kind, policy, m));
            &&& out.len() == kept.len()
            &&& forall|k: int|
                #![trigger out[k]]
                0 <= k < out.len() ==> {
                    &&& out[k].message_id == kept[k].id
                    &&& out[k].flags == kept[k].flags
                    &&& out[k].tag_ids == kept[k].tags
                    &&& out[k].snoozed_until == kept[k].snoozed_until
                    &&& out[k].folder_ids.len() == kept[k].spots.len()
                    &&& forall|i: int|
                        0 <= i < kept[k].spots.len() ==> out[k].folder_ids[i]
                            == #[trigger] kept[k].spots[i].folder
                }
        }),
    decreases all.len(),
{
    reveal(Seq::filter);
    if all.len() > 0 {
        what_is_captured_is_as_it_stands(kind, policy, all.drop_last());
        let f = |m: Mail| is_touched(kind, policy, m);
        let before = replaced_by(kind, policy, all.drop_last());
        let out = replaced_by(kind, policy, all);
        assert forall|k: int|
            #![trigger out[k]]
            0 <= k < before.len() implies out[k] == before[k] by {}
    }
}

/// A message is addressed in the inbox where it is there under a number; else
/// in a folder that has a role before one that somebody made. One that has no
/// number anywhere has no address, unless it is the inbox's label that comes
/// off: then it is the inbox, number or none.
pub proof fn a_message_is_addressed_where_it_counts(mail: Mail, at_inbox: bool, i: int)
    requires
        0 <= i < mail.spots.len(),
    ensures
        ({
            let prior = prior_of(mail, at_inbox);
            let spot = mail.spots[i];
            let numbered = spot.uid is Some;
            // Something is chosen wherever something can be,
            &&& numbered || at_inbox ==> prior.source_folder is Some
            // and it is one of the places, with its path and its number.
            &&& prior.source_folder is Some ==> exists|k: int|
                0 <= k < mail.spots.len() && prior.source_folder == Some(
                    (#[trigger] mail.spots[k]).folder,
                ) && prior.source_path == Some(mail.spots[k].path) && prior.source_uid
                    == server_number(mail.spots[k].uid) && (at_inbox || mail.spots[k].uid is Some)
                    && (spot.role == Some("inbox"@) && (numbered || at_inbox)
                    ==> mail.spots[k].role == Some("inbox"@)) && (spot.role is Some && (numbered
                    || at_inbox) ==> mail.spots[k].role is Some) && (mail.spots[k].role
                    == spot.role && numbered ==> mail.spots[k].uid is Some)
        }),
{
    super::a_source_is_a_placement(mail.spots, at_inbox);
    if let Some(k) = source(mail.spots, at_inbox) {
        assert(super::addresses(mail.spots[i], at_inbox) ==> super::rank(mail.spots[k])
            <= super::rank(mail.spots[i]));
    }
}

/// An action that names a folder or a tag is refused without one, and with
/// one this account does not have. A snooze is refused without its moment.
/// Nothing else is ever refused.
pub proof fn only_what_names_nothing_is_refused(kind: ActionKind, target: Option<i64>, owned: bool)
    ensures
        ({
            let row = kind == ActionKind::Move || kind == ActionKind::Tag || kind
                == ActionKind::Untag;
            &&& row ==> is_refused(kind, target, owned) == (target is None || !owned)
            &&& kind == ActionKind::Snooze ==> is_refused(kind, target, owned) == (target is None)
            &&& !row && kind != ActionKind::Snooze ==> !is_refused(kind, target, owned)
        }),
{
}

/// What has reached the server, what was undone already, and what was deleted
/// for good cannot be taken back; all else that waits or stays here can.
pub proof fn only_what_waits_is_taken_back(state: Seq<char>, kind: ActionKind)
    ensures
        can_be_undone("queued"@, kind) == (kind != ActionKind::DeleteForever),
        can_be_undone("local"@, kind) == (kind != ActionKind::DeleteForever),
        state != "queued"@ && state != "local"@ ==> !can_be_undone(state, kind),
        !can_be_undone("done"@, kind),
        !can_be_undone("undone"@, kind),
        !can_be_undone("failed"@, kind),
{
    reveal_strlit("queued");
    reveal_strlit("local");
    reveal_strlit("done");
    reveal_strlit("undone");
    reveal_strlit("failed");
    assert("undone"@[0] == 'u' && "failed"@[0] == 'f' && "queued"@[0] == 'q');
    assert("done"@.len() == 4 && "local"@.len() == 5 && "queued"@.len() == 6);
    assert("undone"@.len() == 6 && "failed"@.len() == 6);
}

/// Nothing goes back into a folder that is no longer there; every folder that
/// is still there the message goes back into, and no other. One that could go
/// back nowhere stays where it is.
pub proof fn a_message_goes_back_where_it_was(
    s: State,
    kind: ActionKind,
    prior: Prior,
    existing: Seq<i64>,
    folder: i64,
)
    requires
        moves(kind),
    ensures
        ({
            let after = restored(s, restore_of(kind, prior, existing));
            let somewhere = exists|i: int|
                0 <= i < prior.folder_ids.len() && existing.contains(
                    #[trigger] prior.folder_ids[i],
                );
            &&& !somewhere ==> after == s
            &&& somewhere ==> (after.places.dom().contains(folder) <==> prior.folder_ids.contains(
                folder,
            ) && existing.contains(folder))
        }),
{
    let n = prior.folder_ids.len() as int;
    what_is_put_back(prior, existing, n);
    let list = put_back(prior, existing, n);
    assert(prior.folder_ids.take(n) =~= prior.folder_ids);
    what_a_list_holds(list);
    assert(is_listed(list, folder) == as_places(list).dom().contains(folder));
    if exists|i: int|
        0 <= i < prior.folder_ids.len() && existing.contains(#[trigger] prior.folder_ids[i]) {
        let i = choose|i: int|
            0 <= i < prior.folder_ids.len() && existing.contains(#[trigger] prior.folder_ids[i]);
        assert(prior.folder_ids.contains(prior.folder_ids[i]));
        assert(is_listed(list, prior.folder_ids[i]));
    } else if list.len() > 0 {
        let f = list[0].0;
        assert(is_listed(list, f));
        let k = choose|k: int| 0 <= k < n && prior.folder_ids[k] == f;
        assert(existing.contains(prior.folder_ids[k]));
    }
}

/// The number a message was addressed by goes back to the folder it was
/// addressed at, and to no other: elsewhere the server knows it by another.
pub proof fn a_number_goes_back_to_its_folder(
    s: State,
    kind: ActionKind,
    prior: Prior,
    existing: Seq<i64>,
    folder: i64,
)
    requires
        moves(kind),
        prior.folder_ids.contains(folder),
        existing.contains(folder),
    ensures
        ({
            let after = restored(s, restore_of(kind, prior, existing));
            after.places[folder] == match prior.source_uid {
                Some(n) if prior.source_folder == Some(folder) => Some(n as i64),
                _ => None,
            }
        }),
{
    let n = prior.folder_ids.len() as int;
    what_is_put_back(prior, existing, n);
    let list = put_back(prior, existing, n);
    assert(prior.folder_ids.take(n) =~= prior.folder_ids);
    assert(is_listed(list, folder));
    numbers_put_back(prior, existing, n);
    match prior.source_folder {
        Some(from) => places_of_a_list(list, from, prior.source_uid),
        None => places_of_a_list(list, folder, None),
    }
    let i = choose|i: int| 0 <= i < list.len() && (#[trigger] list[i]).0 == folder;
    assert(as_places(list).dom().contains(folder));
    assert(list.len() > 0);
}

proof fn numbers_put_back(prior: Prior, existing: Seq<i64>, upto: int)
    requires
        0 <= upto <= prior.folder_ids.len(),
    ensures
        forall|i: int|
            0 <= i < put_back(prior, existing, upto).len() ==> (#[trigger] put_back(
                prior,
                existing,
                upto,
            )[i]).1 == if prior.source_folder == Some(put_back(prior, existing, upto)[i].0) {
                prior.source_uid
            } else {
                None::<u32>
            },
    decreases upto,
{
    if upto > 0 {
        numbers_put_back(prior, existing, upto - 1);
        let before = put_back(prior, existing, upto - 1);
        let all = put_back(prior, existing, upto);
        assert forall|i: int| 0 <= i < all.len() implies (#[trigger] all[i]).1
            == if prior.source_folder == Some(all[i].0) {
            prior.source_uid
        } else {
            None::<u32>
        } by {
            if i < before.len() {
                assert(all[i] == before[i]);
            }
        }
    }
}

proof fn what_is_put_back(prior: Prior, existing: Seq<i64>, upto: int)
    requires
        0 <= upto <= prior.folder_ids.len(),
    ensures
        forall|f: i64| #[trigger]
            is_listed(put_back(prior, existing, upto), f) <==> prior.folder_ids.take(upto).contains(
                f,
            ) && existing.contains(f),
    decreases upto,
{
    if upto > 0 {
        what_is_put_back(prior, existing, upto - 1);
        let before = put_back(prior, existing, upto - 1);
        let all = put_back(prior, existing, upto);
        let ids = prior.folder_ids.take(upto);
        assert(prior.folder_ids.take(upto - 1) =~= ids.drop_last());
        assert forall|f: i64| #[trigger] is_listed(all, f) <==> ids.contains(f)
            && existing.contains(f) by {
            if is_listed(all, f) {
                let i = choose|i: int| 0 <= i < all.len() && (#[trigger] all[i]).0 == f;
                if i < before.len() {
                    assert(before[i].0 == f);
                    assert(is_listed(before, f));
                    let k = choose|k: int| 0 <= k < ids.len() - 1 && ids.drop_last()[k] == f;
                    assert(ids[k] == f);
                } else {
                    assert(ids[upto - 1] == f);
                }
            }
            if existing.contains(f) && ids.contains(f) {
                let k = choose|k: int| 0 <= k < ids.len() && ids[k] == f;
                if k < upto - 1 {
                    assert(ids.drop_last()[k] == f);
                    assert(is_listed(before, f));
                    let i = choose|i: int| 0 <= i < before.len() && (#[trigger] before[i]).0 == f;
                    assert(all[i].0 == f);
                } else {
                    assert(all[before.len() as int].0 == f);
                }
            }
        }
    }
}

pub open spec fn is_listed(list: Seq<(i64, Option<u32>)>, folder: i64) -> bool {
    exists|i: int| 0 <= i < list.len() && (#[trigger] list[i]).0 == folder
}

proof fn what_a_list_holds(list: Seq<(i64, Option<u32>)>)
    ensures
        forall|f: i64|
            #[trigger] as_places(list).dom().contains(f) <==> exists|i: int|
                0 <= i < list.len() && (#[trigger] list[i]).0 == f,
    decreases list.len(),
{
    if list.len() > 0 {
        let front = list.drop_last();
        what_a_list_holds(front);
        let last = list.len() - 1;
        assert(list.last() == list[last]);
        assert forall|f: i64| #[trigger] as_places(list).dom().contains(f) <==> exists|i: int|
            0 <= i < list.len() && (#[trigger] list[i]).0 == f by {
            if as_places(list).dom().contains(f) && f != list[last].0 {
                assert(as_places(front).dom().contains(f));
                let i = choose|i: int| 0 <= i < front.len() && (#[trigger] front[i]).0 == f;
                assert(list[i].0 == f);
            }
            if exists|i: int| 0 <= i < list.len() && (#[trigger] list[i]).0 == f {
                let i = choose|i: int| 0 <= i < list.len() && (#[trigger] list[i]).0 == f;
                if i < last {
                    assert(front[i].0 == f);
                    assert(as_places(front).dom().contains(f));
                }
            }
        }
    }
}

} // verus!
