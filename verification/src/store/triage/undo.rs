//! Taking an action back.
//!
//! Only the part of the snapshot that the action touched is put back: flags
//! for a flag, folders for a move, tags for a tag. Restoring all of it would
//! replay it over whatever came later.

use crate::actions::{ActionKind, Prior, PriorState};
use crate::store::views::{FLAGGED, SEEN};
use crate::text::same;
use vstd::prelude::*;

verus! {

/// What puts back what an action replaced, in one message.
#[derive(Debug, Clone, PartialEq, Eq)]
pub enum Restore {
    Nothing,
    /// One bit of the flags, as it was.
    Flag { bit: i64, flags: i64 },
    /// These tags and no others.
    Tags(Vec<i64>),
    Snooze(Option<i64>),
    /// These folders and no others, each with the number the server knows the
    /// message by, where that is known.
    Places(Vec<(i64, Option<u32>)>),
}

#[verifier::ext_equal]
pub enum Restoring {
    Nothing,
    Flag { bit: i64, flags: i64 },
    Tags(Seq<i64>),
    Snooze(Option<i64>),
    Places(Seq<(i64, Option<u32>)>),
}

impl View for Restore {
    type V = Restoring;

    open spec fn view(&self) -> Restoring {
        match self {
            Restore::Nothing => Restoring::Nothing,
            Restore::Flag { bit, flags } => Restoring::Flag { bit: *bit, flags: *flags },
            Restore::Tags(tags) => Restoring::Tags(tags@),
            Restore::Snooze(until) => Restoring::Snooze(*until),
            Restore::Places(places) => Restoring::Places(places@),
        }
    }
}

/// Whether an action can still be taken back: it is waiting, or it never goes
/// anywhere, and it is not a deletion for good. Once it has reached the
/// server, undoing is a new action.
pub open spec fn can_be_undone(state: Seq<char>, kind: ActionKind) -> bool {
    (state == "queued"@ || state == "local"@) && kind != ActionKind::DeleteForever
}

pub fn may_undo(state: &str, kind: ActionKind) -> (r: bool)
    ensures
        r == can_be_undone(state@, kind),
{
    (same(state, "queued") || same(state, "local")) && kind.is_undoable()
}

/// The flag an action is about.
pub open spec fn flag_of(kind: ActionKind) -> Option<i64> {
    match kind {
        ActionKind::MarkRead | ActionKind::MarkUnread => Some(SEEN),
        ActionKind::Star | ActionKind::Unstar => Some(FLAGGED),
        _ => None,
    }
}

/// The folders a message is put back into: those it was in that are still
/// there. The number goes with the one it was addressed at.
pub open spec fn put_back(prior: Prior, existing: Seq<i64>, upto: int) -> Seq<(i64, Option<u32>)>
    decreases upto,
{
    if upto <= 0 {
        Seq::empty()
    } else {
        let folder = prior.folder_ids[upto - 1];
        let so_far = put_back(prior, existing, upto - 1);
        if existing.contains(folder) {
            so_far.push(
                (
                    folder,
                    if prior.source_folder == Some(folder) {
                        prior.source_uid
                    } else {
                        None
                    },
                ),
            )
        } else {
            so_far
        }
    }
}

/// What puts back what an action replaced. A message that can be put back
/// nowhere keeps the folder it has rather than being left with none.
pub open spec fn restore_of(kind: ActionKind, prior: Prior, existing: Seq<i64>) -> Restoring {
    match kind {
        ActionKind::MarkRead | ActionKind::MarkUnread => Restoring::Flag {
            bit: SEEN,
            flags: prior.flags,
        },
        ActionKind::Star | ActionKind::Unstar => Restoring::Flag {
            bit: FLAGGED,
            flags: prior.flags,
        },
        ActionKind::Tag | ActionKind::Untag => Restoring::Tags(prior.tag_ids),
        ActionKind::Snooze | ActionKind::Unsnooze => Restoring::Snooze(prior.snoozed_until),
        ActionKind::Archive | ActionKind::Trash | ActionKind::Spam | ActionKind::Move => {
            let places = put_back(prior, existing, prior.folder_ids.len() as int);
            if places.len() == 0 {
                Restoring::Nothing
            } else {
                Restoring::Places(places)
            }
        },
        ActionKind::DeleteForever => Restoring::Nothing,
    }
}

fn holds(ids: &Vec<i64>, id: i64) -> (r: bool)
    ensures
        r == ids@.contains(id),
{
    let mut i: usize = 0;
    while i < ids.len()
        invariant
            i <= ids@.len(),
            forall|j: int| 0 <= j < i ==> ids@[j] != id,
        decreases ids@.len() - i,
    {
        if ids[i] == id {
            return true;
        }
        i += 1;
    }
    false
}

fn copy_ids(ids: &Vec<i64>) -> (out: Vec<i64>)
    ensures
        out@ == ids@,
{
    let mut out: Vec<i64> = Vec::new();
    let mut i: usize = 0;
    while i < ids.len()
        invariant
            i <= ids@.len(),
            out@ == ids@.take(i as int),
        decreases ids@.len() - i,
    {
        out.push(ids[i]);
        i += 1;
    }
    assert(ids@.take(i as int) =~= ids@);
    out
}

/// What puts back what an action replaced in one message. `existing` are the
/// folders there still are.
pub fn restore_for(kind: ActionKind, prior: &PriorState, existing: &Vec<i64>) -> (r: Restore)
    ensures
        r@ == restore_of(kind, prior@, existing@),
{
    match kind {
        ActionKind::MarkRead | ActionKind::MarkUnread => Restore::Flag {
            bit: SEEN,
            flags: prior.flags,
        },
        ActionKind::Star | ActionKind::Unstar => Restore::Flag {
            bit: FLAGGED,
            flags: prior.flags,
        },
        ActionKind::Tag | ActionKind::Untag => Restore::Tags(copy_ids(&prior.tag_ids)),
        ActionKind::Snooze | ActionKind::Unsnooze => Restore::Snooze(prior.snoozed_until),
        ActionKind::DeleteForever => Restore::Nothing,
        ActionKind::Archive | ActionKind::Trash | ActionKind::Spam | ActionKind::Move => {
            let mut places: Vec<(i64, Option<u32>)> = Vec::new();
            let mut i: usize = 0;
            while i < prior.folder_ids.len()
                invariant
                    i <= prior.folder_ids@.len(),
                    places@ == put_back(prior@, existing@, i as int),
                decreases prior.folder_ids@.len() - i,
            {
                let folder = prior.folder_ids[i];
                if holds(existing, folder) {
                    let uid = match prior.source_folder {
                        Some(from) => if from == folder {
                            prior.source_uid
                        } else {
                            None
                        },
                        None => None,
                    };
                    places.push((folder, uid));
                }
                i += 1;
            }
            if places.len() == 0 {
                Restore::Nothing
            } else {
                Restore::Places(places)
            }
        },
    }
}

} // verus!
