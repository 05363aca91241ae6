//! Which messages each view lists.
//!
//! A view is a condition on messages. Here each is written out as the
//! database is asked it, beside what it says of a message.

use super::views::{place_sql, Place};
use crate::text::{integer, replace_all};
use vstd::prelude::*;

verus! {

/// A folder a message is placed in.
pub struct Shelf {
    pub id: int,
    pub role: Seq<char>,
    /// Whether it lies below its account's archive.
    pub below_archive: bool,
}

/// A message, as far as a view asks about it.
pub struct Letter {
    pub shelves: Seq<Shelf>,
    pub tags: Seq<Seq<char>>,
    pub flags: u64,
    pub snoozed_until_ms: Option<int>,
    pub send_after_ms: Option<int>,
}

impl Letter {
    pub open spec fn is_under(self, role: Seq<char>) -> bool {
        exists|i: int| 0 <= i < self.shelves.len() && (#[trigger] self.shelves[i]).role == role
    }

    pub open spec fn is_below_archive(self) -> bool {
        exists|i: int| 0 <= i < self.shelves.len() && (#[trigger] self.shelves[i]).below_archive
    }

    pub open spec fn is_placed_in(self, id: int) -> bool {
        exists|i: int| 0 <= i < self.shelves.len() && (#[trigger] self.shelves[i]).id == id
    }

    pub open spec fn is_binned(self) -> bool {
        self.is_under("trash"@) || self.is_under("spam"@)
    }

    pub open spec fn is_asleep(self, now_ms: int) -> bool {
        self.snoozed_until_ms matches Some(until) && until > now_ms
    }
}

/// Whether a view lists a message.
pub open spec fn lists(place: Place, letter: Letter, now_ms: int) -> bool {
    match place {
        Place::Inbox => letter.is_under("inbox"@) && !letter.is_binned() && !letter.is_asleep(
            now_ms,
        ),
        Place::Starred => letter.flags & 4 != 0 && !letter.is_binned(),
        Place::Snoozed => letter.is_asleep(now_ms),
        Place::Outbox => letter.send_after_ms is Some,
        Place::Folder(role) => if role == "drafts"@ {
            letter.send_after_ms is None && letter.is_under(role)
        } else if role == "archive"@ {
            (letter.is_under(role) || letter.is_below_archive()) && !letter.is_under("inbox"@)
        } else {
            letter.is_under(role)
        },
        Place::UserFolder(id) => letter.is_placed_in(id),
        Place::Tag(name) => letter.tags.contains(name) && !letter.is_binned(),
        Place::All => true,
    }
}

/// The same, as the database is asked it. A role and the name of a tag are
/// bound as `?3`.
pub open spec fn asked_for(place: Place) -> Seq<char> {
    match place {
        Place::Inbox => "EXISTS (SELECT 1 FROM placements p
                 JOIN folders f ON f.id = p.folder_id
                 WHERE p.message_id = {alias}.id AND f.role = 'inbox')
         AND NOT EXISTS (SELECT 1 FROM placements p
                         JOIN folders f ON f.id = p.folder_id
                         WHERE p.message_id = {alias}.id
                           AND f.role IN ('trash','spam'))"@,
        Place::Starred => "{alias}.flags & 4 != 0 AND "@,
        Place::Snoozed =>
            "{alias}.snoozed_until_ms IS NOT NULL AND {alias}.snoozed_until_ms > (strftime('%s','now') * 1000)"@,
        Place::Outbox => "{alias}.send_after_ms IS NOT NULL"@,
        Place::Folder(role) => if role == "drafts"@ {
            "{alias}.send_after_ms IS NULL
                 AND EXISTS (SELECT 1 FROM placements p
                             JOIN folders f ON f.id = p.folder_id
                             WHERE p.message_id = {alias}.id AND f.role = ?3)"@
        } else if role == "archive"@ {
            "EXISTS (SELECT 1 FROM placements p
                         JOIN folders f ON f.id = p.folder_id
                         WHERE p.message_id = {alias}.id
                           AND (f.role = ?3
                                OR EXISTS (SELECT 1 FROM folders af
                                           WHERE af.role = 'archive'
                                             AND af.account_id = f.account_id
                                             AND (f.path LIKE af.path || '/%'
                                                  OR f.path LIKE af.path || '.%'))))
                 AND NOT EXISTS (SELECT 1 FROM placements p2
                                 JOIN folders f2 ON f2.id = p2.folder_id
                                 WHERE p2.message_id = {alias}.id AND f2.role = 'inbox')"@
        } else {
            "EXISTS (SELECT 1 FROM placements p
                         JOIN folders f ON f.id = p.folder_id
                         WHERE p.message_id = {alias}.id AND f.role = ?3)"@
        },
        Place::UserFolder(_) => "EXISTS (SELECT 1 FROM placements p
                         WHERE p.message_id = {alias}.id AND p.folder_id = {id})"@,
        Place::Tag(_) => "EXISTS (SELECT 1 FROM message_tags mt
                         JOIN tags tg ON tg.id = mt.tag_id
                         WHERE mt.message_id = {alias}.id AND tg.name = ?3)
                 AND "@,
        Place::All => "1=1"@,
    }
}

/// What keeps a view out of the bin.
pub open spec fn left_out() -> Seq<char> {
    "NOT EXISTS (SELECT 1 FROM placements p
                     JOIN folders f ON f.id = p.folder_id
                     WHERE p.message_id = {alias}.id
                       AND f.role IN ('trash','spam'))"@
}

/// What keeps the inbox to what is awake.
pub open spec fn awake() -> Seq<char> {
    " AND ({alias}.snoozed_until_ms IS NULL OR {alias}.snoozed_until_ms <= (strftime('%s','now') * 1000))"@
}

/// A view asks for the messages it lists, and no more.
pub proof fn a_view_asks_for_what_it_lists(place: Place, alias: Seq<char>)
    ensures
        place_sql(place, alias) == match place {
            Place::Inbox => replace_all(asked_for(place), "{alias}"@, alias) + replace_all(
                awake(),
                "{alias}"@,
                alias,
            ),
            Place::Starred | Place::Tag(_) => replace_all(asked_for(place), "{alias}"@, alias)
                + replace_all(left_out(), "{alias}"@, alias),
            Place::UserFolder(id) => replace_all(
                replace_all(asked_for(place), "{alias}"@, alias),
                "{id}"@,
                integer(id),
            ),
            Place::All => asked_for(place),
            _ => replace_all(asked_for(place), "{alias}"@, alias),
        },
{
}

/// Mail put aside is out of the inbox and among what is snoozed, and comes
/// back by itself. What is thrown away is in no list but its own folder and
/// the ones that leave nothing out.
pub proof fn snoozing_hides_and_brings_back(letter: Letter, now_ms: int)
    requires
        letter.is_under("inbox"@),
        !letter.is_binned(),
    ensures
        lists(Place::Inbox, letter, now_ms) != lists(Place::Snoozed, letter, now_ms),
        letter.snoozed_until_ms matches Some(until) ==> (now_ms >= until ==> lists(
            Place::Inbox,
            letter,
            now_ms,
        )),
        !lists(Place::Folder("archive"@), letter, now_ms),
{
    reveal_strlit("archive");
    reveal_strlit("drafts");
    assert("archive"@.len() == 7 && "drafts"@.len() == 6);
}

} // verus!
