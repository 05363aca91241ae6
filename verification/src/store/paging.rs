//! The conversations one page of a list shows.
//!
//! Messages are walked in the list's order and the first sighting of each
//! conversation is kept, until the page is full. A cursor names a row the
//! caller already has: walking continues past it rather than from a numeric
//! offset, so new mail at the top does not shift every later page.

use crate::order::{text_before, texts_are_ordered};
use crate::store::views::{Sort, SortKey};
use crate::text::chars_of;
use std::collections::HashSet;
use vstd::prelude::*;

verus! {

broadcast use vstd::std_specs::hash::group_hash_axioms;

// ---------------------------------------------------------------------
// Order
// ---------------------------------------------------------------------
/// Whether a row comes strictly after a cursor in a sender or subject sort:
/// conversations with nothing in the field last whichever way the sort runs,
/// then the field itself in the sort's direction, then newest first within a
/// tie.
pub open spec fn comes_after(
    value: Seq<char>,
    date_ms: int,
    cursor: Seq<char>,
    cursor_ms: int,
    ascending: bool,
) -> bool {
    if (value.len() == 0) != (cursor.len() == 0) {
        value.len() == 0
    } else if value != cursor {
        if ascending {
            text_before(cursor, value)
        } else {
            text_before(value, cursor)
        }
    } else {
        date_ms < cursor_ms
    }
}

fn before_text(a: &[char], b: &[char]) -> (r: bool)
    ensures
        r == text_before(a@, b@),
{
    let mut i: usize = 0;
    assert(a@.skip(0) =~= a@);
    assert(b@.skip(0) =~= b@);
    while i < a.len() && i < b.len()
        invariant
            i <= a@.len(),
            i <= b@.len(),
            text_before(a@, b@) == text_before(a@.skip(i as int), b@.skip(i as int)),
        decreases a@.len() - i,
    {
        assert(a@.skip(i as int).skip(1) =~= a@.skip(i + 1));
        assert(b@.skip(i as int).skip(1) =~= b@.skip(i + 1));
        if a[i] != b[i] {
            return a[i] < b[i];
        }
        i += 1;
    }
    i < b.len()
}

/// Whether a row comes strictly after a cursor in a sender or subject sort.
pub fn sorts_after(value: &str, date_ms: i64, cursor: &str, cursor_ms: i64, ascending: bool) -> (r:
    bool)
    ensures
        r == comes_after(value@, date_ms as int, cursor@, cursor_ms as int, ascending),
{
    let value = chars_of(value);
    let cursor = chars_of(cursor);
    if (value.len() == 0) != (cursor.len() == 0) {
        return value.len() == 0;
    }
    if !crate::text::same_chars(&value, &cursor) {
        return if ascending {
            before_text(&cursor, &value)
        } else {
            before_text(&value, &cursor)
        };
    }
    date_ms < cursor_ms
}

/// Of two different rows of a sender or subject sort, one comes after the
/// other and not the other way about.
pub proof fn one_row_comes_after(
    a: Seq<char>,
    a_ms: int,
    b: Seq<char>,
    b_ms: int,
    ascending: bool,
)
    ensures
        !(comes_after(a, a_ms, b, b_ms, ascending) && comes_after(b, b_ms, a, a_ms, ascending)),
        a == b && a_ms == b_ms ==> !comes_after(a, a_ms, b, b_ms, ascending),
{
    texts_are_ordered(a, b, b);
    texts_are_ordered(b, a, a);
}

// ---------------------------------------------------------------------
// The walk
// ---------------------------------------------------------------------
/// One message on the way down a list.
#[derive(Debug, Clone)]
pub struct PageRow {
    /// The conversation it is in.
    pub key: i64,
    pub date_ms: i64,
    /// What the conversation sorts under, in a sender or subject sort.
    pub value: String,
}

#[verifier::ext_equal]
pub struct Step {
    pub key: i64,
    pub date_ms: i64,
    pub value: Seq<char>,
}

impl View for PageRow {
    type V = Step;

    open spec fn view(&self) -> Step {
        Step { key: self.key, date_ms: self.date_ms, value: self.value@ }
    }
}

/// What a page was asked for.
#[verifier::ext_equal]
pub struct PageAsk {
    pub sort: Sort,
    pub limit: nat,
    pub offset: nat,
    /// The date and the conversation of the last row the caller has.
    pub before: Option<(i64, i64)>,
    /// What that conversation sorts under, in a sender or subject sort.
    pub cursor_value: Option<Seq<char>>,
}

impl PageAsk {
    /// How many conversations are collected. The walk looks at what it has
    /// after each one, so there is always room for the first.
    pub open spec fn room(self) -> nat {
        let want = if self.before is Some {
            self.limit
        } else {
            self.offset + self.limit
        };
        if want == 0 {
            1
        } else {
            want
        }
    }

    /// Whether this row is the one the cursor names. By date the cursor is a
    /// position, so no row is.
    pub open spec fn is_cursor(self, row: Step) -> bool {
        self.before matches Some((_, key)) && self.sort.key != SortKey::Date && row.key == key
    }

    /// Whether a row lies past the cursor.
    pub open spec fn is_past(self, row: Step) -> bool {
        match self.before {
            None => true,
            Some((date_ms, key)) => if self.sort.key == SortKey::Date {
                if self.sort.ascending {
                    row.date_ms > date_ms || (row.date_ms == date_ms && row.key > key)
                } else {
                    row.date_ms < date_ms || (row.date_ms == date_ms && row.key < key)
                }
            } else {
                self.cursor_value matches Some(value) && comes_after(
                    row.value,
                    row.date_ms as int,
                    value,
                    date_ms as int,
                    self.sort.ascending,
                )
            },
        }
    }
}

/// How far a walk has got.
#[verifier::ext_equal]
pub struct Walk {
    pub seen: Set<i64>,
    pub skipping: bool,
    pub kept: Seq<i64>,
}

impl Walk {
    pub open spec fn start(ask: PageAsk) -> Walk {
        Walk { seen: Set::empty(), skipping: ask.before is Some, kept: Seq::empty() }
    }

    pub open spec fn is_full(self, ask: PageAsk) -> bool {
        self.kept.len() >= ask.room()
    }

    pub open spec fn next(self, row: Step, ask: PageAsk) -> Walk {
        if self.seen.contains(row.key) {
            self
        } else {
            let now = Walk { seen: self.seen.insert(row.key), ..self };
            if self.skipping && ask.is_cursor(row) {
                Walk { skipping: false, ..now }
            } else if self.skipping && !ask.is_past(row) {
                now
            } else {
                Walk { skipping: false, kept: self.kept.push(row.key), ..now }
            }
        }
    }
}

/// The walk over some rows, ended where the page is full.
pub open spec fn walked(rows: Seq<Step>, ask: PageAsk) -> Walk
    decreases rows.len(),
{
    if rows.len() == 0 {
        Walk::start(ask)
    } else {
        let before = walked(rows.drop_last(), ask);
        if before.is_full(ask) {
            before
        } else {
            before.next(rows.last(), ask)
        }
    }
}

pub open spec fn finished(walk: Walk, ask: PageAsk) -> Seq<i64> {
    if ask.before is Some {
        walk.kept
    } else if ask.offset <= walk.kept.len() {
        walk.kept.skip(ask.offset as int)
    } else {
        Seq::empty()
    }
}

/// A page being collected.
pub struct PageWalk {
    sort: Sort,
    limit: u32,
    offset: u32,
    before: Option<(i64, i64)>,
    cursor_value: Option<String>,
    seen: HashSet<i64>,
    skipping: bool,
    kept: Vec<i64>,
}

impl PageWalk {
    pub closed spec fn ask(&self) -> PageAsk {
        PageAsk {
            sort: self.sort,
            limit: self.limit as nat,
            offset: self.offset as nat,
            before: self.before,
            cursor_value: match self.cursor_value {
                Some(value) => Some(value@),
                None => None,
            },
        }
    }

    pub fn new(
        sort: Sort,
        limit: u32,
        offset: u32,
        before: Option<(i64, i64)>,
        cursor_value: Option<String>,
    ) -> (walk: PageWalk)
        ensures
            walk.ask() == (PageAsk {
                sort,
                limit: limit as nat,
                offset: offset as nat,
                before,
                cursor_value: match cursor_value {
                    Some(value) => Some(value@),
                    None => None,
                },
            }),
            walk@ == Walk::start(walk.ask()),
    {
        let skipping = before.is_some();
        PageWalk {
            sort,
            limit,
            offset,
            before,
            cursor_value,
            seen: HashSet::new(),
            skipping,
            kept: Vec::new(),
        }
    }

    fn at_cursor(&self, row: &PageRow) -> (r: bool)
        ensures
            r == self.ask().is_cursor(row@),
    {
        match self.before {
            Some((_, key)) => self.sort.key != SortKey::Date && row.key == key,
            None => false,
        }
    }

    fn past_cursor(&self, row: &PageRow) -> (r: bool)
        ensures
            r == self.ask().is_past(row@),
    {
        match self.before {
            None => true,
            Some((date_ms, key)) => {
                if self.sort.key == SortKey::Date {
                    if self.sort.ascending {
                        row.date_ms > date_ms || (row.date_ms == date_ms && row.key > key)
                    } else {
                        row.date_ms < date_ms || (row.date_ms == date_ms && row.key < key)
                    }
                } else {
                    match &self.cursor_value {
                        Some(value) => sorts_after(
                            &row.value,
                            row.date_ms,
                            value,
                            date_ms,
                            self.sort.ascending,
                        ),
                        None => false,
                    }
                }
            },
        }
    }

    /// One more row. Every conversation met on the way down is remembered, and
    /// that is what keeps an older message of one already passed from looking
    /// like a new row.
    pub fn step(&mut self, row: &PageRow)
        ensures
            final(self)@ == old(self)@.next(row@, old(self).ask()),
            final(self).ask() == old(self).ask(),
    {
        if self.seen.contains(&row.key) {
            return;
        }
        self.seen.insert(row.key);
        if self.skipping {
            if self.at_cursor(row) {
                self.skipping = false;
                return;
            }
            if !self.past_cursor(row) {
                return;
            }
            self.skipping = false;
        }
        self.kept.push(row.key);
    }

    /// Whether the page is full, and the walk over.
    pub fn is_full(&self) -> (r: bool)
        ensures
            r == self@.is_full(self.ask()),
    {
        let want: u64 = if self.before.is_some() {
            self.limit as u64
        } else {
            self.offset as u64 + self.limit as u64
        };
        let have = self.kept.len();
        have > 0 && have as u64 >= want
    }

    /// The conversations of the page, in the list's order.
    pub fn finish(self) -> (keys: Vec<i64>)
        ensures
            keys@ == finished(self@, self.ask()),
    {
        if self.before.is_some() {
            return self.kept;
        }
        let mut out: Vec<i64> = Vec::new();
        let mut i: usize = 0;
        let from = self.offset as u64;
        let ghost offset = self.ask().offset as int;
        let ghost kept = self.kept@;
        while i < self.kept.len()
            invariant
                i <= self.kept@.len(),
                kept == self.kept@,
                offset == from,
                out@ == if i <= offset {
                    Seq::empty()
                } else {
                    kept.subrange(offset, i as int)
                },
            decreases self.kept@.len() - i,
        {
            if i as u64 >= from {
                out.push(self.kept[i]);
            }
            i += 1;
            assert(out@ =~= if i <= offset {
                Seq::empty()
            } else {
                kept.subrange(offset, i as int)
            });
        }
        assert(out@ =~= finished(self@, self.ask()));
        out
    }
}

impl View for PageWalk {
    type V = Walk;

    closed spec fn view(&self) -> Walk {
        Walk { seen: self.seen@, skipping: self.skipping, kept: self.kept@ }
    }
}

/// The conversations one page shows, from rows already in hand.
pub fn page_of(
    rows: &Vec<PageRow>,
    sort: Sort,
    limit: u32,
    offset: u32,
    before: Option<(i64, i64)>,
    cursor_value: Option<String>,
) -> (keys: Vec<i64>)
    ensures
        ({
            let ask = PageAsk {
                sort,
                limit: limit as nat,
                offset: offset as nat,
                before,
                cursor_value: match cursor_value {
                    Some(value) => Some(value@),
                    None => None,
                },
            };
            keys@ == finished(walked(steps(rows@), ask), ask)
        }),
{
    let mut walk = PageWalk::new(sort, limit, offset, before, cursor_value);
    let ghost ask = walk.ask();
    let ghost all = steps(rows@);
    let mut i: usize = 0;
    assert(all.take(0) =~= Seq::<Step>::empty());
    while i < rows.len()
        invariant
            i <= rows@.len(),
            all == steps(rows@),
            walk.ask() == ask,
            walk@ == walked(all.take(i as int), ask),
        decreases rows@.len() - i,
    {
        assert(all.take(i + 1).drop_last() =~= all.take(i as int));
        assert(all.take(i + 1).last() == rows@[i as int]@);
        if !walk.is_full() {
            walk.step(&rows[i]);
        }
        i += 1;
    }
    assert(all.take(i as int) =~= all);
    walk.finish()
}

pub open spec fn steps(rows: Seq<PageRow>) -> Seq<Step> {
    rows.map_values(|row: PageRow| row@)
}

// ---------------------------------------------------------------------
// What a page is
// ---------------------------------------------------------------------
pub open spec fn has_key(rows: Seq<Step>, key: i64) -> bool {
    exists|i: int| 0 <= i < rows.len() && (#[trigger] rows[i]).key == key
}

/// The first sighting of each conversation, in order.
pub open spec fn first_sightings(rows: Seq<Step>) -> Seq<Step>
    decreases rows.len(),
{
    if rows.len() == 0 {
        Seq::empty()
    } else {
        let front = first_sightings(rows.drop_last());
        if has_key(front, rows.last().key) {
            front
        } else {
            front.push(rows.last())
        }
    }
}

/// Where the page begins among the conversations: just past the cursor's own
/// row, or at the first one that lies past it.
pub open spec fn page_start(conversations: Seq<Step>, ask: PageAsk) -> Option<int>
    decreases conversations.len(),
{
    if ask.before is None {
        Some(0)
    } else if conversations.len() == 0 {
        None
    } else {
        match page_start(conversations.drop_last(), ask) {
            Some(at) => Some(at),
            None => if ask.is_cursor(conversations.last()) {
                Some(conversations.len() as int)
            } else if ask.is_past(conversations.last()) {
                Some(conversations.len() - 1)
            } else {
                None
            },
        }
    }
}

pub open spec fn keys_of(rows: Seq<Step>) -> Seq<i64> {
    rows.map_values(|row: Step| row.key)
}

/// The conversations of a page: those from where it begins, as many as there
/// is room for.
pub open spec fn page_keys(rows: Seq<Step>, ask: PageAsk) -> Seq<i64> {
    let conversations = first_sightings(rows);
    match page_start(conversations, ask) {
        None => Seq::empty(),
        Some(at) => {
            let from = keys_of(conversations).skip(at);
            if from.len() > ask.room() {
                from.take(ask.room() as int)
            } else {
                from
            }
        },
    }
}

proof fn page_starts_inside(conversations: Seq<Step>, ask: PageAsk)
    ensures
        page_start(conversations, ask) matches Some(at) ==> 0 <= at <= conversations.len(),
    decreases conversations.len(),
{
    if ask.before is Some && conversations.len() > 0 {
        page_starts_inside(conversations.drop_last(), ask);
    }
}

proof fn sightings_are_the_rows(rows: Seq<Step>, key: i64)
    ensures
        has_key(first_sightings(rows), key) == has_key(rows, key),
    decreases rows.len(),
{
    if rows.len() > 0 {
        let front = rows.drop_last();
        sightings_are_the_rows(front, key);
        let kept = first_sightings(front);
        let now = first_sightings(rows);
        if has_key(kept, key) {
            let k = choose|k: int| 0 <= k < kept.len() && (#[trigger] kept[k]).key == key;
            assert(now[k] == kept[k]);
        }
        if has_key(front, key) {
            let k = choose|k: int| 0 <= k < front.len() && (#[trigger] front[k]).key == key;
            assert(rows[k].key == key);
        }
        if rows.last().key == key {
            assert(rows[rows.len() - 1].key == key);
            if !has_key(kept, key) {
                assert(now[now.len() - 1].key == key);
            }
        }
        if has_key(rows, key) && !has_key(front, key) {
            let k = choose|k: int| 0 <= k < rows.len() && (#[trigger] rows[k]).key == key;
            if k < front.len() {
                assert(front[k].key == key);
            }
        }
        if has_key(now, key) && !has_key(kept, key) {
            let k = choose|k: int| 0 <= k < now.len() && (#[trigger] now[k]).key == key;
            if k < kept.len() {
                assert(kept[k].key == key);
            }
        }
    }
}

/// Until the page is full, the walk has collected the page so far.
proof fn walk_keeps_the_page(rows: Seq<Step>, ask: PageAsk)
    ensures
        walked(rows, ask).kept == page_keys(rows, ask),
        !walked(rows, ask).is_full(ask) ==> {
            &&& forall|key: i64| walked(rows, ask).seen.contains(key) == has_key(rows, key)
            &&& walked(rows, ask).skipping == (page_start(first_sightings(rows), ask) is None)
        },
        walked(rows, ask).kept.len() <= ask.room(),
    decreases rows.len(),
{
    if rows.len() == 0 {
        let none = Seq::<Step>::empty();
        assert(first_sightings(rows) =~= none);
        assert(keys_of(none).skip(0) =~= Seq::<i64>::empty());
    } else {
        let front = rows.drop_last();
        let row = rows.last();
        walk_keeps_the_page(front, ask);
        assert(front.push(row) =~= rows);
        let before = walked(front, ask);
        let seen = first_sightings(front);
        let now = first_sightings(rows);
        page_starts_inside(seen, ask);
        sightings_are_the_rows(front, row.key);
        if now.len() > seen.len() {
            assert(now.drop_last() =~= seen);
            assert(keys_of(now) =~= keys_of(seen).push(row.key));
            if let Some(at) = page_start(seen, ask) {
                assert(keys_of(now).skip(at) =~= keys_of(seen).skip(at).push(row.key));
                let old_from = keys_of(seen).skip(at);
                let from = keys_of(now).skip(at);
                if old_from.len() >= ask.room() {
                    assert(from.take(ask.room() as int) =~= old_from.take(ask.room() as int));
                    assert(old_from.take(old_from.len() as int) =~= old_from);
                }
            } else {
                assert(keys_of(now).skip(now.len() as int) =~= Seq::<i64>::empty());
                assert(keys_of(now).skip(now.len() - 1) =~= seq![row.key]);
            }
        }
        if before.is_full(ask) {
        } else {
            assert(before.seen.contains(row.key) == has_key(front, row.key));
            let after = walked(rows, ask);
            if has_key(front, row.key) {
                assert forall|key: i64| after.seen.contains(key) == has_key(rows, key) by {
                    assert(before.seen.contains(key) == has_key(front, key));
                    keys_with_one_more(front, row, key);
                }
            } else {
                assert(after.kept =~= page_keys(rows, ask));
                assert forall|key: i64| after.seen.contains(key) == has_key(rows, key) by {
                    assert(before.seen.contains(key) == has_key(front, key));
                    keys_with_one_more(front, row, key);
                }
            }
        }
    }
}

proof fn keys_with_one_more(front: Seq<Step>, row: Step, key: i64)
    ensures
        has_key(front.push(row), key) == (has_key(front, key) || row.key == key),
{
    let all = front.push(row);
    if has_key(front, key) {
        let k = choose|k: int| 0 <= k < front.len() && (#[trigger] front[k]).key == key;
        assert(all[k].key == key);
    }
    if row.key == key {
        assert(all[all.len() - 1].key == key);
    }
    if has_key(all, key) {
        let k = choose|k: int| 0 <= k < all.len() && (#[trigger] all[k]).key == key;
        if k < front.len() {
            assert(front[k].key == key);
        }
    }
}

/// The walk, stopped as soon as the page is full, collects exactly the page:
/// the conversations past the cursor, each once, in the list's order.
pub proof fn the_walk_collects_the_page(rows: Seq<Step>, ask: PageAsk)
    ensures
        walked(rows, ask).kept == page_keys(rows, ask),
{
    walk_keeps_the_page(rows, ask);
}

proof fn sightings_differ(rows: Seq<Step>)
    ensures
        forall|a: int, b: int|
            0 <= a < b < first_sightings(rows).len() ==> (#[trigger] first_sightings(rows)[a]).key
                != (#[trigger] first_sightings(rows)[b]).key,
    decreases rows.len(),
{
    if rows.len() > 0 {
        sightings_differ(rows.drop_last());
        let kept = first_sightings(rows.drop_last());
        let now = first_sightings(rows);
        if !has_key(kept, rows.last().key) {
            assert forall|a: int, b: int| 0 <= a < b < now.len() implies (#[trigger] now[a]).key
                != (#[trigger] now[b]).key by {
                assert(now[a] == kept[a]);
                if b < kept.len() {
                    assert(now[b] == kept[b]);
                }
            }
        }
    }
}

/// No conversation is on a page twice.
pub proof fn no_conversation_twice(rows: Seq<Step>, ask: PageAsk)
    ensures
        page_keys(rows, ask).no_duplicates(),
{
    let conversations = first_sightings(rows);
    sightings_differ(rows);
    page_starts_inside(conversations, ask);
    let page = page_keys(rows, ask);
    if let Some(at) = page_start(conversations, ask) {
        assert forall|a: int, b: int| 0 <= a < page.len() && 0 <= b < page.len() && a != b implies
            page[a] != page[b] by {
            assert(page[a] == conversations[at + a].key);
            assert(page[b] == conversations[at + b].key);
            if a < b {
                assert(conversations[at + a].key != conversations[at + b].key);
            } else {
                assert(conversations[at + b].key != conversations[at + a].key);
            }
        }
    }
}

// ---------------------------------------------------------------------
// Which way a page runs
// ---------------------------------------------------------------------
/// By name a list runs A to Z, or Z to A where it is turned round, newest
/// first where the names are alike; what has no name comes last either way.
pub proof fn a_list_by_name_runs_one_way(
    value: Seq<char>,
    date_ms: int,
    cursor: Seq<char>,
    cursor_ms: int,
    ascending: bool,
)
    ensures
        value.len() == 0 && cursor.len() > 0 ==> comes_after(
            value,
            date_ms,
            cursor,
            cursor_ms,
            ascending,
        ),
        value.len() > 0 && cursor.len() == 0 ==> !comes_after(
            value,
            date_ms,
            cursor,
            cursor_ms,
            ascending,
        ),
        value == cursor ==> comes_after(value, date_ms, cursor, cursor_ms, ascending) == (date_ms
            < cursor_ms),
        value.len() > 0 && cursor.len() > 0 && value[0] > cursor[0] ==> comes_after(
            value,
            date_ms,
            cursor,
            cursor_ms,
            ascending,
        ) == ascending,
        value.len() > 0 && cursor.len() > 0 && value[0] < cursor[0] ==> comes_after(
            value,
            date_ms,
            cursor,
            cursor_ms,
            ascending,
        ) == !ascending,
{
}

/// By date a page goes on where the last one ended: with what is older, or
/// with what is newer where the list is turned round, and of what is as old by
/// the number of the conversation the same way. Nothing is passed over and
/// nothing comes twice.
pub proof fn a_page_goes_on_where_the_last_one_ended(ask: PageAsk, row: Step)
    requires
        ask.sort.key == SortKey::Date,
    ensures
        ask.before matches Some((date_ms, key)) ==> {
            &&& row.date_ms < date_ms ==> ask.is_past(row) == !ask.sort.ascending
            &&& row.date_ms > date_ms ==> ask.is_past(row) == ask.sort.ascending
            &&& row.date_ms == date_ms && row.key < key ==> ask.is_past(row) == !ask.sort.ascending
            &&& row.date_ms == date_ms && row.key > key ==> ask.is_past(row) == ask.sort.ascending
            &&& row.date_ms == date_ms && row.key == key ==> !ask.is_past(row)
        },
        ask.before is None ==> ask.is_past(row),
        !ask.is_cursor(row),
{
}

/// A page is as long as was asked for, where there is that much, and begins
/// as far in as was asked for.
pub proof fn a_page_is_as_long_as_was_asked_for(rows: Seq<Step>, ask: PageAsk)
    requires
        ask.limit > 0,
    ensures
        ask.before is Some ==> finished(walked(rows, ask), ask) == page_keys(rows, ask)
            && page_keys(rows, ask).len() <= ask.limit,
        ask.before is None ==> {
            let all = keys_of(first_sightings(rows));
            &&& finished(walked(rows, ask), ask).len() <= ask.limit
            &&& all.len() >= ask.offset + ask.limit ==> finished(walked(rows, ask), ask)
                == all.subrange(ask.offset as int, (ask.offset + ask.limit) as int)
        },
{
    walk_keeps_the_page(rows, ask);
    if ask.before is None {
        let conversations = first_sightings(rows);
        let all = keys_of(conversations);
        assert(all.skip(0) =~= all);
        if all.len() >= ask.offset + ask.limit {
            assert(finished(walked(rows, ask), ask) =~= all.subrange(
                ask.offset as int,
                (ask.offset + ask.limit) as int,
            ));
        }
    }
}

} // verus!
