//! What the statements found, as one list of conversations.

use crate::order::{
    is_all_positions, is_stable_order, order_of_numbers, order_of_texts, positions, smaller, sooner,
    text_before, the_least_comes_first,
};
use crate::search_query::calendar::march_day_number;
use crate::search_query::Day;
use crate::store::rows::ThreadListing;
use crate::store::views::{Sort, SortKey};
use crate::text::{
    all_digits, append_chars, are_digits, char_position, chars_of, fill, find_char,
    first_char_is_found, is_digit, lower, lowered,
    number, number_of, padded, padded_chars, put, replace_all, string_of, texts,
};
use vstd::prelude::*;
use vstd::slice::slice_subrange;

verus! {

/// A message a search found, before anyone has asked why.
#[derive(Debug, Clone, Copy, PartialEq, Eq, Structural)]
pub struct Hit {
    pub id: i64,
    /// Only a listing is ordered by date; a ranked hit leaves this at zero.
    pub date_ms: i64,
    /// Which alternative's words found it: what its snippet is made with.
    /// `None` when it met conditions and no words were asked.
    pub from: Option<usize>,
}

/// A hit and its rank: the lower, the better the match.
#[derive(Debug, Clone, Copy, PartialEq, Eq, Structural)]
pub struct RankedHit {
    pub rank: i64,
    pub hit: Hit,
}

// ---------------------------------------------------------------------
// One list
// ---------------------------------------------------------------------
pub open spec fn ranks(hits: Seq<RankedHit>) -> Seq<i64> {
    hits.map_values(|h: RankedHit| h.rank)
}

/// How old each hit is, the newest least.
pub open spec fn ages(hits: Seq<Hit>) -> Seq<i64> {
    hits.map_values(|h: Hit| age(h.date_ms))
}

/// A date turned round, so that the newest comes first: smaller for later.
pub open spec fn age(date_ms: i64) -> i64 {
    (-1 - date_ms) as i64
}

/// Things put in an order.
pub open spec fn arranged<T>(things: Seq<T>, order: Seq<int>) -> Seq<T> {
    order.map_values(|i: int| things[i])
}

/// Whether a list of hits has this message already.
pub open spec fn has_message(hits: Seq<Hit>, id: i64) -> bool {
    exists|i: int| 0 <= i < hits.len() && (#[trigger] hits[i]).id == id
}

/// The first hit for each message, in order.
pub open spec fn first_of_each(hits: Seq<Hit>) -> Seq<Hit>
    decreases hits.len(),
{
    if hits.len() == 0 {
        Seq::empty()
    } else {
        let front = first_of_each(hits.drop_last());
        if has_message(front, hits.last().id) {
            front
        } else {
            front.push(hits.last())
        }
    }
}

pub open spec fn just_hits(hits: Seq<RankedHit>) -> Seq<Hit> {
    hits.map_values(|h: RankedHit| h.hit)
}

/// Every statement's hits, as one list.
///
/// What matched words comes first, best match first, because that is the one
/// order only a search can offer. What merely met conditions follows, newest
/// first, the way a listing is. A message found twice keeps its first place.
pub open spec fn is_merged(
    out: Seq<Hit>,
    ranked: Seq<RankedHit>,
    dated: Seq<Hit>,
    by_rank: Seq<usize>,
    by_date: Seq<usize>,
) -> bool {
    &&& is_stable_order(by_rank, ranked.len() as int, smaller(ranks(ranked)))
    &&& is_stable_order(by_date, dated.len() as int, smaller(ages(dated)))
    &&& out == first_of_each(
        arranged(just_hits(ranked), positions(by_rank)) + arranged(dated, positions(by_date)),
    )
}

fn seen_message(hits: &Vec<Hit>, id: i64) -> (r: bool)
    ensures
        r == has_message(hits@, id),
{
    let mut i: usize = 0;
    while i < hits.len()
        invariant
            i <= hits@.len(),
            forall|j: int| 0 <= j < i ==> (#[trigger] hits@[j]).id != id,
        decreases hits@.len() - i,
    {
        if hits[i].id == id {
            return true;
        }
        i += 1;
    }
    false
}

fn keep_first(out: &mut Vec<Hit>, hit: Hit)
    ensures
        final(out)@ == if has_message(old(out)@, hit.id) {
            old(out)@
        } else {
            old(out)@.push(hit)
        },
{
    if !seen_message(out, hit.id) {
        out.push(hit);
    }
}

/// Every statement's hits, as one list.
pub fn merged_hits(ranked: &Vec<RankedHit>, dated: &Vec<Hit>) -> (out: Vec<Hit>)
    ensures
        exists|by_rank: Seq<usize>, by_date: Seq<usize>| #[trigger]
            is_merged(out@, ranked@, dated@, by_rank, by_date),
{
    let mut keys: Vec<i64> = Vec::new();
    let mut i: usize = 0;
    while i < ranked.len()
        invariant
            i <= ranked@.len(),
            keys@ == ranks(ranked@).take(i as int),
        decreases ranked@.len() - i,
    {
        keys.push(ranked[i].rank);
        assert(keys@ =~= ranks(ranked@).take(i + 1));
        i += 1;
    }
    assert(keys@ =~= ranks(ranked@));
    let by_rank = order_of_numbers(&keys);
    let mut keys: Vec<i64> = Vec::new();
    let mut i: usize = 0;
    while i < dated.len()
        invariant
            i <= dated@.len(),
            keys@ == ages(dated@).take(i as int),
        decreases dated@.len() - i,
    {
        keys.push(-1 - dated[i].date_ms);
        assert(keys@ =~= ages(dated@).take(i + 1));
        i += 1;
    }
    assert(keys@ =~= ages(dated@));
    let by_date = order_of_numbers(&keys);
    let ghost first = arranged(just_hits(ranked@), positions(by_rank@));
    let ghost second = arranged(dated@, positions(by_date@));
    let ghost all = first + second;
    let mut out: Vec<Hit> = Vec::new();
    let mut i: usize = 0;
    assert(all.take(0) =~= Seq::<Hit>::empty());
    while i < by_rank.len()
        invariant
            i <= by_rank@.len(),
            first == arranged(just_hits(ranked@), positions(by_rank@)),
            all == first + second,
            is_all_positions(positions(by_rank@), ranked@.len() as int),
            out@ == first_of_each(all.take(i as int)),
        decreases by_rank@.len() - i,
    {
        assert(all.take(i + 1).drop_last() =~= all.take(i as int));
        assert(positions(by_rank@)[i as int] == by_rank@[i as int]);
        assert(all.take(i + 1).last() == ranked@[by_rank@[i as int] as int].hit);
        keep_first(&mut out, ranked[by_rank[i]].hit);
        i += 1;
    }
    let mut j: usize = 0;
    while j < by_date.len()
        invariant
            j <= by_date@.len(),
            i == by_rank@.len(),
            first.len() == i,
            second == arranged(dated@, positions(by_date@)),
            all == first + second,
            is_all_positions(positions(by_date@), dated@.len() as int),
            out@ == first_of_each(all.take(i + j)),
        decreases by_date@.len() - j,
    {
        assert(all.take(i + j + 1).drop_last() =~= all.take(i + j));
        assert(positions(by_date@)[j as int] == by_date@[j as int]);
        assert(all.take(i + j + 1).last() == dated@[by_date@[j as int] as int]);
        keep_first(&mut out, dated[by_date[j]]);
        j += 1;
    }
    assert(all.take(i + j) =~= all);
    assert(is_merged(out@, ranked@, dated@, by_rank@, by_date@));
    out
}

/// No message is in the list twice, however many statements found it.
pub proof fn no_message_twice(hits: Seq<Hit>)
    ensures
        forall|a: int, b: int|
            0 <= a < b < first_of_each(hits).len() ==> (#[trigger] first_of_each(hits)[a]).id
                != (#[trigger] first_of_each(hits)[b]).id,
        forall|i: int|
            0 <= i < hits.len() ==> has_message(first_of_each(hits), (#[trigger] hits[i]).id),
    decreases hits.len(),
{
    if hits.len() > 0 {
        let front = hits.drop_last();
        no_message_twice(front);
        let kept = first_of_each(front);
        let now = first_of_each(hits);
        if !has_message(kept, hits.last().id) {
            assert forall|a: int, b: int| 0 <= a < b < now.len() implies (#[trigger] now[a]).id
                != (#[trigger] now[b]).id by {
                assert(now[a] == kept[a]);
                if b < kept.len() {
                    assert(now[b] == kept[b]);
                }
            }
        }
        assert forall|i: int| 0 <= i < hits.len() implies has_message(
            now,
            (#[trigger] hits[i]).id,
        ) by {
            if i < front.len() {
                assert(has_message(kept, front[i].id));
                let k = choose|k: int| 0 <= k < kept.len() && (#[trigger] kept[k]).id == front[i].id;
                assert(now[k] == kept[k]);
            } else if !has_message(kept, hits.last().id) {
                assert(now[now.len() - 1].id == hits.last().id);
            }
        }
    }
}

// ---------------------------------------------------------------------
// Conversations
// ---------------------------------------------------------------------
/// A conversation a search found, and its best hit.
#[derive(Debug, Clone, Copy, PartialEq, Eq, Structural)]
pub struct Found {
    pub thread_id: i64,
    pub hit: Hit,
}

/// The conversation a message is in. A message in none is one of its own.
pub open spec fn thread_or_own(thread: Option<i64>, id: i64) -> i64 {
    match thread {
        Some(t) => t,
        None => (-id) as i64,
    }
}

pub open spec fn has_thread(found: Seq<Found>, thread_id: i64) -> bool {
    exists|i: int| 0 <= i < found.len() && (#[trigger] found[i]).thread_id == thread_id
}

/// The first hit for each conversation, in order: the list arrives ranked, so
/// that is the conversation's best.
pub open spec fn rolled_up(hits: Seq<Hit>, threads: Seq<Option<i64>>) -> Seq<Found>
    decreases hits.len(),
{
    if hits.len() == 0 {
        Seq::empty()
    } else {
        let hit = hits.last();
        let front = rolled_up(hits.drop_last(), threads);
        let thread_id = thread_or_own(threads[hits.len() - 1], hit.id);
        if has_thread(front, thread_id) {
            front
        } else {
            front.push(Found { thread_id, hit })
        }
    }
}

fn seen_thread(found: &Vec<Found>, thread_id: i64) -> (r: bool)
    ensures
        r == has_thread(found@, thread_id),
{
    let mut i: usize = 0;
    while i < found.len()
        invariant
            i <= found@.len(),
            forall|j: int| 0 <= j < i ==> (#[trigger] found@[j]).thread_id != thread_id,
        decreases found@.len() - i,
    {
        if found[i].thread_id == thread_id {
            return true;
        }
        i += 1;
    }
    false
}

pub open spec fn at_most_found(found: Seq<Found>, limit: int) -> Seq<Found> {
    if found.len() > limit {
        found.take(limit)
    } else {
        found
    }
}

/// A query matches a message, but the list shows conversations, so hits are
/// resolved to their threads with duplicates collapsed. Rank order is
/// preserved: the thread takes the position of its best-matching message.
pub fn roll_up(hits: &Vec<Hit>, threads: &Vec<Option<i64>>, limit: u32) -> (out: Vec<Found>)
    requires
        hits@.len() == threads@.len(),
        forall|i: int| 0 <= i < hits@.len() ==> (#[trigger] hits@[i]).id > i64::MIN,
    ensures
        out@ == at_most_found(rolled_up(hits@, threads@), limit as int),
{
    let mut out: Vec<Found> = Vec::new();
    let mut i: usize = 0;
    assert(hits@.take(0) =~= Seq::<Hit>::empty());
    while i < hits.len()
        invariant
            i <= hits@.len(),
            hits@.len() == threads@.len(),
            forall|i: int| 0 <= i < hits@.len() ==> (#[trigger] hits@[i]).id > i64::MIN,
            out@ == rolled_up(hits@.take(i as int), threads@),
        decreases hits@.len() - i,
    {
        let hit = hits[i];
        assert(hits@.take(i + 1).drop_last() =~= hits@.take(i as int));
        let thread_id: i64 = match threads[i] {
            Some(t) => t,
            None => -hit.id,
        };
        if !seen_thread(&out, thread_id) {
            out.push(Found { thread_id, hit });
        }
        i += 1;
    }
    assert(hits@.take(i as int) =~= hits@);
    if out.len() > limit as usize {
        out.truncate(limit as usize);
    }
    out
}

/// How many hits are asked for to show a page of conversations: wide enough
/// that one round usually answers, small enough that a query matching most of
/// a mailbox does not read it all before filtering.
pub open spec fn page_width(limit: int) -> int {
    if limit * 3 < 50 {
        50
    } else if limit * 3 > 600 {
        600
    } else {
        limit * 3
    }
}

pub fn width_of_page(limit: u32) -> (wide: u32)
    ensures
        wide == page_width(limit as int),
{
    if limit > 200 {
        600
    } else if limit * 3 < 50 {
        50
    } else {
        limit * 3
    }
}

// ---------------------------------------------------------------------
// Rows
// ---------------------------------------------------------------------
/// Where something stands in a list, or past its end.
pub open spec fn rank_in(keys: Seq<i64>, key: i64, from: int) -> int
    decreases keys.len() - from,
{
    if from >= keys.len() || keys[from] == key {
        from
    } else {
        rank_in(keys, key, from + 1)
    }
}

pub open spec fn row_ranks(rows: Seq<i64>, keys: Seq<i64>) -> Seq<i64> {
    rows.map_values(|row: i64| rank_in(keys, row, 0) as i64)
}

/// The order that puts rows back as the page was chosen: SQL gives the rows,
/// not the ranking. A row that is not on the page comes last.
pub fn page_order(rows: &Vec<i64>, keys: &Vec<i64>) -> (order: Vec<usize>)
    requires
        keys@.len() <= i64::MAX,
    ensures
        is_stable_order(order@, rows@.len() as int, smaller(row_ranks(rows@, keys@))),
{
    let mut found: Vec<i64> = Vec::new();
    let mut i: usize = 0;
    while i < rows.len()
        invariant
            i <= rows@.len(),
            keys@.len() <= i64::MAX,
            found@ == row_ranks(rows@, keys@).take(i as int),
        decreases rows@.len() - i,
    {
        let mut at: usize = 0;
        while at < keys.len() && keys[at] != rows[i]
            invariant
                i < rows@.len(),
                at <= keys@.len(),
                rank_in(keys@, rows@[i as int], 0) == rank_in(keys@, rows@[i as int], at as int),
            decreases keys@.len() - at,
        {
            at += 1;
        }
        found.push(at as i64);
        assert(found@ =~= row_ranks(rows@, keys@).take(i + 1));
        i += 1;
    }
    assert(found@ =~= row_ranks(rows@, keys@));
    order_of_numbers(&found)
}

pub open spec fn row_dates(rows: Seq<ThreadListing>) -> Seq<i64> {
    rows.map_values(|row: ThreadListing| row.date_ms)
}

/// Who a row is from: the name, or the address where there is none.
pub open spec fn row_sender(row: ThreadListing) -> Seq<char> {
    if row.from_display@.len() == 0 {
        row.from_addr@
    } else {
        row.from_display@
    }
}

pub open spec fn row_names(rows: Seq<ThreadListing>, key: SortKey) -> Seq<Seq<char>> {
    rows.map_values(
        |row: ThreadListing|
            if key == SortKey::Subject {
                lower(row.subject@)
            } else {
                lower(row_sender(row))
            },
    )
}

/// The order of search results by date, sender or subject, oldest first or A
/// to Z.
pub open spec fn is_ascending_order(
    order: Seq<usize>,
    rows: Seq<ThreadListing>,
    key: SortKey,
) -> bool {
    if key == SortKey::Date {
        is_stable_order(order, rows.len() as int, smaller(row_dates(rows)))
    } else {
        is_stable_order(order, rows.len() as int, sooner(row_names(rows, key)))
    }
}

/// Search results in a chosen order, applied to the rows the search already
/// found rather than to the mailbox. Descending is the same order turned
/// round.
pub fn sorted_order(rows: &Vec<ThreadListing>, sort: Sort) -> (order: Vec<usize>)
    ensures
        sort.ascending ==> is_ascending_order(order@, rows@, sort.key),
        !sort.ascending ==> is_ascending_order(order@.reverse(), rows@, sort.key),
{
    let mut order: Vec<usize>;
    if sort.key == SortKey::Date {
        let mut keys: Vec<i64> = Vec::new();
        let mut i: usize = 0;
        while i < rows.len()
            invariant
                i <= rows@.len(),
                keys@ == row_dates(rows@).take(i as int),
            decreases rows@.len() - i,
        {
            keys.push(rows[i].date_ms);
            assert(keys@ =~= row_dates(rows@).take(i + 1));
            i += 1;
        }
        assert(keys@ =~= row_dates(rows@));
        order = order_of_numbers(&keys);
    } else {
        let mut keys: Vec<Vec<char>> = Vec::new();
        let mut i: usize = 0;
        assert(texts(keys@) =~= row_names(rows@, sort.key).take(0));
        while i < rows.len()
            invariant
                i <= rows@.len(),
                texts(keys@) == row_names(rows@, sort.key).take(i as int),
            decreases rows@.len() - i,
        {
            let ghost before = keys@;
            let row = &rows[i];
            let key = if sort.key == SortKey::Subject {
                chars_of(&lowered(&row.subject))
            } else {
                let name = chars_of(&row.from_display);
                if name.len() == 0 {
                    chars_of(&lowered(&row.from_addr))
                } else {
                    chars_of(&lowered(&row.from_display))
                }
            };
            keys.push(key);
            assert(texts(keys@) =~= texts(before).push(key@));
            assert(texts(keys@) =~= row_names(rows@, sort.key).take(i + 1));
            i += 1;
        }
        assert(texts(keys@) =~= row_names(rows@, sort.key));
        assert(keys@.len() == rows@.len()) by {
            assert(texts(keys@).len() == keys@.len());
        }
        order = order_of_texts(&keys);
    }
    if !sort.ascending {
        let mut turned: Vec<usize> = Vec::new();
        let mut i: usize = order.len();
        while i > 0
            invariant
                i <= order@.len(),
                turned@ == order@.reverse().take(order@.len() - i),
            decreases i,
        {
            i -= 1;
            turned.push(order[i]);
            assert(turned@ =~= order@.reverse().take(order@.len() - i));
        }
        assert(turned@ =~= order@.reverse());
        assert(turned@.reverse() =~= order@);
        return turned;
    }
    order
}

// ---------------------------------------------------------------------
// Why each matched
// ---------------------------------------------------------------------
/// The kept hits that one alternative's words found, each with its message
/// and its conversation.
pub open spec fn found_by(kept: Seq<Found>, index: usize) -> Seq<(i64, i64)>
    decreases kept.len(),
{
    if kept.len() == 0 {
        Seq::empty()
    } else if kept.last().hit.from == Some(index) {
        found_by(kept.drop_last(), index).push((kept.last().hit.id, kept.last().thread_id))
    } else {
        found_by(kept.drop_last(), index)
    }
}

/// The kept hits that one alternative's words found.
pub fn of_alternative(kept: &Vec<Found>, index: usize) -> (out: Vec<(i64, i64)>)
    ensures
        out@ == found_by(kept@, index),
{
    let mut out: Vec<(i64, i64)> = Vec::new();
    let mut i: usize = 0;
    assert(kept@.take(0) =~= Seq::<Found>::empty());
    while i < kept.len()
        invariant
            i <= kept@.len(),
            out@ == found_by(kept@.take(i as int), index),
        decreases kept@.len() - i,
    {
        assert(kept@.take(i + 1).drop_last() =~= kept@.take(i as int));
        let mine = match kept[i].hit.from {
            Some(at) => at == index,
            None => false,
        };
        if mine {
            out.push((kept[i].hit.id, kept[i].thread_id));
        }
        i += 1;
    }
    assert(kept@.take(i as int) =~= kept@);
    out
}

// ---------------------------------------------------------------------
// The statements themselves
// ---------------------------------------------------------------------
/// The ranking and the filter are one statement: the join puts the account and
/// the conditions where the planner sees them, so a match in the other account
/// is never ranked, fetched or discarded. CROSS JOIN fixes the order: the
/// match is walked, and each match looks its message up.
pub const RANKED_CJK: &'static str = "SELECT f.rowid, bm25(fts_cjk, 4.0, 1.0) AS r
                 FROM fts_cjk f
                 CROSS JOIN messages m ON m.id = f.rowid
                 WHERE fts_cjk MATCH ? AND m.deleted_at_ms IS NULL{conds}
                 ORDER BY r
                 LIMIT ?";

pub const RANKED: &'static str = "SELECT f.rowid, bm25(fts_messages, 4.0, 1.0, 2.0, 2.0) AS r
                 FROM fts_messages f
                 CROSS JOIN messages m ON m.id = f.rowid
                 WHERE fts_messages MATCH ? AND m.deleted_at_ms IS NULL{conds}
                 ORDER BY r
                 LIMIT ?";

/// Every message meeting the conditions, newest first.
pub const LISTED: &'static str = "SELECT m.id, m.date_ms
             FROM messages m
             WHERE m.deleted_at_ms IS NULL{conds}
             ORDER BY m.date_ms DESC LIMIT ?";

/// `+rowid` keeps the planner from turning the list back into a lookup per id.
pub const SNIPPETS: &'static str = "SELECT rowid, snippet(fts_messages, 1, char(57344), char(57345), '…', 12)
                 FROM fts_messages
                 WHERE fts_messages MATCH ? AND +rowid IN ({marks})";

/// The best matches for the words that also meet the conditions.
pub fn ranked_sql(cjk: bool, conditions: &str) -> (sql: String)
    ensures
        sql@ == replace_all(
            if cjk {
                RANKED_CJK@
            } else {
                RANKED@
            },
            "{conds}"@,
            conditions@,
        ),
{
    if cjk {
        fill(RANKED_CJK, "{conds}", conditions)
    } else {
        fill(RANKED, "{conds}", conditions)
    }
}

/// Every message meeting the conditions, newest first.
pub fn listed_sql(conditions: &str) -> (sql: String)
    ensures
        sql@ == replace_all(LISTED@, "{conds}"@, conditions@),
{
    fill(LISTED, "{conds}", conditions)
}

/// As many question marks as there are values, with commas between them.
pub open spec fn in_marks(n: nat) -> Seq<char>
    decreases n,
{
    if n == 0 {
        Seq::empty()
    } else if n == 1 {
        seq!['?']
    } else {
        in_marks((n - 1) as nat).push(',').push('?')
    }
}

pub fn sql_in_marks(n: usize) -> (out: String)
    ensures
        out@ == in_marks(n as nat),
{
    let mut out: Vec<char> = Vec::new();
    let mut i: usize = 0;
    while i < n
        invariant
            i <= n,
            out@ == in_marks(i as nat),
        decreases n - i,
    {
        if i > 0 {
            out.push(',');
        }
        out.push('?');
        assert(out@ =~= in_marks((i + 1) as nat));
        i += 1;
    }
    string_of(&out)
}

/// The snippets of some messages, in one pass over the match.
pub fn snippets_sql(n: usize) -> (sql: String)
    ensures
        sql@ == replace_all(SNIPPETS@, "{marks}"@, in_marks(n as nat)),
{
    fill(SNIPPETS, "{marks}", &sql_in_marks(n))
}

// ---------------------------------------------------------------------
// Days where the reader is
// ---------------------------------------------------------------------
/// A day as SQLite reads it, at midnight: `2026-08-14 00:00:00`.
pub open spec fn midnight(day: Day) -> Seq<char> {
    padded(day.year as nat, 4) + seq!['-'] + padded(day.month as nat, 2) + seq!['-'] + padded(
        day.day as nat,
        2,
    ) + " 00:00:00"@
}

pub fn midnight_text(day: Day) -> (out: String)
    requires
        day.year <= 9999,
        day.month <= 99,
        day.day <= 99,
    ensures
        out@ == midnight(day),
{
    let mut out = padded_chars(day.year as u64, 4);
    out.push('-');
    append_chars(&mut out, &padded_chars(day.month as u64, 2));
    out.push('-');
    append_chars(&mut out, &padded_chars(day.day as u64, 2));
    put(&mut out, " 00:00:00");
    assert(out@ =~= midnight(day));
    string_of(&out)
}

/// The milliseconds of a midnight SQLite gave in seconds, or the UTC one where
/// it could not say.
pub fn midnight_ms(day: Day, seconds: Option<i64>) -> (ms: i64)
    requires
        seconds matches Some(s) ==> i64::MIN <= s * 1000 <= i64::MAX,
    ensures
        match seconds {
            Some(s) => ms == s * 1000,
            None => ms == march_day_number(day.year as int, day.month as int, day.day as int)
                * 86_400_000 && (day.is_real() ==> ms == day.number() * 86_400_000),
        },
{
    match seconds {
        Some(s) => s * 1000,
        None => day.utc_ms(),
    }
}

/// The number a part of a date writes, with a plus sign in front or none.
pub open spec fn date_number(part: Seq<char>) -> Option<int> {
    let digits = if part.len() > 0 && part[0] == '+' {
        part.skip(1)
    } else {
        part
    };
    if digits.len() > 0 && all_digits(digits) && number(digits) <= 65535 {
        Some(number(digits) as int)
    } else {
        None
    }
}

/// The day a text such as `2026-08-14` names: three numbers with dashes
/// between them. A month and a day are held in a byte.
pub open spec fn day_parts(s: Seq<char>) -> Option<(int, int, int)> {
    let a = find_char(s, '-', 0);
    let b = find_char(s, '-', a + 1);
    let c = find_char(s, '-', b + 1);
    if a >= s.len() || b >= s.len() {
        None
    } else {
        match (
            date_number(s.subrange(0, a)),
            date_number(s.subrange(a + 1, b)),
            date_number(s.subrange(b + 1, c)),
        ) {
            (Some(year), Some(month), Some(day)) => Some((year, month % 256, day % 256)),
            _ => None,
        }
    }
}

fn date_part(part: &[char]) -> (r: Option<u16>)
    ensures
        match r {
            Some(n) => date_number(part@) == Some(n as int),
            None => date_number(part@) is None,
        },
{
    let from: usize = if part.len() > 0 && part[0] == '+' {
        1
    } else {
        0
    };
    let digits = slice_subrange(part, from, part.len());
    assert(digits@ =~= if from == 1 {
        part@.skip(1)
    } else {
        part@
    });
    if digits.len() == 0 || !are_digits(digits) {
        return None;
    }
    match number_of(digits) {
        Some(n) => if n <= 65535 {
            Some(n as u16)
        } else {
            None
        },
        None => None,
    }
}

/// The calendar day a text names.
pub fn day_of_text(text: &str) -> (day: Option<Day>)
    ensures
        match day {
            Some(d) => day_parts(text@) == Some((d.year as int, d.month as int, d.day as int)),
            None => day_parts(text@) is None,
        },
{
    let s = chars_of(text);
    let a = char_position(&s, '-', 0);
    if a >= s.len() {
        return None;
    }
    let b = char_position(&s, '-', a + 1);
    if b >= s.len() {
        return None;
    }
    let c = char_position(&s, '-', b + 1);
    let year = date_part(slice_subrange(&s, 0, a));
    let month = date_part(slice_subrange(&s, a + 1, b));
    let day = date_part(slice_subrange(&s, b + 1, c));
    match (year, month, day) {
        (Some(year), Some(month), Some(day)) => Some(
            Day { year, month: (month % 256) as u8, day: (day % 256) as u8 },
        ),
        _ => None,
    }
}

// ---------------------------------------------------------------------
// Laws
// ---------------------------------------------------------------------
/// A hit for a message that is there already adds nothing, and any other is
/// added at the end.
pub proof fn a_message_keeps_its_first_place(hits: Seq<Hit>, hit: Hit)
    ensures
        (exists|i: int| 0 <= i < hits.len() && (#[trigger] hits[i]).id == hit.id) ==> first_of_each(
            hits.push(hit),
        ) == first_of_each(hits),
        (forall|i: int| 0 <= i < hits.len() ==> (#[trigger] hits[i]).id != hit.id)
            ==> first_of_each(hits.push(hit)) == first_of_each(hits).push(hit),
{
    assert(hits.push(hit).drop_last() =~= hits);
    no_message_twice(hits);
    if exists|i: int| 0 <= i < hits.len() && (#[trigger] hits[i]).id == hit.id {
        let i = choose|i: int| 0 <= i < hits.len() && (#[trigger] hits[i]).id == hit.id;
        assert(has_message(first_of_each(hits), hits[i].id));
    }
    if forall|i: int| 0 <= i < hits.len() ==> (#[trigger] hits[i]).id != hit.id {
        kept_were_there(hits, hit.id);
    }
}

proof fn kept_were_there(hits: Seq<Hit>, id: i64)
    requires
        forall|i: int| 0 <= i < hits.len() ==> (#[trigger] hits[i]).id != id,
    ensures
        !has_message(first_of_each(hits), id),
    decreases hits.len(),
{
    if hits.len() > 0 {
        let front = hits.drop_last();
        assert forall|i: int| 0 <= i < front.len() implies (#[trigger] front[i]).id != id by {
            assert(front[i] == hits[i]);
        }
        kept_were_there(front, id);
        assert(hits[hits.len() - 1].id != id);
        let kept = first_of_each(front);
        let now = first_of_each(hits);
        assert forall|i: int| 0 <= i < now.len() implies (#[trigger] now[i]).id != id by {
            if i < kept.len() {
                assert(now[i] == kept[i]);
            }
        }
    }
}

/// What matched the words comes before what only met conditions, the best
/// match first, and the rest newest first.
pub proof fn the_best_match_comes_first(
    out: Seq<Hit>,
    ranked: Seq<RankedHit>,
    dated: Seq<Hit>,
    by_rank: Seq<usize>,
    by_date: Seq<usize>,
    i: int,
    j: int,
)
    requires
        is_merged(out, ranked, dated, by_rank, by_date),
        0 <= i < j,
    ensures
        j < ranked.len() ==> ranked[by_rank[i] as int].rank <= ranked[by_rank[j] as int].rank,
        j < dated.len() ==> dated[by_date[i] as int].date_ms >= dated[by_date[j] as int].date_ms,
        first_of_each(arranged(just_hits(ranked), positions(by_rank))).is_prefix_of(out),
{
    if j < ranked.len() {
        let order = positions(by_rank);
        assert(order[i] == by_rank[i] && order[j] == by_rank[j]);
        let keys = ranks(ranked);
        assert(smaller(keys)(order[i], order[j]) || !smaller(keys)(order[j], order[i]));
    }
    if j < dated.len() {
        let order = positions(by_date);
        assert(order[i] == by_date[i] && order[j] == by_date[j]);
        let keys = ages(dated);
        assert(smaller(keys)(order[i], order[j]) || !smaller(keys)(order[j], order[i]));
        newer_is_less_old(dated[order[i]].date_ms, dated[order[j]].date_ms);
    }
    first_ones_stay(
        arranged(just_hits(ranked), positions(by_rank)),
        arranged(dated, positions(by_date)),
    );
}

/// Of two dates the later is the less old.
pub proof fn newer_is_less_old(a: i64, b: i64)
    ensures
        age(a) < age(b) <==> a > b,
{
}

proof fn first_ones_stay(a: Seq<Hit>, b: Seq<Hit>)
    ensures
        first_of_each(a).is_prefix_of(first_of_each(a + b)),
    decreases b.len(),
{
    if b.len() == 0 {
        assert(a + b =~= a);
    } else {
        assert((a + b).drop_last() =~= a + b.drop_last());
        first_ones_stay(a, b.drop_last());
        let x = first_of_each(a);
        let y = first_of_each(a + b.drop_last());
        let z = first_of_each(a + b);
        assert(x =~= z.subrange(0, x.len() as int)) by {
            assert(x =~= y.subrange(0, x.len() as int));
            assert forall|k: int| 0 <= k < x.len() implies x[k] == z[k] by {
                assert(y.subrange(0, x.len() as int)[k] == y[k]);
            }
        }
    }
}

/// A conversation stands where its first hit does, with that hit; a message
/// in none stands for itself.
pub proof fn a_conversation_takes_its_best_place(
    hits: Seq<Hit>,
    threads: Seq<Option<i64>>,
    hit: Hit,
)
    requires
        threads.len() == hits.len() + 1,
    ensures
        threads[hits.len() as int] matches Some(t) ==> rolled_up(hits.push(hit), threads) == if (
        exists|i: int|
            0 <= i < rolled_up(hits, threads).len() && (#[trigger] rolled_up(
                hits,
                threads,
            )[i]).thread_id == t) {
            rolled_up(hits, threads)
        } else {
            rolled_up(hits, threads).push(Found { thread_id: t, hit })
        },
        threads[hits.len() as int] is None && hit.id > i64::MIN ==> rolled_up(
            hits.push(hit),
            threads,
        ) == if (exists|i: int|
            0 <= i < rolled_up(hits, threads).len() && (#[trigger] rolled_up(
                hits,
                threads,
            )[i]).thread_id == -hit.id) {
            rolled_up(hits, threads)
        } else {
            rolled_up(hits, threads).push(Found { thread_id: (-hit.id) as i64, hit })
        },
{
    assert(hits.push(hit).drop_last() =~= hits);
}

/// Three hits are asked for where one conversation is shown, but never fewer
/// than fifty or more than six hundred.
pub proof fn a_page_is_wide_enough(limit: int)
    requires
        0 <= limit,
    ensures
        50 <= page_width(limit) <= 600,
        17 <= limit <= 200 ==> page_width(limit) == 3 * limit,
        limit <= 16 ==> page_width(limit) == 50,
        limit >= 200 ==> page_width(limit) == 600,
{
}

/// A row stands where its conversation does in the page, and one that is not
/// in it comes after all that are.
pub proof fn a_row_stands_where_its_conversation_does(keys: Seq<i64>, key: i64, at: int)
    ensures
        (0 <= at < keys.len() && keys[at] == key && forall|i: int| 0 <= i < at ==> keys[i] != key)
            ==> rank_in(keys, key, 0) == at,
        (forall|i: int| 0 <= i < keys.len() ==> keys[i] != key) ==> rank_in(keys, key, 0)
            == keys.len(),
{
    if 0 <= at < keys.len() && keys[at] == key && forall|i: int| 0 <= i < at ==> keys[i] != key {
        passed_in(keys, key, 0, at);
    }
    if forall|i: int| 0 <= i < keys.len() ==> keys[i] != key {
        passed_in(keys, key, 0, keys.len() as int);
    }
}

proof fn passed_in(keys: Seq<i64>, key: i64, from: int, to: int)
    requires
        0 <= from <= to <= keys.len(),
        forall|i: int| from <= i < to ==> keys[i] != key,
    ensures
        rank_in(keys, key, from) == rank_in(keys, key, to),
    decreases to - from,
{
    if from < to {
        passed_in(keys, key, from + 1, to);
    }
}

/// A row is named by who it is from, or by its subject where that was asked
/// for, whatever the case.
pub proof fn a_row_goes_by_its_name(rows: Seq<ThreadListing>, i: int)
    requires
        0 <= i < rows.len(),
    ensures
        row_names(rows, SortKey::Subject)[i] == lower(rows[i].subject@),
        rows[i].from_display@.len() > 0 ==> row_names(rows, SortKey::Sender)[i] == lower(
            rows[i].from_display@,
        ),
        rows[i].from_display@.len() == 0 ==> row_names(rows, SortKey::Sender)[i] == lower(
            rows[i].from_addr@,
        ),
        row_dates(rows)[i] == rows[i].date_ms,
{
}

/// A hit is put down to the alternative whose words found it, and to no other.
pub proof fn a_hit_is_put_down_to_its_words(kept: Seq<Found>, one: Found, index: usize)
    ensures
        one.hit.from == Some(index) ==> found_by(kept.push(one), index) == found_by(
            kept,
            index,
        ).push((one.hit.id, one.thread_id)),
        one.hit.from != Some(index) ==> found_by(kept.push(one), index) == found_by(kept, index),
        found_by(Seq::empty(), index).len() == 0,
{
    assert(kept.push(one).drop_last() =~= kept);
}

/// There is a mark for every value, and a comma between two.
pub proof fn a_mark_for_each(n: nat, i: int)
    requires
        0 <= i < n,
    ensures
        in_marks(n).len() == 2 * n - 1,
        in_marks(n)[2 * i] == '?',
        i + 1 < n ==> in_marks(n)[2 * i + 1] == ',',
    decreases n,
{
    if n > 1 {
        if i < n - 1 {
            a_mark_for_each((n - 1) as nat, i);
        } else {
            a_mark_for_each((n - 1) as nat, i - 1);
        }
    }
}

/// A day is read as it is written: a year, a month and a day in figures with
/// dashes between them.
pub proof fn a_day_is_read_as_it_is_written(year: Seq<char>, month: Seq<char>, day: Seq<char>)
    requires
        all_digits(year) && all_digits(month) && all_digits(day),
        year.len() > 0 && month.len() > 0 && day.len() > 0,
        number(year) <= 65535,
        number(month) <= 255,
        number(day) <= 255,
    ensures
        day_parts(year + seq!['-'] + month + seq!['-'] + day) == Some(
            (number(year) as int, number(month) as int, number(day) as int),
        ),
{
    let s = year + seq!['-'] + month + seq!['-'] + day;
    let a = year.len() as int;
    let b = a + 1 + month.len();
    assert(s[a] == '-' && s[b] == '-');
    assert forall|i: int| 0 <= i < a implies #[trigger] s[i] != '-' by {
        assert(s[i] == year[i]);
        assert(is_digit(year[i]));
    }
    assert forall|i: int| a + 1 <= i < b implies #[trigger] s[i] != '-' by {
        assert(s[i] == month[i - a - 1]);
        assert(is_digit(month[i - a - 1]));
    }
    assert forall|i: int| b + 1 <= i < s.len() implies #[trigger] s[i] != '-' by {
        assert(s[i] == day[i - b - 1]);
        assert(is_digit(day[i - b - 1]));
    }
    first_char_is_found(s, '-', 0, a);
    first_char_is_found(s, '-', a + 1, b);
    first_char_is_found(s, '-', b + 1, s.len() as int);
    assert(s.subrange(0, a) =~= year);
    assert(s.subrange(a + 1, b) =~= month);
    assert(s.subrange(b + 1, s.len() as int) =~= day);
    assert(is_digit(year[0]) && is_digit(month[0]) && is_digit(day[0]));
}

/// Matches come best first, and what is only listed newest first; neither
/// finds what was deleted, and both are held to the conditions.
pub proof fn the_statements_come_in_order(conditions: Seq<char>)
    ensures
        replace_all(RANKED@, "{conds}"@, conditions) == replace_all(
            "SELECT f.rowid, bm25(fts_messages, 4.0, 1.0, 2.0, 2.0) AS r
                 FROM fts_messages f
                 CROSS JOIN messages m ON m.id = f.rowid
                 WHERE fts_messages MATCH ? AND m.deleted_at_ms IS NULL{conds}
                 ORDER BY r
                 LIMIT ?"@,
            "{conds}"@,
            conditions,
        ),
        replace_all(RANKED_CJK@, "{conds}"@, conditions) == replace_all(
            "SELECT f.rowid, bm25(fts_cjk, 4.0, 1.0) AS r
                 FROM fts_cjk f
                 CROSS JOIN messages m ON m.id = f.rowid
                 WHERE fts_cjk MATCH ? AND m.deleted_at_ms IS NULL{conds}
                 ORDER BY r
                 LIMIT ?"@,
            "{conds}"@,
            conditions,
        ),
        replace_all(LISTED@, "{conds}"@, conditions) == replace_all(
            "SELECT m.id, m.date_ms
             FROM messages m
             WHERE m.deleted_at_ms IS NULL{conds}
             ORDER BY m.date_ms DESC LIMIT ?"@,
            "{conds}"@,
            conditions,
        ),
{
}

/// Rows that go up go up: in their dates, or in what they are named by.
pub proof fn rows_come_in_the_order_asked_for(
    order: Seq<usize>,
    rows: Seq<ThreadListing>,
    a: int,
    b: int,
)
    requires
        0 <= a < b < order.len(),
    ensures
        is_ascending_order(order, rows, SortKey::Date) ==> order.len() == rows.len()
            && rows[order[a] as int].date_ms <= rows[order[b] as int].date_ms,
        is_ascending_order(order, rows, SortKey::Subject) ==> order.len() == rows.len()
            && !text_before(
            lower(rows[order[b] as int].subject@),
            lower(rows[order[a] as int].subject@),
        ),
        is_ascending_order(order, rows, SortKey::Sender) ==> order.len() == rows.len()
            && !text_before(
            row_names(rows, SortKey::Sender)[order[b] as int],
            row_names(rows, SortKey::Sender)[order[a] as int],
        ),
{
    the_least_comes_first(order, row_dates(rows), row_names(rows, SortKey::Subject), a, b);
    the_least_comes_first(order, row_dates(rows), row_names(rows, SortKey::Sender), a, b);
}

/// A page holds the first of what was found: all of it where there is room,
/// and as much as was asked for where there is not.
pub proof fn a_page_holds_the_first(found: Seq<Found>, limit: int, i: int)
    requires
        0 <= limit,
    ensures
        at_most_found(found, limit).len() <= limit,
        at_most_found(found, limit).len() == found.len() || at_most_found(found, limit).len()
            == limit,
        0 <= i < found.len() && i < limit ==> at_most_found(found, limit)[i] == found[i],
        found.len() <= limit ==> at_most_found(found, limit) == found,
{
}

} // verus!
