//! A statement, written as SQL.
//!
//! Every value is bound, never written into the text: `from:` and `in:` carry
//! whatever somebody typed, and a search box that reaches SQL is the oldest
//! mistake there is. The only text written into a statement here is text this
//! file wrote.

use super::plan::{demands, demands_are_each, indexable, is_indexable, Column, Cond, Demand};
use super::statements::{
    any_asks, any_asks_for, asks, asks_for, alongside, is_alongside, phrase_chars, phrase_text,
    place, Named,
};
use crate::search_query::{Ask, Day, Phrase, State, Stretch, Term, Text};
use crate::store::index_text::{any_cjk, has_cjk};
use crate::store::like::{escaped, like_escape};
use crate::store::views::{aliased, not_binned, NOT_BINNED};
use crate::text::{
    append_chars, chars_of, fill, is_ascii_text, join, joined, lower, lowered, put, replace_all,
    same, string_of, texts,
};
use vstd::prelude::*;

verus! {

// ---------------------------------------------------------------------
// Values
// ---------------------------------------------------------------------
/// A value bound to a statement.
#[derive(Debug, PartialEq, Eq)]
pub enum Arg {
    Text(String),
    Int(i64),
    /// Midnight at the start of a day, where the reader is. Only whoever runs
    /// the statement knows the time zone.
    LocalMidnight(Day),
}

#[verifier::ext_equal]
pub enum BoundValue {
    Text(Seq<char>),
    Int(int),
    LocalMidnight(int, int, int),
}

impl View for Arg {
    type V = BoundValue;

    open spec fn view(&self) -> BoundValue {
        match self {
            Arg::Text(text) => BoundValue::Text(text@),
            Arg::Int(n) => BoundValue::Int(*n as int),
            Arg::LocalMidnight(day) => BoundValue::LocalMidnight(
                day.year as int,
                day.month as int,
                day.day as int,
            ),
        }
    }
}

pub open spec fn values(args: Seq<Arg>) -> Seq<BoundValue> {
    args.map_values(|arg: Arg| arg@)
}

fn bind_arg(args: &mut Vec<Arg>, arg: Arg)
    ensures
        values(final(args)@) == values(old(args)@).push(arg@),
{
    args.push(arg);
    assert(values(args@) =~= values(old(args)@).push(arg@));
}

fn bind_text(args: &mut Vec<Arg>, text: &[char])
    ensures
        values(final(args)@) == values(old(args)@).push(BoundValue::Text(text@)),
{
    bind_arg(args, Arg::Text(string_of(text)));
}

/// The first day of a stretch.
pub open spec fn first_midnight(date: Stretch) -> BoundValue {
    BoundValue::LocalMidnight(
        date.year,
        match date.month {
            Some(month) => month,
            None => 1,
        },
        match date.day {
            Some(day) => day,
            None => 1,
        },
    )
}

/// The first day after a stretch.
pub open spec fn next_midnight(date: Stretch) -> BoundValue {
    BoundValue::LocalMidnight(date.next().0, date.next().1, date.next().2)
}

// ---------------------------------------------------------------------
// One condition
// ---------------------------------------------------------------------
/// What holds around a condition, which changes what it means.
///
/// Both are about the things a condition is ANDed with, so both are carried
/// down the tree rather than read off the whole statement.
#[derive(Clone, Copy)]
pub struct Around {
    /// `is:snoozed` is asked alongside, so `in:inbox` does not hide snoozed
    /// mail here.
    pub snoozed: bool,
    /// Spam or Trash is asked for alongside, so nothing here is kept out
    /// of it.
    pub binned: bool,
    /// Nothing narrows this statement, so every message is being read.
    ///
    /// Which way round a condition is cheaper follows from that. A recipient,
    /// a tag or a file name lives in a table of its own, and asking it of one
    /// message is a lookup: cheap where words have already narrowed the
    /// search to a few, and a hundred thousand lookups where nothing has.
    /// Asked once of the whole table it is one pass, and then a message
    /// either is in the answer or is not.
    pub walking: bool,
    /// The word still being typed, by its place in the query.
    pub typing: Option<usize>,
}

pub const FROM_HOLDS: &'static str = "({lower}(coalesce(m.from_addr,'')) LIKE ? ESCAPE '\\'
                      OR {lower}(coalesce(m.from_display,'')) LIKE ? ESCAPE '\\')";

pub const RECIPIENT_HOLDS: &'static str = "a.role = '{role}'
                     AND (a.addr_norm LIKE ? ESCAPE '\\'
                          OR {lower}(coalesce(a.display,'')) LIKE ? ESCAPE '\\')";

pub const RECIPIENT_WALKED: &'static str = "m.id IN (SELECT a.message_id FROM message_addresses a WHERE {holds})";

pub const RECIPIENT_ASKED: &'static str = "EXISTS (SELECT 1 FROM message_addresses a
                                 WHERE a.message_id = m.id AND {holds})";

/// A role, or a folder the user made, by full path or by leaf, so
/// `in:receipts` and `in:projects/petrel` both say what they mean.
pub const FOLDER_HOLDS: &'static str = "(f.role = ?
                      OR {lower}(f.path) = ?
                      OR {lower}(f.path) LIKE '%/' || ? ESCAPE '\\'
                      OR {lower}(f.path) LIKE '%.' || ? ESCAPE '\\')";

pub const FOLDER_ASKED: &'static str = "EXISTS (SELECT 1 FROM placements p JOIN folders f ON f.id = p.folder_id
                             WHERE p.message_id = m.id AND {holds})";

/// Snoozing takes a message out of the inbox until it comes back.
pub const IN_INBOX_NOW: &'static str = "({placed} AND coalesce(m.snoozed_until_ms, 0)
                                       <= (strftime('%s','now') * 1000))";

pub const TAG_HOLDS: &'static str = "{lower}(tg.name) = ?";

pub const TAG_WALKED: &'static str = "m.id IN (SELECT mt.message_id FROM message_tags mt
                                  JOIN tags tg ON tg.id = mt.tag_id WHERE {holds})";

pub const TAG_ASKED: &'static str = "EXISTS (SELECT 1 FROM message_tags mt JOIN tags tg ON tg.id = mt.tag_id
                                 WHERE mt.message_id = m.id AND {holds})";

pub const FILE_HOLDS: &'static str = "{lower}(coalesce(a.filename,'')) LIKE ? ESCAPE '\\'";

pub const FILE_WALKED: &'static str = "m.id IN (SELECT a.message_id FROM attachments a WHERE {holds})";

pub const FILE_ASKED: &'static str = "EXISTS (SELECT 1 FROM attachments a
                                 WHERE a.message_id = m.id AND {holds})";

pub const SNOOZED_NOW: &'static str = "coalesce(m.snoozed_until_ms, 0) > (strftime('%s','now') * 1000)";

/// What folds a column's case for a comparison with `=`. SQLite's `lower`
/// folds ASCII only, so a value that is not ASCII goes through ours.
pub open spec fn fold(value: Seq<char>) -> Seq<char> {
    if is_ascii_text(value) {
        "lower"@
    } else {
        "petrel_lower"@
    }
}

/// What folds it for a comparison with LIKE, which already ignores the case of
/// ASCII letters.
pub open spec fn like_fold(value: Seq<char>) -> Seq<char> {
    if is_ascii_text(value) {
        ""@
    } else {
        "petrel_lower"@
    }
}

/// A pattern for a column that holds a value somewhere in it.
pub open spec fn holding(value: Seq<char>) -> Seq<char> {
    "%"@ + escaped(lower(value)) + "%"@
}

pub open spec fn folded(template: Seq<char>, function: Seq<char>) -> Seq<char> {
    replace_all(template, "{lower}"@, function)
}

pub open spec fn held_in(template: Seq<char>, holds: Seq<char>) -> Seq<char> {
    replace_all(template, "{holds}"@, holds)
}

pub open spec fn recipient_text(role: Seq<char>, who: Seq<char>, walking: bool) -> Seq<char> {
    let holds = folded(replace_all(RECIPIENT_HOLDS@, "{role}"@, role), like_fold(who));
    held_in(
        if walking {
            RECIPIENT_WALKED@
        } else {
            RECIPIENT_ASKED@
        },
        holds,
    )
}

/// One condition as SQL.
pub open spec fn predicate_text(term: Ask, snoozed: bool, walking: bool) -> Seq<char> {
    match term {
        // Words are asked of the index, never here.
        Ask::Text(_) => "1"@,
        Ask::Subject(_) => "1"@,
        Ask::From(who) => folded(FROM_HOLDS@, like_fold(who)),
        Ask::To(who) => recipient_text("to"@, who, walking),
        Ask::Cc(who) => recipient_text("cc"@, who, walking),
        Ask::In(name) => {
            let placed = held_in(FOLDER_ASKED@, folded(FOLDER_HOLDS@, fold(name)));
            if name == "inbox"@ && !snoozed {
                replace_all(IN_INBOX_NOW@, "{placed}"@, placed)
            } else {
                placed
            }
        },
        Ask::Tag(name) => held_in(
            if walking {
                TAG_WALKED@
            } else {
                TAG_ASKED@
            },
            folded(TAG_HOLDS@, fold(name)),
        ),
        Ask::Filename(part) => held_in(
            if walking {
                FILE_WALKED@
            } else {
                FILE_ASKED@
            },
            folded(FILE_HOLDS@, like_fold(part)),
        ),
        Ask::HasAttachment => "m.has_attachments = 1"@,
        Ask::Is(State::Unread) => "m.flags & 1 = 0"@,
        Ask::Is(State::Read) => "m.flags & 1 != 0"@,
        Ask::Is(State::Starred) => "m.flags & 4 != 0"@,
        Ask::Is(State::Snoozed) => SNOOZED_NOW@,
        // `after:` takes in the day it names and `before:` leaves it out, so
        // `after:2026-08-01 before:2026-09-01` is August and nothing else.
        Ask::After(_) => "m.date_ms >= ?"@,
        Ask::Before(_) => "m.date_ms < ?"@,
        Ask::On(_) => "(m.date_ms >= ? AND m.date_ms < ?)"@,
    }
}

/// The values one condition binds, in the order it writes them.
pub open spec fn predicate_values(term: Ask) -> Seq<BoundValue> {
    match term {
        Ask::From(who) => seq![BoundValue::Text(holding(who)), BoundValue::Text(holding(who))],
        Ask::To(who) => seq![BoundValue::Text(holding(who)), BoundValue::Text(holding(who))],
        Ask::Cc(who) => seq![BoundValue::Text(holding(who)), BoundValue::Text(holding(who))],
        Ask::In(name) => seq![
            BoundValue::Text(name),
            BoundValue::Text(name),
            BoundValue::Text(escaped(name)),
            BoundValue::Text(escaped(name)),
        ],
        Ask::Tag(name) => seq![BoundValue::Text(lower(name))],
        Ask::Filename(part) => seq![BoundValue::Text(holding(part))],
        Ask::After(date) => seq![first_midnight(date)],
        Ask::Before(date) => seq![first_midnight(date)],
        Ask::On(date) => seq![first_midnight(date), next_midnight(date)],
        _ => Seq::empty(),
    }
}

fn is_ascii(value: &str) -> (r: bool)
    ensures
        r == is_ascii_text(value@),
{
    let chars = chars_of(value);
    let mut i: usize = 0;
    while i < chars.len()
        invariant
            i <= chars@.len(),
            chars@ == value@,
            forall|j: int| 0 <= j < i ==> #[trigger] chars@[j] <= '\u{7f}',
        decreases chars@.len() - i,
    {
        if chars[i] > '\u{7f}' {
            assert(value@[i as int] > '\u{7f}');
            return false;
        }
        i += 1;
    }
    true
}

fn folds(value: &str) -> (f: &'static str)
    ensures
        f@ == fold(value@),
{
    if is_ascii(value) {
        "lower"
    } else {
        "petrel_lower"
    }
}

fn like_folds(value: &str) -> (f: &'static str)
    ensures
        f@ == like_fold(value@),
{
    if is_ascii(value) {
        ""
    } else {
        "petrel_lower"
    }
}

fn contains_pattern(value: &str) -> (out: Vec<char>)
    ensures
        out@ == holding(value@),
{
    let mut out = chars_of("%");
    put(&mut out, &like_escape(&lowered(value)));
    put(&mut out, "%");
    out
}

fn bind_twice(args: &mut Vec<Arg>, text: &[char])
    ensures
        values(final(args)@) == values(old(args)@) + seq![BoundValue::Text(text@), BoundValue::Text(text@)],
{
    bind_text(args, text);
    bind_text(args, text);
    assert(values(args@) =~= values(old(args)@) + seq![BoundValue::Text(text@), BoundValue::Text(text@)]);
}

fn literal(s: &str) -> (out: String)
    ensures
        out@ == s@,
{
    string_of(&chars_of(s))
}

fn recipient(role: &str, who: &String, walking: bool, args: &mut Vec<Arg>) -> (sql: String)
    ensures
        sql@ == recipient_text(role@, who@, walking),
        values(final(args)@) == values(old(args)@) + seq![
            BoundValue::Text(holding(who@)),
            BoundValue::Text(holding(who@)),
        ],
{
    bind_twice(args, &contains_pattern(who));
    let holds = fill(&fill(RECIPIENT_HOLDS, "{role}", role), "{lower}", like_folds(who));
    if walking {
        fill(RECIPIENT_WALKED, "{holds}", &holds)
    } else {
        fill(RECIPIENT_ASKED, "{holds}", &holds)
    }
}

/// One condition as SQL, its values bound as it goes.
pub fn predicate(term: &Term, around: Around, args: &mut Vec<Arg>) -> (sql: String)
    ensures
        sql@ == predicate_text(term@, around.snoozed, around.walking),
        values(final(args)@) == values(old(args)@) + predicate_values(term@),
{
    let ghost before = values(args@);
    match term {
        Term::Text(_) => {
            assert(before + predicate_values(term@) =~= before);
            literal("1")
        },
        Term::Subject(_) => {
            assert(before + predicate_values(term@) =~= before);
            literal("1")
        },
        Term::From(who) => {
            bind_twice(args, &contains_pattern(who));
            fill(FROM_HOLDS, "{lower}", like_folds(who))
        },
        Term::To(who) => recipient("to", who, around.walking, args),
        Term::Cc(who) => recipient("cc", who, around.walking, args),
        Term::In(name) => {
            bind_twice(args, &chars_of(name));
            let ghost middle = values(args@);
            bind_twice(args, &chars_of(&like_escape(name)));
            assert(values(args@) =~= before + predicate_values(term@));
            let holds = fill(FOLDER_HOLDS, "{lower}", folds(name));
            let placed = fill(FOLDER_ASKED, "{holds}", &holds);
            if same(name, "inbox") && !around.snoozed {
                fill(IN_INBOX_NOW, "{placed}", &placed)
            } else {
                placed
            }
        },
        Term::Tag(name) => {
            bind_text(args, &chars_of(&lowered(name)));
            assert(values(args@) =~= before + predicate_values(term@));
            let holds = fill(TAG_HOLDS, "{lower}", folds(name));
            if around.walking {
                fill(TAG_WALKED, "{holds}", &holds)
            } else {
                fill(TAG_ASKED, "{holds}", &holds)
            }
        },
        Term::Filename(part) => {
            bind_text(args, &contains_pattern(part));
            assert(values(args@) =~= before + predicate_values(term@));
            let holds = fill(FILE_HOLDS, "{lower}", like_folds(part));
            if around.walking {
                fill(FILE_WALKED, "{holds}", &holds)
            } else {
                fill(FILE_ASKED, "{holds}", &holds)
            }
        },
        Term::HasAttachment => {
            assert(before + predicate_values(term@) =~= before);
            literal("m.has_attachments = 1")
        },
        Term::Is(state) => {
            assert(before + predicate_values(term@) =~= before);
            match state {
                State::Unread => literal("m.flags & 1 = 0"),
                State::Read => literal("m.flags & 1 != 0"),
                State::Starred => literal("m.flags & 4 != 0"),
                State::Snoozed => literal(SNOOZED_NOW),
            }
        },
        Term::After(date) => {
            bind_arg(args, Arg::LocalMidnight(date.first_day()));
            assert(values(args@) =~= before + predicate_values(term@));
            literal("m.date_ms >= ?")
        },
        Term::Before(date) => {
            bind_arg(args, Arg::LocalMidnight(date.first_day()));
            assert(values(args@) =~= before + predicate_values(term@));
            literal("m.date_ms < ?")
        },
        Term::On(date) => {
            bind_arg(args, Arg::LocalMidnight(date.first_day()));
            bind_arg(args, Arg::LocalMidnight(date.day_after()));
            assert(values(args@) =~= before + predicate_values(term@));
            literal("(m.date_ms >= ? AND m.date_ms < ?)")
        },
    }
}

/// Whether two terms ask the same kind of thing, of values that fold alike.
pub open spec fn same_kind(a: Ask, b: Ask) -> bool {
    match (a, b) {
        (Ask::Text(_), Ask::Text(_)) => true,
        (Ask::Subject(_), Ask::Subject(_)) => true,
        (Ask::From(x), Ask::From(y)) => is_ascii_text(x) == is_ascii_text(y),
        (Ask::To(x), Ask::To(y)) => is_ascii_text(x) == is_ascii_text(y),
        (Ask::Cc(x), Ask::Cc(y)) => is_ascii_text(x) == is_ascii_text(y),
        (Ask::In(x), Ask::In(y)) => is_ascii_text(x) == is_ascii_text(y) && (x == "inbox"@) == (y
            == "inbox"@),
        (Ask::Tag(x), Ask::Tag(y)) => is_ascii_text(x) == is_ascii_text(y),
        (Ask::Filename(x), Ask::Filename(y)) => is_ascii_text(x) == is_ascii_text(y),
        (Ask::After(_), Ask::After(_)) => true,
        (Ask::Before(_), Ask::Before(_)) => true,
        (Ask::On(_), Ask::On(_)) => true,
        _ => a == b,
    }
}

/// What somebody typed is never in the text of a statement: two conditions of
/// a kind are written alike, whatever their values, and bind as many.
pub proof fn values_are_bound_not_written(a: Ask, b: Ask, snoozed: bool, walking: bool)
    requires
        same_kind(a, b),
    ensures
        predicate_text(a, snoozed, walking) == predicate_text(b, snoozed, walking),
        predicate_values(a).len() == predicate_values(b).len(),
{
}

// ---------------------------------------------------------------------
// A tree of conditions
// ---------------------------------------------------------------------
pub const LOOKED_UP_CJK: &'static str = "IN (SELECT rowid FROM fts_cjk WHERE fts_cjk MATCH ?)";

pub const LOOKED_UP: &'static str = "IN (SELECT rowid FROM fts_messages WHERE fts_messages MATCH ?)";

/// Words as a lookup of their own, in whichever index holds their script: the
/// messages that have them, or the ones that do not.
pub open spec fn lookup_text(text: Phrase, there: bool) -> Seq<char> {
    (if there {
        "m.id "@
    } else {
        "m.id NOT "@
    }) + if any_cjk(text.value) {
        LOOKED_UP_CJK@
    } else {
        LOOKED_UP@
    }
}

pub open spec fn lookup_value(column: Column, text: Phrase, prefix: bool) -> BoundValue {
    BoundValue::Text(phrase_text(column, text, any_cjk(text.value), prefix))
}

/// Words as a lookup of their own, in whichever index holds their script.
pub fn lookup_sql(column: Column, text: &Text, there: bool, prefix: bool, args: &mut Vec<Arg>) -> (
sql: Vec<char>)
    ensures
        sql@ == lookup_text(text@, there),
        values(final(args)@) == values(old(args)@).push(lookup_value(column, text@, prefix)),
{
    let cjk = has_cjk(&text.value);
    bind_text(args, &phrase_chars(column, text, cjk, prefix));
    let mut out = if there {
        chars_of("m.id ")
    } else {
        chars_of("m.id NOT ")
    };
    put(
        &mut out,
        if cjk {
            LOOKED_UP_CJK
        } else {
            LOOKED_UP
        },
    );
    out
}

/// What keeps a statement out of Spam and Trash.
pub open spec fn guard_text() -> Seq<char> {
    aliased(NOT_BINNED@, "m"@)
}

/// A tree of conditions as one SQL predicate.
pub open spec fn cond_text(demand: Demand, snoozed: bool, binned: bool, walking: bool) -> Seq<char>
    decreases demand,
{
    match demand {
        Demand::Lit(fact) => if fact.negated {
            "NOT ("@ + predicate_text(fact.term, snoozed, walking) + ")"@
        } else {
            predicate_text(fact.term, snoozed, walking)
        },
        // Punctuation asks nothing, which is what skipping means among things
        // that all have to hold.
        Demand::With(_, text, _) => if is_indexable(text) {
            lookup_text(text, true)
        } else {
            "1"@
        },
        Demand::Without(_, text) => if is_indexable(text) {
            lookup_text(text, false)
        } else {
            "1"@
        },
        Demand::All(parts) => "("@ + joined(
            cond_texts(
                parts,
                snoozed || is_alongside(parts, Named::Snoozed),
                binned || is_alongside(parts, Named::Bin),
                walking,
                false,
            ),
            " AND "@,
        ) + ")"@,
        // The bin is let in one alternative at a time: the side that named
        // it, and no other. Unless the bin is what all of this is being asked
        // of, and then no side needs keeping out of it.
        Demand::Any(parts) => "("@ + joined(
            cond_texts(
                parts,
                snoozed,
                binned,
                walking,
                !binned && any_asks_for(parts, Named::Bin),
            ),
            " OR "@,
        ) + ")"@,
    }
}

pub open spec fn cond_texts(
    parts: Seq<Demand>,
    snoozed: bool,
    binned: bool,
    walking: bool,
    guarded: bool,
) -> Seq<Seq<char>>
    decreases parts,
{
    if parts.len() == 0 {
        Seq::empty()
    } else {
        let text = cond_text(parts.last(), snoozed, binned, walking);
        cond_texts(parts.drop_last(), snoozed, binned, walking, guarded).push(
            if guarded && !asks_for(parts.last(), Named::Bin) {
                "("@ + text + " AND "@ + guard_text() + ")"@
            } else {
                text
            },
        )
    }
}

/// The values a tree of conditions binds, in the order it writes them.
pub open spec fn cond_values(demand: Demand, typing: Option<nat>) -> Seq<BoundValue>
    decreases demand,
{
    match demand {
        Demand::Lit(fact) => predicate_values(fact.term),
        Demand::With(column, text, at) => if is_indexable(text) {
            seq![lookup_value(column, text, typing == Some(at))]
        } else {
            Seq::empty()
        },
        Demand::Without(column, text) => if is_indexable(text) {
            seq![lookup_value(column, text, false)]
        } else {
            Seq::empty()
        },
        Demand::All(parts) => conds_values(parts, typing),
        Demand::Any(parts) => conds_values(parts, typing),
    }
}

pub open spec fn conds_values(parts: Seq<Demand>, typing: Option<nat>) -> Seq<BoundValue>
    decreases parts,
{
    if parts.len() == 0 {
        Seq::empty()
    } else {
        conds_values(parts.drop_last(), typing) + cond_values(parts.last(), typing)
    }
}

fn same_spot(a: Option<usize>, b: usize) -> (r: bool)
    ensures
        r == (place(a) == Some(b as nat)),
{
    match a {
        Some(at) => at == b,
        None => false,
    }
}

/// A tree of conditions as one SQL predicate, its values bound in the order
/// it writes them.
pub fn cond_sql(cond: &Cond, around: Around, args: &mut Vec<Arg>) -> (sql: Vec<char>)
    ensures
        sql@ == cond_text(cond@, around.snoozed, around.binned, around.walking),
        values(final(args)@) == values(old(args)@) + cond_values(cond@, place(around.typing)),
    decreases cond,
{
    let ghost before = values(args@);
    match cond {
        Cond::Lit(lit) => {
            let sql = predicate(lit.term, around, args);
            if lit.negated {
                let mut out = chars_of("NOT (");
                put(&mut out, &sql);
                put(&mut out, ")");
                out
            } else {
                chars_of(&sql)
            }
        },
        Cond::With(column, text, at) => if indexable(text) {
            let sql = lookup_sql(*column, text, true, same_spot(around.typing, *at), args);
            assert(values(args@) =~= before + cond_values(cond@, place(around.typing)));
            sql
        } else {
            assert(before + Seq::<BoundValue>::empty() =~= before);
            chars_of("1")
        },
        Cond::Without(column, text) => if indexable(text) {
            let sql = lookup_sql(*column, text, false, false, args);
            assert(values(args@) =~= before + cond_values(cond@, place(around.typing)));
            sql
        } else {
            assert(before + Seq::<BoundValue>::empty() =~= before);
            chars_of("1")
        },
        Cond::All(parts) => {
            let inner = Around {
                snoozed: around.snoozed || alongside(parts, Named::Snoozed),
                binned: around.binned || alongside(parts, Named::Bin),
                walking: around.walking,
                typing: around.typing,
            };
            let sqls = cond_sqls(parts, inner, false, args);
            let mut out = chars_of("(");
            append_chars(&mut out, &join(&sqls, " AND "));
            put(&mut out, ")");
            out
        },
        Cond::Any(parts) => {
            let named = !around.binned && any_asks(parts, Named::Bin);
            let sqls = cond_sqls(parts, around, named, args);
            let mut out = chars_of("(");
            append_chars(&mut out, &join(&sqls, " OR "));
            put(&mut out, ")");
            out
        },
    }
}

fn cond_sqls(parts: &Vec<Cond>, around: Around, guarded: bool, args: &mut Vec<Arg>) -> (out: Vec<
    Vec<char>,
>)
    ensures
        texts(out@) == cond_texts(
            demands(parts@),
            around.snoozed,
            around.binned,
            around.walking,
            guarded,
        ),
        values(final(args)@) == values(old(args)@) + conds_values(
            demands(parts@),
            place(around.typing),
        ),
    decreases parts,
{
    proof {
        demands_are_each(parts@);
    }
    let ghost every = demands(parts@);
    let ghost before = values(args@);
    let mut out: Vec<Vec<char>> = Vec::new();
    let mut i: usize = 0;
    assert(every.take(0) =~= Seq::<Demand>::empty());
    assert(texts(out@) =~= Seq::<Seq<char>>::empty());
    assert(before + Seq::<BoundValue>::empty() =~= before);
    while i < parts.len()
        invariant
            i <= parts@.len(),
            every == demands(parts@),
            every.len() == parts@.len(),
            texts(out@) == cond_texts(
                every.take(i as int),
                around.snoozed,
                around.binned,
                around.walking,
                guarded,
            ),
            values(args@) == before + conds_values(every.take(i as int), place(around.typing)),
        decreases parts@.len() - i,
    {
        proof {
            demands_are_each(parts@);
            assert(every.take(i + 1).drop_last() =~= every.take(i as int));
        }
        let ghost so_far = out@;
        let sql = cond_sql(&parts[i], around, args);
        assert(values(args@) =~= before + conds_values(every.take(i + 1), place(around.typing)));
        if guarded && !asks(&parts[i], Named::Bin) {
            let mut kept_out = chars_of("(");
            append_chars(&mut kept_out, &sql);
            put(&mut kept_out, " AND ");
            put(&mut kept_out, &not_binned("m"));
            put(&mut kept_out, ")");
            out.push(kept_out);
            assert(texts(out@) =~= texts(so_far).push(kept_out@));
        } else {
            out.push(sql);
            assert(texts(out@) =~= texts(so_far).push(sql@));
        }
        i += 1;
    }
    assert(every.take(i as int) =~= every);
    out
}

} // verus!
