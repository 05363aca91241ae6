//! Marks and values: a statement has one `?` for every value it binds.

use super::bind::{
    bound_as, conds_bind, conds_text, refused, script_texts, BESIDE, OF_ACCOUNT,
};
use super::plan::{any_asks_cjk, Column, Demand};
use super::sql::{
    cond_text, cond_texts, cond_values, conds_values, fold, folded, guard_text, held_in, like_fold,
    lookup_text, predicate_text, predicate_values, recipient_text, FILE_ASKED, FILE_HOLDS,
    FILE_WALKED, FOLDER_ASKED, FOLDER_HOLDS, FROM_HOLDS, IN_INBOX_NOW, LOOKED_UP, LOOKED_UP_CJK,
    RECIPIENT_ASKED, RECIPIENT_HOLDS, RECIPIENT_WALKED, SNOOZED_NOW, TAG_ASKED, TAG_HOLDS,
    TAG_WALKED,
};
use super::statements::{any_asks_for, any_looks_up, is_alongside, Named, Statement};
use crate::search_query::{Ask, Phrase, State};
use crate::store::views::NOT_BINNED;
use crate::text::{joined, occurs_at, replace_all, starts};
use vstd::prelude::*;

verus! {

/// How many values a piece of SQL waits for.
pub open spec fn marks(s: Seq<char>) -> nat
    decreases s.len(),
{
    if s.len() == 0 {
        0
    } else {
        (if s[0] == '?' {
            1nat
        } else {
            0
        }) + marks(s.skip(1))
    }
}

// ---------------------------------------------------------------------
// Counting
// ---------------------------------------------------------------------
pub open spec fn is_unmarked(s: Seq<char>) -> bool {
    forall|i: int| 0 <= i < s.len() ==> #[trigger] s[i] != '?'
}

proof fn unmarked_has_none(s: Seq<char>)
    requires
        is_unmarked(s),
    ensures
        marks(s) == 0,
    decreases s.len(),
{
    if s.len() > 0 {
        assert forall|i: int| 0 <= i < s.skip(1).len() implies #[trigger] s.skip(1)[i] != '?' by {
            assert(s.skip(1)[i] == s[i + 1]);
        }
        unmarked_has_none(s.skip(1));
    }
}

proof fn marks_add_up(a: Seq<char>, b: Seq<char>)
    ensures
        marks(a + b) == marks(a) + marks(b),
    decreases a.len(),
{
    if a.len() == 0 {
        assert(a + b =~= b);
    } else {
        assert((a + b).skip(1) =~= a.skip(1) + b);
        marks_add_up(a.skip(1), b);
    }
}

/// The last mark of a text, and those before it.
proof fn last_mark(s: Seq<char>, k: int)
    requires
        0 <= k < s.len(),
        s[k] == '?',
        forall|i: int| k < i < s.len() ==> #[trigger] s[i] != '?',
    ensures
        marks(s) == marks(s.take(k)) + 1,
{
    let rest = s.skip(k + 1);
    assert(s =~= s.take(k) + (seq!['?'] + rest));
    marks_add_up(s.take(k), seq!['?'] + rest);
    marks_add_up(seq!['?'], rest);
    assert(seq!['?'].skip(1) =~= Seq::<char>::empty());
    assert(marks(seq!['?'].skip(1)) == 0);
    assert forall|i: int| 0 <= i < rest.len() implies #[trigger] rest[i] != '?' by {
        assert(rest[i] == s[i + k + 1]);
    }
    unmarked_has_none(rest);
}

proof fn one_mark(s: Seq<char>, k: int)
    requires
        0 <= k < s.len(),
        s[k] == '?',
        forall|i: int| 0 <= i < s.len() && i != k ==> #[trigger] s[i] != '?',
    ensures
        marks(s) == 1,
{
    last_mark(s, k);
    unmarked_has_none(s.take(k));
}

proof fn two_marks(s: Seq<char>, j: int, k: int)
    requires
        0 <= j < k < s.len(),
        s[j] == '?',
        s[k] == '?',
        forall|i: int| 0 <= i < s.len() && i != j && i != k ==> #[trigger] s[i] != '?',
    ensures
        marks(s) == 2,
{
    last_mark(s, k);
    one_mark(s.take(k), j);
}

proof fn four_marks(s: Seq<char>, a: int, b: int, c: int, d: int)
    requires
        0 <= a < b < c < d < s.len(),
        s[a] == '?',
        s[b] == '?',
        s[c] == '?',
        s[d] == '?',
        forall|i: int|
            0 <= i < s.len() && i != a && i != b && i != c && i != d ==> #[trigger] s[i] != '?',
    ensures
        marks(s) == 4,
{
    last_mark(s, d);
    let front = s.take(d);
    last_mark(front, c);
    two_marks(front.take(c), a, b);
}

// ---------------------------------------------------------------------
// Filling in
// ---------------------------------------------------------------------
/// Filling in what has no marks changes no number of marks.
proof fn filling_keeps_marks(s: Seq<char>, p: Seq<char>, r: Seq<char>)
    requires
        is_unmarked(p),
        is_unmarked(r),
    ensures
        marks(replace_all(s, p, r)) == marks(s),
    decreases s.len(),
{
    if s.len() == 0 || p.len() == 0 {
    } else if starts(s, p) {
        let rest = s.skip(p.len() as int);
        filling_keeps_marks(rest, p, r);
        marks_add_up(r, replace_all(rest, p, r));
        assert(s =~= p + rest);
        marks_add_up(p, rest);
        unmarked_has_none(p);
        unmarked_has_none(r);
    } else {
        filling_keeps_marks(s.skip(1), p, r);
        marks_add_up(seq![s[0]], replace_all(s.skip(1), p, r));
        assert(seq![s[0]].skip(1) =~= Seq::<char>::empty());
        assert(marks(seq![s[0]].skip(1)) == 0);
    }
}

/// A slot that stands once in a text takes in the marks of what fills it.
proof fn one_slot_adds_marks(s: Seq<char>, p: Seq<char>, r: Seq<char>, at: int)
    requires
        p.len() > 0,
        p[0] == '{',
        is_unmarked(p),
        occurs_at(s, p, at),
        forall|i: int| 0 <= i < s.len() && i != at ==> #[trigger] s[i] != '{',
    ensures
        marks(replace_all(s, p, r)) == marks(s) + marks(r),
    decreases s.len(),
{
    if at == 0 {
        let rest = s.skip(p.len() as int);
        assert forall|i: int| 0 <= i < rest.len() implies #[trigger] rest[i] != '{' by {
            assert(rest[i] == s[i + p.len()]);
        }
        no_slot_to_fill(rest, p, r);
        marks_add_up(r, rest);
        assert(s =~= p + rest);
        marks_add_up(p, rest);
        unmarked_has_none(p);
    } else {
        if starts(s, p) {
            assert(s.subrange(0, p.len() as int)[0] == s[0]);
        }
        let rest = s.skip(1);
        assert(rest.subrange(at - 1, at - 1 + p.len()) =~= s.subrange(at, at + p.len()));
        assert forall|i: int| 0 <= i < rest.len() && i != at - 1 implies #[trigger] rest[i]
            != '{' by {
            assert(rest[i] == s[i + 1]);
        }
        one_slot_adds_marks(rest, p, r, at - 1);
        marks_add_up(seq![s[0]], replace_all(rest, p, r));
        assert(seq![s[0]].skip(1) =~= Seq::<char>::empty());
        assert(marks(seq![s[0]].skip(1)) == 0);
    }
}

proof fn no_slot_to_fill(s: Seq<char>, p: Seq<char>, r: Seq<char>)
    requires
        p.len() > 0,
        p[0] == '{',
        forall|i: int| 0 <= i < s.len() ==> #[trigger] s[i] != '{',
    ensures
        replace_all(s, p, r) == s,
    decreases s.len(),
{
    if s.len() > 0 {
        if starts(s, p) {
            assert(s.subrange(0, p.len() as int)[0] == s[0]);
        }
        let rest = s.skip(1);
        assert forall|i: int| 0 <= i < rest.len() implies #[trigger] rest[i] != '{' by {
            assert(rest[i] == s[i + 1]);
        }
        no_slot_to_fill(rest, p, r);
        assert(seq![s[0]] + rest =~= s);
    }
}

// ---------------------------------------------------------------------
// The texts
// ---------------------------------------------------------------------
proof fn slots_are_unmarked()
    ensures
        is_unmarked("{lower}"@),
        is_unmarked("{role}"@),
        is_unmarked("{holds}"@),
        is_unmarked("{placed}"@),
        is_unmarked("{alias}"@),
        "{holds}"@.len() > 0 && "{holds}"@[0] == '{',
        "{placed}"@.len() > 0 && "{placed}"@[0] == '{',
{
    reveal_strlit("{lower}");
    reveal_strlit("{role}");
    reveal_strlit("{holds}");
    reveal_strlit("{placed}");
    reveal_strlit("{alias}");
}

proof fn fillings_are_unmarked(value: Seq<char>)
    ensures
        is_unmarked(fold(value)),
        is_unmarked(like_fold(value)),
        is_unmarked("to"@),
        is_unmarked("cc"@),
        is_unmarked("m"@),
{
    reveal_strlit("lower");
    reveal_strlit("petrel_lower");
    reveal_strlit("");
    reveal_strlit("to");
    reveal_strlit("cc");
    reveal_strlit("m");
}

proof fn from_holds_marks()
    ensures
        marks(FROM_HOLDS@) == 2,
{
    reveal_strlit(
        "({lower}(coalesce(m.from_addr,'')) LIKE ? ESCAPE '\\'
                      OR {lower}(coalesce(m.from_display,'')) LIKE ? ESCAPE '\\')",
    );
    two_marks(FROM_HOLDS@, 40, 120);
}

proof fn recipient_holds_marks()
    ensures
        marks(RECIPIENT_HOLDS@) == 2,
{
    reveal_strlit(
        "a.role = '{role}'
                     AND (a.addr_norm LIKE ? ESCAPE '\\'
                          OR {lower}(coalesce(a.display,'')) LIKE ? ESCAPE '\\')",
    );
    two_marks(RECIPIENT_HOLDS@, 61, 140);
}

proof fn folder_holds_marks()
    ensures
        marks(FOLDER_HOLDS@) == 4,
{
    reveal_strlit(
        "(f.role = ?
                      OR {lower}(f.path) = ?
                      OR {lower}(f.path) LIKE '%/' || ? ESCAPE '\\'
                      OR {lower}(f.path) LIKE '%.' || ? ESCAPE '\\')",
    );
    four_marks(FOLDER_HOLDS@, 10, 55, 111, 178);
}

proof fn tag_holds_marks()
    ensures
        marks(TAG_HOLDS@) == 1,
{
    reveal_strlit(
        "{lower}(tg.name) = ?",
    );
    one_mark(TAG_HOLDS@, 19);
}

proof fn file_holds_marks()
    ensures
        marks(FILE_HOLDS@) == 1,
{
    reveal_strlit(
        "{lower}(coalesce(a.filename,'')) LIKE ? ESCAPE '\\'",
    );
    one_mark(FILE_HOLDS@, 38);
}

proof fn looked_up_marks()
    ensures
        marks(LOOKED_UP@) == 1,
{
    reveal_strlit(
        "IN (SELECT rowid FROM fts_messages WHERE fts_messages MATCH ?)",
    );
    one_mark(LOOKED_UP@, 60);
}

proof fn looked_up_cjk_marks()
    ensures
        marks(LOOKED_UP_CJK@) == 1,
{
    reveal_strlit(
        "IN (SELECT rowid FROM fts_cjk WHERE fts_cjk MATCH ?)",
    );
    one_mark(LOOKED_UP_CJK@, 50);
}

proof fn recipient_walked_takes_in(r: Seq<char>)
    ensures
        marks(replace_all(RECIPIENT_WALKED@, "{holds}"@, r)) == marks(r),
{
    reveal_strlit(
        "m.id IN (SELECT a.message_id FROM message_addresses a WHERE {holds})",
    );
    reveal_strlit("{holds}");
    unmarked_has_none(RECIPIENT_WALKED@);
    assert(RECIPIENT_WALKED@.subrange(60, 67) =~= "{holds}"@);
    one_slot_adds_marks(RECIPIENT_WALKED@, "{holds}"@, r, 60);
}

proof fn recipient_asked_takes_in(r: Seq<char>)
    ensures
        marks(replace_all(RECIPIENT_ASKED@, "{holds}"@, r)) == marks(r),
{
    reveal_strlit(
        "EXISTS (SELECT 1 FROM message_addresses a
                                 WHERE a.message_id = m.id AND {holds})",
    );
    reveal_strlit("{holds}");
    unmarked_has_none(RECIPIENT_ASKED@);
    assert(RECIPIENT_ASKED@.subrange(105, 112) =~= "{holds}"@);
    one_slot_adds_marks(RECIPIENT_ASKED@, "{holds}"@, r, 105);
}

proof fn folder_asked_takes_in(r: Seq<char>)
    ensures
        marks(replace_all(FOLDER_ASKED@, "{holds}"@, r)) == marks(r),
{
    reveal_strlit(
        "EXISTS (SELECT 1 FROM placements p JOIN folders f ON f.id = p.folder_id
                             WHERE p.message_id = m.id AND {holds})",
    );
    reveal_strlit("{holds}");
    unmarked_has_none(FOLDER_ASKED@);
    assert(FOLDER_ASKED@.subrange(131, 138) =~= "{holds}"@);
    one_slot_adds_marks(FOLDER_ASKED@, "{holds}"@, r, 131);
}

proof fn tag_walked_takes_in(r: Seq<char>)
    ensures
        marks(replace_all(TAG_WALKED@, "{holds}"@, r)) == marks(r),
{
    reveal_strlit(
        "m.id IN (SELECT mt.message_id FROM message_tags mt
                                  JOIN tags tg ON tg.id = mt.tag_id WHERE {holds})",
    );
    reveal_strlit("{holds}");
    unmarked_has_none(TAG_WALKED@);
    assert(TAG_WALKED@.subrange(125, 132) =~= "{holds}"@);
    one_slot_adds_marks(TAG_WALKED@, "{holds}"@, r, 125);
}

proof fn tag_asked_takes_in(r: Seq<char>)
    ensures
        marks(replace_all(TAG_ASKED@, "{holds}"@, r)) == marks(r),
{
    reveal_strlit(
        "EXISTS (SELECT 1 FROM message_tags mt JOIN tags tg ON tg.id = mt.tag_id
                                 WHERE mt.message_id = m.id AND {holds})",
    );
    reveal_strlit("{holds}");
    unmarked_has_none(TAG_ASKED@);
    assert(TAG_ASKED@.subrange(136, 143) =~= "{holds}"@);
    one_slot_adds_marks(TAG_ASKED@, "{holds}"@, r, 136);
}

proof fn file_walked_takes_in(r: Seq<char>)
    ensures
        marks(replace_all(FILE_WALKED@, "{holds}"@, r)) == marks(r),
{
    reveal_strlit(
        "m.id IN (SELECT a.message_id FROM attachments a WHERE {holds})",
    );
    reveal_strlit("{holds}");
    unmarked_has_none(FILE_WALKED@);
    assert(FILE_WALKED@.subrange(54, 61) =~= "{holds}"@);
    one_slot_adds_marks(FILE_WALKED@, "{holds}"@, r, 54);
}

proof fn file_asked_takes_in(r: Seq<char>)
    ensures
        marks(replace_all(FILE_ASKED@, "{holds}"@, r)) == marks(r),
{
    reveal_strlit(
        "EXISTS (SELECT 1 FROM attachments a
                                 WHERE a.message_id = m.id AND {holds})",
    );
    reveal_strlit("{holds}");
    unmarked_has_none(FILE_ASKED@);
    assert(FILE_ASKED@.subrange(99, 106) =~= "{holds}"@);
    one_slot_adds_marks(FILE_ASKED@, "{holds}"@, r, 99);
}

proof fn in_inbox_now_takes_in(r: Seq<char>)
    ensures
        marks(replace_all(IN_INBOX_NOW@, "{placed}"@, r)) == marks(r),
{
    reveal_strlit(
        "({placed} AND coalesce(m.snoozed_until_ms, 0)
                                       <= (strftime('%s','now') * 1000))",
    );
    reveal_strlit("{placed}");
    unmarked_has_none(IN_INBOX_NOW@);
    assert(IN_INBOX_NOW@.subrange(1, 9) =~= "{placed}"@);
    one_slot_adds_marks(IN_INBOX_NOW@, "{placed}"@, r, 1);
}

proof fn snoozed_now_is_unmarked()
    ensures
        is_unmarked(SNOOZED_NOW@),
{
    reveal_strlit(
        "coalesce(m.snoozed_until_ms, 0) > (strftime('%s','now') * 1000)",
    );
}

proof fn not_binned_is_unmarked()
    ensures
        is_unmarked(NOT_BINNED@),
{
    reveal_strlit(
        "NOT EXISTS (SELECT 1 FROM placements p
                     JOIN folders f ON f.id = p.folder_id
                     WHERE p.message_id = {alias}.id
                       AND f.role IN ('trash','spam'))",
    );
}


// ---------------------------------------------------------------------
// The laws
// ---------------------------------------------------------------------
/// One condition has a mark for every value it binds, and no other.
pub proof fn a_mark_for_every_value(term: Ask, snoozed: bool, walking: bool)
    ensures
        marks(predicate_text(term, snoozed, walking)) == predicate_values(term).len(),
{
    slots_are_unmarked();
    match term {
        Ask::Text(_) | Ask::Subject(_) => {
            reveal_strlit("1");
            unmarked_has_none("1"@);
        },
        Ask::From(who) => {
            fillings_are_unmarked(who);
            from_holds_marks();
            filling_keeps_marks(FROM_HOLDS@, "{lower}"@, like_fold(who));
        },
        Ask::To(who) => {
            fillings_are_unmarked(who);
            recipient_marks("to"@, who, walking);
        },
        Ask::Cc(who) => {
            fillings_are_unmarked(who);
            recipient_marks("cc"@, who, walking);
        },
        Ask::In(name) => {
            fillings_are_unmarked(name);
            folder_holds_marks();
            filling_keeps_marks(FOLDER_HOLDS@, "{lower}"@, fold(name));
            let holds = folded(FOLDER_HOLDS@, fold(name));
            folder_asked_takes_in(holds);
            in_inbox_now_takes_in(held_in(FOLDER_ASKED@, holds));
        },
        Ask::Tag(name) => {
            fillings_are_unmarked(name);
            tag_holds_marks();
            filling_keeps_marks(TAG_HOLDS@, "{lower}"@, fold(name));
            let holds = folded(TAG_HOLDS@, fold(name));
            tag_walked_takes_in(holds);
            tag_asked_takes_in(holds);
        },
        Ask::Filename(part) => {
            fillings_are_unmarked(part);
            file_holds_marks();
            filling_keeps_marks(FILE_HOLDS@, "{lower}"@, like_fold(part));
            let holds = folded(FILE_HOLDS@, like_fold(part));
            file_walked_takes_in(holds);
            file_asked_takes_in(holds);
        },
        Ask::HasAttachment => {
            reveal_strlit("m.has_attachments = 1");
            unmarked_has_none("m.has_attachments = 1"@);
        },
        Ask::Is(State::Unread) => {
            reveal_strlit("m.flags & 1 = 0");
            unmarked_has_none("m.flags & 1 = 0"@);
        },
        Ask::Is(State::Read) => {
            reveal_strlit("m.flags & 1 != 0");
            unmarked_has_none("m.flags & 1 != 0"@);
        },
        Ask::Is(State::Starred) => {
            reveal_strlit("m.flags & 4 != 0");
            unmarked_has_none("m.flags & 4 != 0"@);
        },
        Ask::Is(State::Snoozed) => {
            snoozed_now_is_unmarked();
            unmarked_has_none(SNOOZED_NOW@);
        },
        Ask::After(_) => {
            reveal_strlit("m.date_ms >= ?");
            one_mark("m.date_ms >= ?"@, 13);
        },
        Ask::Before(_) => {
            reveal_strlit("m.date_ms < ?");
            one_mark("m.date_ms < ?"@, 12);
        },
        Ask::On(_) => {
            reveal_strlit("(m.date_ms >= ? AND m.date_ms < ?)");
            two_marks("(m.date_ms >= ? AND m.date_ms < ?)"@, 14, 32);
        },
    }
}

proof fn recipient_marks(role: Seq<char>, who: Seq<char>, walking: bool)
    requires
        is_unmarked(role),
    ensures
        marks(recipient_text(role, who, walking)) == 2,
{
    slots_are_unmarked();
    fillings_are_unmarked(who);
    recipient_holds_marks();
    filling_keeps_marks(RECIPIENT_HOLDS@, "{role}"@, role);
    let named = replace_all(RECIPIENT_HOLDS@, "{role}"@, role);
    filling_keeps_marks(named, "{lower}"@, like_fold(who));
    let holds = folded(named, like_fold(who));
    recipient_walked_takes_in(holds);
    recipient_asked_takes_in(holds);
}

proof fn lookup_marks(text: Phrase, there: bool)
    ensures
        marks(lookup_text(text, there)) == 1,
{
    reveal_strlit("m.id ");
    reveal_strlit("m.id NOT ");
    unmarked_has_none("m.id "@);
    unmarked_has_none("m.id NOT "@);
    looked_up_marks();
    looked_up_cjk_marks();
    marks_add_up("m.id "@, LOOKED_UP@);
    marks_add_up("m.id "@, LOOKED_UP_CJK@);
    marks_add_up("m.id NOT "@, LOOKED_UP@);
    marks_add_up("m.id NOT "@, LOOKED_UP_CJK@);
}

/// How many values some pieces of SQL wait for together.
pub open spec fn marks_in(parts: Seq<Seq<char>>) -> nat
    decreases parts.len(),
{
    if parts.len() == 0 {
        0
    } else {
        marks_in(parts.drop_last()) + marks(parts.last())
    }
}

proof fn joining_keeps_marks(parts: Seq<Seq<char>>, between: Seq<char>)
    requires
        is_unmarked(between),
    ensures
        marks(joined(parts, between)) == marks_in(parts),
    decreases parts.len(),
{
    if parts.len() > 0 {
        let front = parts.drop_last();
        joining_keeps_marks(front, between);
        unmarked_has_none(between);
        if parts.len() > 1 {
            marks_add_up(joined(front, between) + between, parts.last());
            marks_add_up(joined(front, between), between);
        } else {
            assert(marks_in(front) == 0);
        }
    }
}

proof fn brackets_are_unmarked()
    ensures
        marks("("@) == 0,
        marks(")"@) == 0,
        marks("NOT ("@) == 0,
        marks(" AND "@) == 0,
        is_unmarked(" AND "@),
        is_unmarked(" OR "@),
        marks("1"@) == 0,
        marks(guard_text()) == 0,
{
    reveal_strlit("(");
    reveal_strlit(")");
    reveal_strlit("NOT (");
    reveal_strlit(" AND ");
    reveal_strlit(" OR ");
    reveal_strlit("1");
    unmarked_has_none("("@);
    unmarked_has_none(")"@);
    unmarked_has_none("NOT ("@);
    unmarked_has_none(" AND "@);
    unmarked_has_none("1"@);
    slots_are_unmarked();
    fillings_are_unmarked(Seq::empty());
    not_binned_is_unmarked();
    unmarked_has_none(NOT_BINNED@);
    filling_keeps_marks(NOT_BINNED@, "{alias}"@, "m"@);
}

/// So has a whole tree of conditions.
pub proof fn a_mark_for_every_value_of_a_tree(
    demand: Demand,
    typing: Option<nat>,
    snoozed: bool,
    binned: bool,
    walking: bool,
)
    ensures
        marks(cond_text(demand, snoozed, binned, walking)) == cond_values(demand, typing).len(),
    decreases demand,
{
    brackets_are_unmarked();
    match demand {
        Demand::Lit(fact) => {
            a_mark_for_every_value(fact.term, snoozed, walking);
            let text = predicate_text(fact.term, snoozed, walking);
            marks_add_up("NOT ("@ + text, ")"@);
            marks_add_up("NOT ("@, text);
        },
        Demand::With(_, text, _) => lookup_marks(text, true),
        Demand::Without(_, text) => lookup_marks(text, false),
        Demand::All(parts) => {
            let s = snoozed || is_alongside(parts, Named::Snoozed);
            let b = binned || is_alongside(parts, Named::Bin);
            marks_of_parts(parts, typing, s, b, walking, false);
            let texts = cond_texts(parts, s, b, walking, false);
            joining_keeps_marks(texts, " AND "@);
            marks_add_up("("@ + joined(texts, " AND "@), ")"@);
            marks_add_up("("@, joined(texts, " AND "@));
        },
        Demand::Any(parts) => {
            let guarded = !binned && any_asks_for(parts, Named::Bin);
            marks_of_parts(parts, typing, snoozed, binned, walking, guarded);
            let texts = cond_texts(parts, snoozed, binned, walking, guarded);
            joining_keeps_marks(texts, " OR "@);
            marks_add_up("("@ + joined(texts, " OR "@), ")"@);
            marks_add_up("("@, joined(texts, " OR "@));
        },
    }
}

proof fn marks_of_parts(
    parts: Seq<Demand>,
    typing: Option<nat>,
    snoozed: bool,
    binned: bool,
    walking: bool,
    guarded: bool,
)
    ensures
        marks_in(cond_texts(parts, snoozed, binned, walking, guarded)) == conds_values(
            parts,
            typing,
        ).len(),
    decreases parts,
{
    if parts.len() > 0 {
        brackets_are_unmarked();
        let front = parts.drop_last();
        marks_of_parts(front, typing, snoozed, binned, walking, guarded);
        a_mark_for_every_value_of_a_tree(parts.last(), typing, snoozed, binned, walking);
        let text = cond_text(parts.last(), snoozed, binned, walking);
        let guard = "("@ + text + " AND "@ + guard_text() + ")"@;
        marks_add_up("("@ + text + " AND "@ + guard_text(), ")"@);
        marks_add_up("("@ + text + " AND "@, guard_text());
        marks_add_up("("@ + text, " AND "@);
        marks_add_up("("@, text);
        let before = cond_texts(front, snoozed, binned, walking, guarded);
        assert(before.push(text).drop_last() =~= before);
        assert(before.push(guard).drop_last() =~= before);
    }
}

proof fn marks_of_what_is_refused(unwanted: Seq<(Column, Phrase)>, ranked: bool, cjk: bool)
    ensures
        marks(refused(unwanted, ranked, cjk).sql) == refused(unwanted, ranked, cjk).values.len(),
    decreases unwanted.len(),
{
    if unwanted.len() > 0 {
        brackets_are_unmarked();
        marks_of_what_is_refused(unwanted.drop_last(), ranked, cjk);
        let front = refused(unwanted.drop_last(), ranked, cjk);
        let (_, text) = unwanted.last();
        lookup_marks(text, false);
        marks_add_up(" AND "@, lookup_text(text, false));
        marks_add_up(front.sql, " AND "@ + lookup_text(text, false));
    }
}

proof fn marks_of_conditions(
    conds: Seq<Demand>,
    typing: Option<nat>,
    snoozed: bool,
    binned: bool,
    walking: bool,
)
    ensures
        marks(conds_text(conds, snoozed, binned, walking)) == conds_bind(conds, typing).len(),
    decreases conds.len(),
{
    if conds.len() > 0 {
        brackets_are_unmarked();
        let front = conds.drop_last();
        marks_of_conditions(front, typing, snoozed, binned, walking);
        a_mark_for_every_value_of_a_tree(conds.last(), typing, snoozed, binned, walking);
        let text = cond_text(conds.last(), snoozed, binned, walking);
        marks_add_up(" AND "@, text);
        marks_add_up(conds_text(front, snoozed, binned, walking), " AND "@ + text);
    }
}

/// And so has a whole statement: its conditions wait for as many values as
/// are bound to them.
pub proof fn a_mark_for_every_value_of_a_statement(
    statement: Statement,
    account: int,
    typing: Option<nat>,
)
    ensures
        bound_as(statement, account, typing) matches Some(written) ==> marks(written.conditions)
            == written.values.len(),
{
    brackets_are_unmarked();
    reveal_strlit(" AND m.id IN (SELECT rowid FROM fts_messages WHERE fts_messages MATCH ?)");
    one_mark(BESIDE@, 70);
    reveal_strlit(" AND m.account_id = ?");
    one_mark(OF_ACCOUNT@, 20);
    if let Some(written) = bound_as(statement, account, typing) {
        let cjk = any_asks_cjk(statement.wanted);
        let wanted = script_texts(statement.wanted, cjk, cjk, typing);
        let beside = script_texts(statement.wanted, !cjk, false, typing);
        let unwanted = refused(statement.unwanted, wanted.len() > 0, cjk);
        let walking = wanted.len() == 0 && !any_looks_up(statement.conds);
        let snoozed = is_alongside(statement.conds, Named::Snoozed);
        let binned = is_alongside(statement.conds, Named::Bin);
        let first = if beside.len() > 0 {
            BESIDE@
        } else {
            Seq::empty()
        };
        let guard = if any_asks_for(statement.conds, Named::Bin) {
            Seq::empty()
        } else {
            " AND "@ + guard_text()
        };
        let rest = conds_text(statement.conds, snoozed, binned, walking);
        marks_of_what_is_refused(statement.unwanted, wanted.len() > 0, cjk);
        marks_of_conditions(statement.conds, typing, snoozed, binned, walking);
        marks_add_up(" AND "@, guard_text());
        marks_add_up(first, OF_ACCOUNT@);
        marks_add_up(first + OF_ACCOUNT@, guard);
        marks_add_up(first + OF_ACCOUNT@ + guard, unwanted.sql);
        marks_add_up(first + OF_ACCOUNT@ + guard + unwanted.sql, rest);
    }
}

} // verus!
