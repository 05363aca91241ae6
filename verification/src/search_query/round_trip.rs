//! Writing a query out and reading it back.
//!
//! The query as it would be typed reads back as the same query. The proof
//! follows the text through the reading of the field: what the pieces of the
//! text are, what each piece is read as, and what tree the pieces build.

use super::calendar::{period_text_reads_back, Stretch};
use super::lexer::{dashes, is_quote_mark, is_spacing, lexed, marks_of, Chunk, Lexing, Mark};
use super::printer::{
    all_text, any_text, can_be_bare, minus, point_text, quotable, quoted, settled_point, tree_text,
    wants_quotes,
};
use super::reader::{asked, held, operator_end, reading, without_dashes, Reading};
use super::{Ask, Point, State, Tree, MAX_VALUE_CHARS};
use crate::text::{
    ascii_lowercase, first_char_is_found, has_char, has_white, is_digit, is_trimmed, is_white,
    lower, padded, padded_reads_back, trim_fixes, without_absent,
};
use vstd::prelude::*;

verus! {

// ---------------------------------------------------------------------
// Values the field can hold
// ---------------------------------------------------------------------
/// No quote marks, and no spacing but single spaces.
pub open spec fn is_clean(s: Seq<char>) -> bool {
    &&& forall|i: int|
        0 <= i < s.len() ==> !is_quote_mark(#[trigger] s[i]) && (is_spacing(s[i]) ==> s[i] == ' ')
    &&& forall|i: int| 0 < i < s.len() && #[trigger] s[i] == ' ' ==> s[i - 1] != ' '
}

/// A value the field can hold: some characters, within the limit, with no
/// space at either end.
pub open spec fn is_holdable(v: Seq<char>) -> bool {
    &&& 0 < v.len() <= MAX_VALUE_CHARS
    &&& is_trimmed(v)
    &&& is_clean(v)
}

/// A character that is itself wherever it stands in the field.
pub open spec fn is_plain_char(c: char) -> bool {
    !is_quote_mark(c) && !is_spacing(c) && c != '(' && c != ')'
}

pub open spec fn all_plain(s: Seq<char>) -> bool {
    forall|i: int| 0 <= i < s.len() ==> is_plain_char(#[trigger] s[i])
}

proof fn holdable_is_held(v: Seq<char>)
    requires
        is_holdable(v),
    ensures
        held(v) == v,
        quotable(v) == v,
{
    trim_fixes(v);
    assert(!has_char(v, '"'));
    without_absent(v, '"');
}

// ---------------------------------------------------------------------
// Lexing, a stretch at a time
// ---------------------------------------------------------------------
pub open spec fn first_or(s: Seq<char>, after: Option<char>) -> Option<char> {
    if s.len() > 0 {
        Some(s[0])
    } else {
        after
    }
}

/// Reading on through two stretches is reading on through one and then the
/// other.
pub proof fn lexed_in_two(from: Lexing, a: Seq<char>, b: Seq<char>, after: Option<char>)
    ensures
        lexed(from, a + b, after) == lexed(lexed(from, a, first_or(b, after)), b, after),
    decreases b.len(),
{
    if b.len() == 0 {
        assert(a + b =~= a);
    } else {
        assert((a + b).drop_last() =~= a + b.drop_last());
        lexed_in_two(from, a, b.drop_last(), Some(b.last()));
        assert(first_or(b.drop_last(), Some(b.last())) == first_or(b, after));
    }
}

/// Plain characters are added to the piece.
proof fn lexed_plain(from: Lexing, w: Seq<char>, after: Option<char>)
    requires
        all_plain(w),
    ensures
        lexed(from, w, after) == (Lexing { text: from.text + w, ..from }),
    decreases w.len(),
{
    if w.len() > 0 {
        lexed_plain(from, w.drop_last(), Some(w.last()));
        assert((from.text + w.drop_last()).push(w.last()) =~= from.text + w);
    } else {
        assert(from.text + w =~= from.text);
    }
}

/// So is anything clean, inside quotes.
proof fn lexed_quoted(from: Lexing, w: Seq<char>, after: Option<char>)
    requires
        from.quoted,
        is_clean(w),
        w.len() > 0 ==> w[0] != ' ',
    ensures
        lexed(from, w, after) == (Lexing { text: from.text + w, ..from }),
    decreases w.len(),
{
    if w.len() > 0 {
        let front = w.drop_last();
        assert(forall|i: int| 0 <= i < front.len() ==> front[i] == w[i]);
        lexed_quoted(from, front, Some(w.last()));
        let now = lexed(from, front, Some(w.last()));
        assert((from.text + front).push(w.last()) =~= from.text + w);
        if w.last() == ' ' {
            assert(w[w.len() - 1] == ' ');
            assert(front.len() > 0);
            assert(now.text.last() == front.last());
        }
    } else {
        assert(from.text + w =~= from.text);
    }
}

proof fn lexed_char(from: Lexing, c: char, after: Option<char>)
    ensures
        lexed(from, seq![c], after) == from.next(c, after),
{
    reveal_with_fuel(lexed, 2);
    assert(seq![c].drop_last() =~= Seq::<char>::empty());
}

/// A quoted value is added to the piece, with a note of where it began.
proof fn lexed_in_quotes(from: Lexing, v: Seq<char>, after: Option<char>)
    requires
        !from.quoted,
        from.quote_at is None,
        is_holdable(v),
    ensures
        lexed(from, seq!['"'] + v + seq!['"'], after) == (Lexing {
            text: from.text + v,
            quote_at: Some(from.text.len() as int),
            ..from
        }),
{
    let whole = seq!['"'] + v + seq!['"'];
    let inside = Lexing { quoted: true, quote_at: Some(from.text.len() as int), ..from };
    lexed_in_two(from, seq!['"'] + v, seq!['"'], after);
    lexed_in_two(from, seq!['"'], v, Some('"'));
    lexed_char(from, '"', Some(v[0]));
    lexed_quoted(inside, v, Some('"'));
    lexed_char(Lexing { text: from.text + v, ..inside }, '"', after);
}

/// The start of a piece.
pub open spec fn fresh(out: Seq<Mark>, depth: nat) -> Lexing {
    Lexing { out, text: Seq::empty(), quote_at: None, quoted: false, depth }
}

// ---------------------------------------------------------------------
// The piece a clause is written as
// ---------------------------------------------------------------------
/// The operator a term is written with.
pub open spec fn key_text(term: Ask) -> Seq<char> {
    match term {
        Ask::Text(_) => Seq::empty(),
        Ask::Subject(_) => "subject:"@,
        Ask::From(_) => "from:"@,
        Ask::To(_) => "to:"@,
        Ask::Cc(_) => "cc:"@,
        Ask::In(_) => "in:"@,
        Ask::Tag(_) => "tag:"@,
        Ask::Filename(_) => "filename:"@,
        Ask::Is(_) => "is:"@,
        Ask::HasAttachment => "has:"@,
        Ask::After(_) => "after:"@,
        Ask::Before(_) => "before:"@,
        Ask::On(_) => "date:"@,
    }
}

/// The value a term is written with.
pub open spec fn value_text(term: Ask) -> Seq<char> {
    match term {
        Ask::Text(text) => text.value,
        Ask::Subject(text) => text.value,
        Ask::From(v) => v,
        Ask::To(v) => v,
        Ask::Cc(v) => v,
        Ask::In(v) => v,
        Ask::Tag(v) => v,
        Ask::Filename(v) => v,
        Ask::Is(State::Unread) => "unread"@,
        Ask::Is(State::Read) => "read"@,
        Ask::Is(State::Starred) => "starred"@,
        Ask::Is(State::Snoozed) => "snoozed"@,
        Ask::HasAttachment => "attachment"@,
        Ask::After(when) => when.text(),
        Ask::Before(when) => when.text(),
        Ask::On(when) => when.text(),
    }
}

/// Whether the value is written in quotes.
pub open spec fn is_written_quoted(point: Point) -> bool {
    match point.term {
        Ask::Text(_) => !can_be_bare(point),
        Ask::Subject(text) => text.exact || wants_quotes(text.value),
        term => wants_quotes(value_text(term)),
    }
}

/// A clause whose value the field can hold, or whose date is one.
pub open spec fn is_holdable_point(point: Point) -> bool {
    match point.term {
        Ask::After(when) => when.is_real(),
        Ask::Before(when) => when.is_real(),
        Ask::On(when) => when.is_real(),
        Ask::In(v) => is_holdable(v) && held(lower(v)) == v,
        Ask::Is(_) | Ask::HasAttachment => true,
        term => is_holdable(value_text(term)),
    }
}

pub open spec fn piece_of(point: Point) -> Chunk {
    let before = minus(point.negated) + key_text(point.term);
    Chunk {
        text: before + value_text(point.term),
        quote_at: if is_written_quoted(point) {
            Some(before.len() as int)
        } else {
            None
        },
    }
}

/// What the text of an operator is like: plain letters, then a colon.
pub open spec fn is_key(k: Seq<char>) -> bool {
    &&& k.len() > 1
    &&& k.last() == ':'
    &&& forall|i: int| 0 <= i < k.len() - 1 ==> 'a' <= #[trigger] k[i] <= 'z'
}

proof fn keys_are_keys(term: Ask)
    requires
        !(term is Text),
    ensures
        is_key(key_text(term)),
        all_plain(key_text(term)),
{
    reveal_strlit("subject:");
    reveal_strlit("from:");
    reveal_strlit("to:");
    reveal_strlit("cc:");
    reveal_strlit("in:");
    reveal_strlit("tag:");
    reveal_strlit("filename:");
    reveal_strlit("is:");
    reveal_strlit("has:");
    reveal_strlit("after:");
    reveal_strlit("before:");
    reveal_strlit("date:");
}

proof fn names_are_holdable()
    ensures
        is_holdable("unread"@) && all_plain("unread"@),
        is_holdable("read"@) && all_plain("read"@),
        is_holdable("starred"@) && all_plain("starred"@),
        is_holdable("snoozed"@) && all_plain("snoozed"@),
        is_holdable("attachment"@) && all_plain("attachment"@),
{
    reveal_strlit("unread");
    reveal_strlit("read");
    reveal_strlit("starred");
    reveal_strlit("snoozed");
    reveal_strlit("attachment");
}

proof fn dates_are_holdable(date: Stretch)
    requires
        date.is_real(),
    ensures
        is_holdable(date.text()),
        all_plain(date.text()),
        ascii_lowercase(date.text()) == date.text(),
{
    let s = date.text();
    padded_reads_back(date.year as nat, 4);
    if date.month is Some {
        padded_reads_back(date.month->0 as nat, 2);
    }
    if date.day is Some {
        padded_reads_back(date.day->0 as nat, 2);
    }
    assert forall|i: int| 0 <= i < s.len() implies is_digit(#[trigger] s[i]) || s[i] == '-' by {
        let year = padded(date.year as nat, 4);
        if i < 4 {
            assert(s[i] == year[i]);
        } else if i != 4 && i != 7 {
            let month = padded(date.month->0 as nat, 2);
            if i < 7 {
                assert(s[i] == month[i - 5]);
            } else {
                let day = padded(date.day->0 as nat, 2);
                assert(s[i] == day[i - 8]);
            }
        }
    }
    assert(ascii_lowercase(s) =~= s);
}

proof fn values_are_holdable(point: Point)
    requires
        is_holdable_point(point),
    ensures
        is_holdable(value_text(point.term)),
{
    names_are_holdable();
    match point.term {
        Ask::After(when) => dates_are_holdable(when),
        Ask::Before(when) => dates_are_holdable(when),
        Ask::On(when) => dates_are_holdable(when),
        _ => {},
    }
}

/// A clean value that does not want quotes is plain.
proof fn unquoted_is_plain(v: Seq<char>)
    requires
        is_clean(v),
        !wants_quotes(v),
    ensures
        all_plain(v),
{
    assert forall|i: int| 0 <= i < v.len() implies is_plain_char(#[trigger] v[i]) by {
        assert(!is_white(v[i]));
        assert(v[i] != '(' && v[i] != ')');
    }
}

proof fn plain_wants_no_quotes(v: Seq<char>)
    requires
        all_plain(v),
    ensures
        !wants_quotes(v),
{
}

/// A clause is written as its operator and then its value, in quotes or not.
proof fn point_text_is_its_parts(point: Point)
    requires
        is_holdable_point(point),
    ensures
        point_text(point) == minus(point.negated) + key_text(point.term) + if is_written_quoted(
            point,
        ) {
            seq!['"'] + value_text(point.term) + seq!['"']
        } else {
            value_text(point.term)
        },
{
    values_are_holdable(point);
    let v = value_text(point.term);
    holdable_is_held(v);
    names_are_holdable();
    let whole = minus(point.negated) + key_text(point.term) + if is_written_quoted(point) {
        seq!['"'] + v + seq!['"']
    } else {
        v
    };
    match point.term {
        Ask::Text(_) => {
            assert(point_text(point) =~= whole);
        },
        Ask::Is(state) => {
            plain_wants_no_quotes(v);
            reveal_strlit("is:");
            match state {
                State::Unread => {
                    reveal_strlit("is:unread");
                    reveal_strlit("unread");
                    assert("is:unread"@ =~= "is:"@ + "unread"@);
                },
                State::Read => {
                    reveal_strlit("is:read");
                    reveal_strlit("read");
                    assert("is:read"@ =~= "is:"@ + "read"@);
                },
                State::Starred => {
                    reveal_strlit("is:starred");
                    reveal_strlit("starred");
                    assert("is:starred"@ =~= "is:"@ + "starred"@);
                },
                State::Snoozed => {
                    reveal_strlit("is:snoozed");
                    reveal_strlit("snoozed");
                    assert("is:snoozed"@ =~= "is:"@ + "snoozed"@);
                },
            }
            assert(point_text(point) =~= whole);
        },
        Ask::HasAttachment => {
            plain_wants_no_quotes(v);
            reveal_strlit("has:");
            reveal_strlit("has:attachment");
            reveal_strlit("attachment");
            assert("has:attachment"@ =~= "has:"@ + "attachment"@);
            assert(point_text(point) =~= whole);
        },
        Ask::After(when) => {
            dates_are_holdable(when);
            plain_wants_no_quotes(v);
            assert(point_text(point) =~= whole);
        },
        Ask::Before(when) => {
            dates_are_holdable(when);
            plain_wants_no_quotes(v);
            assert(point_text(point) =~= whole);
        },
        Ask::On(when) => {
            dates_are_holdable(when);
            plain_wants_no_quotes(v);
            assert(point_text(point) =~= whole);
        },
        _ => {
            assert(point_text(point) =~= whole);
        },
    }
}

/// The text of a clause is one piece.
proof fn lexed_point(out: Seq<Mark>, depth: nat, point: Point, after: Option<char>)
    requires
        is_holdable_point(point),
    ensures
        ({
            let piece = piece_of(point);
            lexed(fresh(out, depth), point_text(point), after) == (Lexing {
                text: piece.text,
                quote_at: piece.quote_at,
                ..fresh(out, depth)
            })
        }),
        piece_of(point).text.len() > 0,
{
    point_text_is_its_parts(point);
    values_are_holdable(point);
    let from = fresh(out, depth);
    let v = value_text(point.term);
    let before = minus(point.negated) + key_text(point.term);
    if !(point.term is Text) {
        keys_are_keys(point.term);
    }
    assert(all_plain(before));
    let typed = if is_written_quoted(point) {
        seq!['"'] + v + seq!['"']
    } else {
        v
    };
    lexed_in_two(from, before, typed, after);
    lexed_plain(from, before, first_or(typed, after));
    let middle = Lexing { text: from.text + before, ..from };
    assert(from.text + before =~= before);
    if is_written_quoted(point) {
        lexed_in_quotes(middle, v, after);
    } else {
        match point.term {
            Ask::Text(text) => {
                let bare = minus(point.negated) + v;
                assert forall|i: int| 0 <= i < v.len() implies is_plain_char(#[trigger] v[i]) by {
                    assert(bare[i + minus(point.negated).len()] == v[i]);
                    assert(!has_char(bare, '(') && !has_char(bare, ')') && !has_white(bare));
                }
            },
            _ => {
                unquoted_is_plain(v);
            },
        }
        lexed_plain(middle, v, after);
    }
}

// ---------------------------------------------------------------------
// What the piece is read as
// ---------------------------------------------------------------------
proof fn keys_differ()
    ensures
        "to"@ != "from"@,
        "cc"@ != "from"@ && "cc"@ != "to"@,
        "subject"@ != "from"@ && "subject"@ != "to"@ && "subject"@ != "cc"@,
        "in"@ != "from"@ && "in"@ != "to"@ && "in"@ != "cc"@ && "in"@ != "subject"@,
        "tag"@ != "from"@ && "tag"@ != "to"@ && "tag"@ != "cc"@ && "tag"@ != "subject"@ && "tag"@
            != "in"@,
        "filename"@ != "from"@ && "filename"@ != "to"@ && "filename"@ != "cc"@ && "filename"@
            != "subject"@ && "filename"@ != "in"@ && "filename"@ != "tag"@,
        "has"@ != "from"@ && "has"@ != "to"@ && "has"@ != "cc"@ && "has"@ != "subject"@ && "has"@
            != "in"@ && "has"@ != "tag"@ && "has"@ != "filename"@,
        "is"@ != "from"@ && "is"@ != "to"@ && "is"@ != "cc"@ && "is"@ != "subject"@ && "is"@
            != "in"@ && "is"@ != "tag"@ && "is"@ != "filename"@ && "is"@ != "has"@,
{
    reveal_strlit("from");
    reveal_strlit("to");
    reveal_strlit("cc");
    reveal_strlit("subject");
    reveal_strlit("in");
    reveal_strlit("tag");
    reveal_strlit("filename");
    reveal_strlit("has");
    reveal_strlit("is");
    assert("from"@.len() == 4 && "subject"@.len() == 7 && "filename"@.len() == 8);
    assert("tag"@.len() == 3 && "has"@.len() == 3);
    assert("to"@.len() == 2 && "cc"@.len() == 2 && "in"@.len() == 2 && "is"@.len() == 2);
    assert("to"@[0] == 't' && "cc"@[0] == 'c' && "in"@[0] == 'i' && "is"@[0] == 'i');
    assert("in"@[1] == 'n' && "is"@[1] == 's');
    assert("tag"@[0] == 't' && "has"@[0] == 'h');
}

proof fn date_keys_differ()
    ensures
        "after"@ != "from"@ && "after"@ != "to"@ && "after"@ != "cc"@ && "after"@ != "subject"@
            && "after"@ != "in"@ && "after"@ != "tag"@ && "after"@ != "filename"@ && "after"@
            != "has"@ && "after"@ != "is"@,
        "before"@ != "from"@ && "before"@ != "to"@ && "before"@ != "cc"@ && "before"@ != "subject"@
            && "before"@ != "in"@ && "before"@ != "tag"@ && "before"@ != "filename"@ && "before"@
            != "has"@ && "before"@ != "is"@ && "before"@ != "after"@,
        "date"@ != "from"@ && "date"@ != "to"@ && "date"@ != "cc"@ && "date"@ != "subject"@
            && "date"@ != "in"@ && "date"@ != "tag"@ && "date"@ != "filename"@ && "date"@ != "has"@
            && "date"@ != "is"@ && "date"@ != "after"@ && "date"@ != "before"@,
{
    reveal_strlit("from");
    reveal_strlit("to");
    reveal_strlit("cc");
    reveal_strlit("subject");
    reveal_strlit("in");
    reveal_strlit("tag");
    reveal_strlit("filename");
    reveal_strlit("has");
    reveal_strlit("is");
    reveal_strlit("after");
    reveal_strlit("before");
    reveal_strlit("date");
    assert("from"@.len() == 4 && "subject"@.len() == 7 && "filename"@.len() == 8);
    assert("tag"@.len() == 3 && "has"@.len() == 3);
    assert("to"@.len() == 2 && "cc"@.len() == 2 && "in"@.len() == 2 && "is"@.len() == 2);
    assert("after"@.len() == 5 && "before"@.len() == 6 && "date"@.len() == 4);
    assert("from"@[0] == 'f' && "date"@[0] == 'd');
}

proof fn names_differ()
    ensures
        "read"@ != "unread"@,
        "starred"@ != "unread"@ && "starred"@ != "read"@,
        "snoozed"@ != "unread"@ && "snoozed"@ != "read"@ && "snoozed"@ != "starred"@ && "snoozed"@
            != "flagged"@,
        ascii_lowercase("unread"@) == "unread"@,
        ascii_lowercase("read"@) == "read"@,
        ascii_lowercase("starred"@) == "starred"@,
        ascii_lowercase("snoozed"@) == "snoozed"@,
        ascii_lowercase("attachment"@) == "attachment"@,
{
    reveal_strlit("unread");
    reveal_strlit("read");
    reveal_strlit("starred");
    reveal_strlit("snoozed");
    reveal_strlit("flagged");
    reveal_strlit("attachment");
    assert("starred"@[1] == 't' && "snoozed"@[1] == 'n' && "flagged"@[0] == 'f' && "snoozed"@[0]
        == 's');
    assert(ascii_lowercase("unread"@) =~= "unread"@);
    assert(ascii_lowercase("read"@) =~= "read"@);
    assert(ascii_lowercase("starred"@) =~= "starred"@);
    assert(ascii_lowercase("snoozed"@) =~= "snoozed"@);
    assert(ascii_lowercase("attachment"@) =~= "attachment"@);
}

/// The word of an operator, without its colon.
proof fn key_words()
    ensures
        "subject:"@.drop_last() == "subject"@,
        "from:"@.drop_last() == "from"@,
        "to:"@.drop_last() == "to"@,
        "cc:"@.drop_last() == "cc"@,
        "in:"@.drop_last() == "in"@,
        "tag:"@.drop_last() == "tag"@,
        "filename:"@.drop_last() == "filename"@,
        "is:"@.drop_last() == "is"@,
        "has:"@.drop_last() == "has"@,
        "after:"@.drop_last() == "after"@,
        "before:"@.drop_last() == "before"@,
        "date:"@.drop_last() == "date"@,
{
    reveal_strlit("subject:");
    reveal_strlit("subject");
    assert("subject:"@.drop_last() =~= "subject"@);
    reveal_strlit("from:");
    reveal_strlit("from");
    assert("from:"@.drop_last() =~= "from"@);
    reveal_strlit("to:");
    reveal_strlit("to");
    assert("to:"@.drop_last() =~= "to"@);
    reveal_strlit("cc:");
    reveal_strlit("cc");
    assert("cc:"@.drop_last() =~= "cc"@);
    reveal_strlit("in:");
    reveal_strlit("in");
    assert("in:"@.drop_last() =~= "in"@);
    reveal_strlit("tag:");
    reveal_strlit("tag");
    assert("tag:"@.drop_last() =~= "tag"@);
    reveal_strlit("filename:");
    reveal_strlit("filename");
    assert("filename:"@.drop_last() =~= "filename"@);
    reveal_strlit("is:");
    reveal_strlit("is");
    assert("is:"@.drop_last() =~= "is"@);
    reveal_strlit("has:");
    reveal_strlit("has");
    assert("has:"@.drop_last() =~= "has"@);
    reveal_strlit("after:");
    reveal_strlit("after");
    assert("after:"@.drop_last() =~= "after"@);
    reveal_strlit("before:");
    reveal_strlit("before");
    assert("before:"@.drop_last() =~= "before"@);
    reveal_strlit("date:");
    reveal_strlit("date");
    assert("date:"@.drop_last() =~= "date"@);
}

/// An operator's word and value mean the term they were written for.
proof fn operator_means_its_term(point: Point)
    requires
        is_holdable_point(point),
        !(point.term is Text),
        settled_point(point) == point,
    ensures
        asked(
            key_text(point.term).drop_last(),
            value_text(point.term),
            is_written_quoted(point),
        ) == Some(point.term),
{
    key_words();
    keys_differ();
    values_are_holdable(point);
    holdable_is_held(value_text(point.term));
    match point.term {
        Ask::After(date) => {
            date_keys_differ();
            dates_are_holdable(date);
            period_text_reads_back(date);
        },
        Ask::Before(date) => {
            date_keys_differ();
            dates_are_holdable(date);
            period_text_reads_back(date);
        },
        Ask::On(date) => {
            date_keys_differ();
            dates_are_holdable(date);
            period_text_reads_back(date);
        },
        Ask::Is(_) => {
            names_differ();
        },
        Ask::HasAttachment => {
            names_differ();
        },
        Ask::Subject(text) => {
            assert(is_written_quoted(point) == text.exact);
        },
        _ => {},
    }
}

/// A text with a colon in it is no keyword.
proof fn keywords_have_no_colon(s: Seq<char>, at: int)
    requires
        0 <= at < s.len(),
        s[at] == ':',
    ensures
        s != "AND"@ && s != "OR"@ && s != "NOT"@,
{
    reveal_strlit("AND");
    reveal_strlit("OR");
    reveal_strlit("NOT");
}

proof fn dashes_of(negated: bool, rest: Seq<char>)
    requires
        rest.len() > 0 ==> rest[0] != '-',
    ensures
        dashes(minus(negated) + rest) == minus(negated).len(),
{
    reveal_with_fuel(dashes, 2);
    let s = minus(negated) + rest;
    if negated {
        assert(s.skip(1) =~= rest);
    } else {
        assert(s =~= rest);
    }
}

/// The piece a clause is written as reads as that clause.
pub proof fn piece_reads_back(point: Point)
    requires
        is_holdable_point(point),
        settled_point(point) == point,
    ensures
        reading(piece_of(point)) == Reading::Clause(point),
{
    values_are_holdable(point);
    let v = value_text(point.term);
    holdable_is_held(v);
    let piece = piece_of(point);
    let m = minus(point.negated);
    match point.term {
        Ask::Text(text) => {
            assert(m + key_text(point.term) =~= m);
            assert(piece.text == m + v);
            if is_written_quoted(point) {
                assert(piece.text.take(m.len() as int) =~= m);
                assert(m + Seq::<char>::empty() =~= m);
                dashes_of(point.negated, Seq::empty());
                let bare = without_dashes(piece);
                assert(bare.text =~= v);
                assert(bare.quote_at == Some(0int));
                crate::text::find_char_is_first(v, ':', 0);
                assert(operator_end(bare) is None);
                assert(reading(piece) =~= Reading::Clause(point));
            } else {
                // It was written bare because it reads back.
                lexed_point(Seq::empty(), 0, point, None);
                assert(point_text(point) =~= m + v);
                assert(fresh(Seq::empty(), 0) == Lexing::start());
                assert(marks_of(m + v) =~= seq![Mark::Piece(piece)]);
            }
        },
        term => {
            let k = key_text(term);
            keys_are_keys(term);
            assert(piece.text =~= m + (k + v));
            let colon = m.len() + k.len() - 1;
            assert(piece.text[colon] == k[k.len() - 1]);
            keywords_have_no_colon(piece.text, colon);
            let head = match piece.quote_at {
                Some(at) => piece.text.take(at),
                None => piece.text,
            };
            if is_written_quoted(point) {
                assert(head =~= m + k);
                dashes_of(point.negated, k);
            } else {
                dashes_of(point.negated, k + v);
            }
            let bare = without_dashes(piece);
            assert(bare.text =~= k + v);
            first_char_is_found(bare.text, ':', 0, k.len() - 1);
            assert(operator_end(bare) == Some(k.len() - 1));
            assert(bare.text.take(k.len() - 1) =~= k.drop_last());
            assert(ascii_lowercase(k.drop_last()) =~= k.drop_last());
            assert(bare.text.skip(k.len() as int) =~= v);
            operator_means_its_term(point);
            assert(reading(piece) =~= Reading::Clause(point));
        },
    }
}

// ---------------------------------------------------------------------
// The pieces a tree is written as
// ---------------------------------------------------------------------
/// The tidy form: an `All` never directly holds an `All`, nor an `Any` an
/// `Any`, neither holds fewer than two things, and a `Not` holds one of those
/// groups rather than a single term.
pub open spec fn is_tidy(tree: Tree) -> bool
    decreases tree,
{
    match tree {
        Tree::Clause(_) => true,
        Tree::Not(inner) => (*inner is All || *inner is Any) && is_tidy(*inner),
        Tree::All(parts) => parts.len() >= 2 && forall|i: int|
            0 <= i < parts.len() ==> !(#[trigger] parts[i] is All) && is_tidy(parts[i]),
        Tree::Any(parts) => parts.len() >= 2 && forall|i: int|
            0 <= i < parts.len() ==> !(#[trigger] parts[i] is Any) && is_tidy(parts[i]),
    }
}

/// Every clause of the tree can be held by the field, and wears quotes where
/// it has to.
pub open spec fn is_writable(tree: Tree) -> bool
    decreases tree,
{
    match tree {
        Tree::Clause(point) => is_holdable_point(point) && settled_point(point) == point,
        Tree::Not(inner) => is_writable(*inner),
        Tree::All(parts) => forall|i: int|
            0 <= i < parts.len() ==> is_writable(#[trigger] parts[i]),
        Tree::Any(parts) => forall|i: int|
            0 <= i < parts.len() ==> is_writable(#[trigger] parts[i]),
    }
}

/// How many clauses a tree holds.
pub open spec fn clauses(tree: Tree) -> nat
    decreases tree,
{
    match tree {
        Tree::Clause(_) => 1,
        Tree::Not(inner) => clauses(*inner),
        Tree::All(parts) => clauses_in(parts),
        Tree::Any(parts) => clauses_in(parts),
    }
}

pub open spec fn clauses_in(parts: Seq<Tree>) -> nat
    decreases parts,
{
    if parts.len() == 0 {
        0
    } else {
        clauses_in(parts.drop_last()) + clauses(parts.last())
    }
}

pub open spec fn or_piece() -> Chunk {
    Chunk { text: "OR"@, quote_at: None }
}

pub open spec fn tree_marks(tree: Tree) -> Seq<Mark>
    decreases tree, 0nat,
{
    match tree {
        Tree::Clause(point) => seq![Mark::Piece(piece_of(point))],
        Tree::Not(inner) => seq![Mark::Minus, Mark::Open] + tree_marks(*inner) + seq![Mark::Close],
        Tree::All(parts) => all_marks(parts, parts.len()),
        Tree::Any(parts) => any_marks(parts, parts.len()),
    }
}

pub open spec fn part_marks(tree: Tree) -> Seq<Mark>
    decreases tree, 1nat,
{
    match tree {
        Tree::Any(_) => seq![Mark::Open] + tree_marks(tree) + seq![Mark::Close],
        _ => tree_marks(tree),
    }
}

pub open spec fn all_marks(parts: Seq<Tree>, n: nat) -> Seq<Mark>
    decreases parts, n,
{
    if n == 0 || n > parts.len() {
        Seq::empty()
    } else {
        all_marks(parts, (n - 1) as nat) + part_marks(parts[n - 1])
    }
}

pub open spec fn any_marks(parts: Seq<Tree>, n: nat) -> Seq<Mark>
    decreases parts, n,
{
    if n == 0 || n > parts.len() {
        Seq::empty()
    } else if n == 1 {
        tree_marks(parts[0])
    } else {
        any_marks(parts, (n - 1) as nat) + seq![Mark::Piece(or_piece())] + tree_marks(parts[n - 1])
    }
}

/// A character that can stand after a whole tree: nothing, a space, or the
/// bracket that closes it.
pub open spec fn can_follow(after: Option<char>) -> bool {
    after is None || after == Some(' ') || after == Some(')')
}

/// Reading through a text from a fresh start has finished these pieces, but
/// for flushing the last.
pub open spec fn lexes_to(
    s: Seq<char>,
    out: Seq<Mark>,
    depth: nat,
    after: Option<char>,
    more: Seq<Mark>,
) -> bool {
    let end = lexed(fresh(out, depth), s, after);
    &&& !end.quoted
    &&& end.depth == depth
    &&& end.flushed() == fresh(out + more, depth)
}

/// A text, a space, and a text.
proof fn lexed_spaced(
    a: Seq<char>,
    b: Seq<char>,
    out: Seq<Mark>,
    depth: nat,
    after: Option<char>,
    first: Seq<Mark>,
    second: Seq<Mark>,
)
    requires
        lexes_to(a, out, depth, Some(' '), first),
        lexes_to(b, out + first, depth, after, second),
    ensures
        lexes_to(a + " "@ + b, out, depth, after, first + second),
{
    reveal_strlit(" ");
    assert(" "@ =~= seq![' ']);
    lexed_in_two(fresh(out, depth), a + " "@, b, after);
    lexed_in_two(fresh(out, depth), a, " "@, first_or(b, after));
    lexed_char(lexed(fresh(out, depth), a, Some(' ')), ' ', first_or(b, after));
    assert(out + first + second =~= out + (first + second));
}

/// A text in brackets, from where the bracket has opened.
proof fn lexed_to_close(
    s: Seq<char>,
    out: Seq<Mark>,
    depth: nat,
    after: Option<char>,
    inside: Seq<Mark>,
)
    requires
        lexes_to(s, out, depth + 1, Some(')'), inside),
        can_follow(after),
    ensures
        lexed(fresh(out, depth + 1), s + ")"@, after) == fresh(
            out + inside + seq![Mark::Close],
            depth,
        ),
{
    reveal_strlit(")");
    assert(")"@ =~= seq![')']);
    lexed_in_two(fresh(out, depth + 1), s, ")"@, after);
    let end = lexed(fresh(out, depth + 1), s, Some(')'));
    lexed_char(end, ')', after);
    assert((out + inside).push(Mark::Close) =~= out + inside + seq![Mark::Close]);
}

proof fn lexed_open(out: Seq<Mark>, depth: nat, after: Option<char>)
    ensures
        lexed(fresh(out, depth), "("@, after) == fresh(out + seq![Mark::Open], depth + 1),
        lexed(fresh(out, depth), "-("@, after) == fresh(
            out + seq![Mark::Minus, Mark::Open],
            depth + 1,
        ),
{
    reveal_strlit("(");
    reveal_strlit("-(");
    assert("("@ =~= seq!['(']);
    assert("-("@ =~= seq!['-'] + seq!['(']);
    let from = fresh(out, depth);
    lexed_char(from, '(', after);
    assert(Seq::<Mark>::empty().push(Mark::Open) =~= seq![Mark::Open]);
    lexed_in_two(from, seq!['-'], seq!['('], after);
    lexed_char(from, '-', Some('('));
    let dashed = from.next('-', Some('('));
    assert(dashed.text =~= seq!['-']);
    assert(dashes(dashed.text) == 1) by {
        reveal_with_fuel(dashes, 2);
    }
    lexed_char(dashed, '(', after);
    assert(seq![Mark::Minus].push(Mark::Open) =~= seq![Mark::Minus, Mark::Open]);
}

proof fn fresh_is_finished(out: Seq<Mark>, depth: nat)
    ensures
        fresh(out, depth).flushed() == fresh(out, depth),
{
}

proof fn lexed_tree(tree: Tree, out: Seq<Mark>, depth: nat, after: Option<char>)
    requires
        is_writable(tree),
        can_follow(after),
    ensures
        lexes_to(tree_text(tree), out, depth, after, tree_marks(tree)),
    decreases tree, 0nat,
{
    match tree {
        Tree::Clause(point) => {
            lexed_point(out, depth, point, after);
            let piece = Mark::Piece(piece_of(point));
            assert(out.push(piece) =~= out + seq![piece]);
        },
        Tree::Not(inner) => {
            let opened = out + seq![Mark::Minus, Mark::Open];
            let text = tree_text(*inner);
            assert("-("@ + text + ")"@ =~= "-("@ + (text + ")"@));
            lexed_in_two(fresh(out, depth), "-("@, text + ")"@, after);
            lexed_open(out, depth, first_or(text + ")"@, after));
            lexed_tree(*inner, opened, depth + 1, Some(')'));
            lexed_to_close(text, opened, depth, after, tree_marks(*inner));
            assert(opened + tree_marks(*inner) + seq![Mark::Close] =~= out + tree_marks(tree));
            fresh_is_finished(out + tree_marks(tree), depth);
        },
        Tree::All(parts) => {
            lexed_all(parts, parts.len(), out, depth, after);
        },
        Tree::Any(parts) => {
            lexed_any(parts, parts.len(), out, depth, after);
        },
    }
}

proof fn lexed_part(tree: Tree, out: Seq<Mark>, depth: nat, after: Option<char>)
    requires
        is_writable(tree),
        can_follow(after),
    ensures
        lexes_to(
            match tree {
                Tree::Any(_) => "("@ + tree_text(tree) + ")"@,
                _ => tree_text(tree),
            },
            out,
            depth,
            after,
            part_marks(tree),
        ),
    decreases tree, 1nat,
{
    if tree is Any {
        let opened = out + seq![Mark::Open];
        let text = tree_text(tree);
        assert("("@ + text + ")"@ =~= "("@ + (text + ")"@));
        lexed_in_two(fresh(out, depth), "("@, text + ")"@, after);
        lexed_open(out, depth, first_or(text + ")"@, after));
        lexed_tree(tree, opened, depth + 1, Some(')'));
        lexed_to_close(text, opened, depth, after, tree_marks(tree));
        assert(opened + tree_marks(tree) + seq![Mark::Close] =~= out + part_marks(tree));
        fresh_is_finished(out + part_marks(tree), depth);
    } else {
        lexed_tree(tree, out, depth, after);
    }
}

proof fn lexed_all(parts: Seq<Tree>, n: nat, out: Seq<Mark>, depth: nat, after: Option<char>)
    requires
        n <= parts.len(),
        forall|i: int| 0 <= i < parts.len() ==> is_writable(#[trigger] parts[i]),
        can_follow(after),
    ensures
        lexes_to(all_text(parts, n), out, depth, after, all_marks(parts, n)),
    decreases parts, n,
{
    if n == 0 {
        assert(out + Seq::<Mark>::empty() =~= out);
        fresh_is_finished(out, depth);
    } else {
        let last = parts[n - 1];
        let before = all_marks(parts, (n - 1) as nat);
        lexed_part(last, out + before, depth, after);
        if n == 1 {
            assert(out + before =~= out);
            assert(before + part_marks(last) =~= part_marks(last));
        } else {
            lexed_all(parts, (n - 1) as nat, out, depth, Some(' '));
            let text = match last {
                Tree::Any(_) => "("@ + tree_text(last) + ")"@,
                _ => tree_text(last),
            };
            lexed_spaced(
                all_text(parts, (n - 1) as nat),
                text,
                out,
                depth,
                after,
                before,
                part_marks(last),
            );
        }
    }
}

proof fn lexed_any(parts: Seq<Tree>, n: nat, out: Seq<Mark>, depth: nat, after: Option<char>)
    requires
        n <= parts.len(),
        forall|i: int| 0 <= i < parts.len() ==> is_writable(#[trigger] parts[i]),
        can_follow(after),
    ensures
        lexes_to(any_text(parts, n), out, depth, after, any_marks(parts, n)),
    decreases parts, n,
{
    if n == 0 {
        assert(out + Seq::<Mark>::empty() =~= out);
        fresh_is_finished(out, depth);
    } else if n == 1 {
        lexed_tree(parts[0], out, depth, after);
    } else {
        let before = any_marks(parts, (n - 1) as nat);
        let or = seq![Mark::Piece(or_piece())];
        let text = tree_text(parts[n - 1]);
        let front = any_text(parts, (n - 1) as nat);
        lexed_any(parts, (n - 1) as nat, out, depth, Some(' '));
        // The word OR is a piece of its own.
        reveal_strlit(" OR ");
        reveal_strlit(" ");
        reveal_strlit("OR");
        lexed_plain(fresh(out + before, depth), "OR"@, Some(' '));
        assert(fresh(out + before, depth).text + "OR"@ =~= "OR"@);
        assert((out + before).push(Mark::Piece(or_piece())) =~= out + before + or);
        assert(lexes_to("OR"@, out + before, depth, Some(' '), or));
        lexed_spaced(front, "OR"@, out, depth, Some(' '), before, or);
        lexed_tree(parts[n - 1], out + (before + or), depth, after);
        lexed_spaced(
            front + " "@ + "OR"@,
            text,
            out,
            depth,
            after,
            before + or,
            tree_marks(parts[n - 1]),
        );
        assert(front + " OR "@ + text =~= front + " "@ + "OR"@ + " "@ + text);
    }
}

/// The pieces of a tree's text are the tree's pieces.
pub proof fn tree_text_marks(tree: Tree)
    requires
        is_writable(tree),
    ensures
        marks_of(tree_text(tree)) == tree_marks(tree),
{
    lexed_tree(tree, Seq::empty(), 0, None);
    assert(fresh(Seq::empty(), 0) == Lexing::start());
    assert(Seq::<Mark>::empty() + tree_marks(tree) =~= tree_marks(tree));
}

} // verus!
