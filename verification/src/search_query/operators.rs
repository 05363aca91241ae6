//! What the operators ask, and how a piece of the field is told apart.

use super::calendar::date_of;
use super::lexer::{dashes, Chunk, Mark};
use super::reader::{
    asked, asking_cuts, held, operator_of, reading, reading_cuts, sharing_cuts, sharing_cuts_any,
    without_dashes, Keyword, Reading, Sign,
};
use super::{chip_token, Ask, Intake, Phrase, Point, State, Tree, MAX_VALUE_CHARS};
use crate::text::{
    ascii_lowercase, first_char_is_found, is_ascii_text, is_trimmed, lower, trim, trim_end,
    trim_fixes,
};
use vstd::prelude::*;

verus! {

proof fn operators_are_words()
    ensures
        "from"@.len() == 4 && "to"@.len() == 2 && "cc"@.len() == 2 && "subject"@.len() == 7
            && "in"@.len() == 2 && "tag"@.len() == 3 && "filename"@.len() == 8 && "has"@.len() == 3
            && "is"@.len() == 2 && "after"@.len() == 5 && "before"@.len() == 6 && "date"@.len()
            == 4,
        "from"@[0] == 'f' && "date"@[0] == 'd',
        "to"@[0] == 't' && "cc"@[0] == 'c' && "in"@[0] == 'i' && "is"@[0] == 'i',
        "in"@[1] == 'n' && "is"@[1] == 's',
        "tag"@[0] == 't' && "has"@[0] == 'h',
{
    reveal_strlit("from");
    reveal_strlit("to");
    reveal_strlit("cc");
    reveal_strlit("subject");
    reveal_strlit("in");
    reveal_strlit("tag");
    reveal_strlit("filename");
    reveal_strlit("has");
    reveal_strlit("is");
    reveal_strlit("after");
    reveal_strlit("before");
    reveal_strlit("date");
}

/// An operator asks the question it is named for, of the value behind it.
pub proof fn an_operator_asks_its_own_question(value: Seq<char>, exact: bool)
    ensures
        asked("from"@, value, exact) == Some(Ask::From(value)),
        asked("to"@, value, exact) == Some(Ask::To(value)),
        asked("cc"@, value, exact) == Some(Ask::Cc(value)),
        asked("subject"@, value, exact) == Some(Ask::Subject(Phrase { value, exact })),
        asked("tag"@, value, exact) == Some(Ask::Tag(value)),
        asked("filename"@, value, exact) == Some(Ask::Filename(value)),
        asked("in"@, value, exact) == Some(Ask::In(held(lower(value)))),
{
    operators_are_words();
}

/// A date is asked for in the period it names, and what names none asks
/// nothing. The letters it is written in make no difference.
pub proof fn a_date_operator_asks_for_its_period(value: Seq<char>, exact: bool)
    ensures
        date_of(ascii_lowercase(value)) matches Some(period) ==> asked("after"@, value, exact)
            == Some(Ask::After(period)) && asked("before"@, value, exact) == Some(
            Ask::Before(period),
        ) && asked("date"@, value, exact) == Some(Ask::On(period)),
        date_of(ascii_lowercase(value)) is None ==> asked("after"@, value, exact) is None && asked(
            "before"@,
            value,
            exact,
        ) is None && asked("date"@, value, exact) is None,
{
    operators_are_words();
}

/// A state is asked for by its name, or by the other name it goes by, in
/// whatever letters; what is no state asks nothing.
pub proof fn a_state_is_asked_for_by_its_name(value: Seq<char>, exact: bool)
    ensures
        asked("is"@, value, exact) == Some(Ask::Is(State::Unread)) <==> ascii_lowercase(value)
            == "unread"@,
        asked("is"@, value, exact) == Some(Ask::Is(State::Read)) <==> ascii_lowercase(value)
            == "read"@,
        asked("is"@, value, exact) == Some(Ask::Is(State::Starred)) <==> ascii_lowercase(value)
            == "starred"@ || ascii_lowercase(value) == "flagged"@,
        asked("is"@, value, exact) == Some(Ask::Is(State::Snoozed)) <==> ascii_lowercase(value)
            == "snoozed"@,
        asked("is"@, value, exact) matches Some(term) ==> term is Is,
        asked("has"@, value, exact) == Some(Ask::HasAttachment) <==> ascii_lowercase(value)
            == "attachment"@ || ascii_lowercase(value) == "attachments"@ || ascii_lowercase(value)
            == "file"@,
        asked("has"@, value, exact) matches Some(term) ==> term == Ask::HasAttachment,
{
    operators_are_words();
    reveal_strlit("unread");
    reveal_strlit("read");
    reveal_strlit("starred");
    reveal_strlit("flagged");
    reveal_strlit("snoozed");
    assert("unread"@.len() == 6 && "read"@.len() == 4 && "starred"@.len() == 7 && "flagged"@.len()
        == 7 && "snoozed"@.len() == 7);
    assert("starred"@[1] == 't' && "flagged"@[1] == 'l' && "snoozed"@[1] == 'n');
}

/// What is no operator asks nothing, whatever its value.
pub proof fn what_is_no_operator_asks_nothing(key: Seq<char>, value: Seq<char>, exact: bool)
    requires
        key != "from"@ && key != "to"@ && key != "cc"@ && key != "subject"@ && key != "in"@ && key
            != "tag"@ && key != "filename"@ && key != "has"@ && key != "is"@ && key != "after"@
            && key != "before"@ && key != "date"@,
    ensures
        asked(key, value, exact) is None,
{
}

// ---------------------------------------------------------------------
// Pieces
// ---------------------------------------------------------------------
/// A keyword is a keyword in capitals and out of quotes, and nowhere else.
pub proof fn a_keyword_is_in_capitals(piece: Chunk)
    ensures
        reading(piece) == Reading::Keyword(Keyword::And) <==> piece.quote_at is None && piece.text
            == "AND"@,
        reading(piece) == Reading::Keyword(Keyword::Or) <==> piece.quote_at is None && piece.text
            == "OR"@,
        reading(piece) == Reading::Keyword(Keyword::Not) <==> piece.quote_at is None && piece.text
            == "NOT"@,
{
    reveal_strlit("AND");
    reveal_strlit("OR");
    reveal_strlit("NOT");
    assert("AND"@[0] == 'A' && "NOT"@[0] == 'N');
    assert("OR"@.len() == 2 && "AND"@.len() == 3 && "NOT"@.len() == 3);
}

/// Whether a text is a word as it stands: not white at either end, no dash in
/// front, no colon in it, and not too long.
pub open spec fn is_a_word(s: Seq<char>) -> bool {
    &&& 0 < s.len() <= MAX_VALUE_CHARS
    &&& is_trimmed(s)
    &&& s[0] != '-'
    &&& forall|i: int| 0 <= i < s.len() ==> #[trigger] s[i] != ':'
}

/// A word asks for itself, with a dash in front for all that do not have it,
/// and exactly as it stands where it was quoted.
pub proof fn a_word_asks_for_itself(word: Seq<char>)
    requires
        is_a_word(word),
    ensures
        word != "AND"@ && word != "OR"@ && word != "NOT"@ ==> reading(
            Chunk { text: word, quote_at: None },
        ) == Reading::Clause(
            Point { negated: false, term: Ask::Text(Phrase { value: word, exact: false }) },
        ),
        reading(Chunk { text: seq!['-'] + word, quote_at: None }) == Reading::Clause(
            Point { negated: true, term: Ask::Text(Phrase { value: word, exact: false }) },
        ),
        reading(Chunk { text: word, quote_at: Some(0) }) == Reading::Clause(
            Point { negated: false, term: Ask::Text(Phrase { value: word, exact: true }) },
        ),
{
    trim_fixes(word);
    assert(held(word) == word);
    no_operator_without_a_colon(word, None);
    no_operator_without_a_colon(word, Some(0));
    assert(dashes(word) == 0);
    let dashed = seq!['-'] + word;
    assert(dashed.skip(1) =~= word);
    assert(dashes(dashed) == 1);
    assert(word.take(0) =~= Seq::<char>::empty());
    assert(dashes(word.take(0)) == 0);
    reveal_strlit("AND");
    reveal_strlit("OR");
    reveal_strlit("NOT");
    assert("AND"@[0] == 'A' && "OR"@[0] == 'O' && "NOT"@[0] == 'N');
    assert(dashed[0] == '-');
}

proof fn no_operator_without_a_colon(word: Seq<char>, quote_at: Option<int>)
    requires
        forall|i: int| 0 <= i < word.len() ==> #[trigger] word[i] != ':',
    ensures
        operator_of(Chunk { text: word, quote_at }) is None,
{
    first_char_is_found(word, ':', 0, word.len() as int);
}

/// An operator, a colon and a value are one question, with a dash in front its
/// opposite.
pub proof fn an_operator_stands_before_a_colon(key: Seq<char>, value: Seq<char>, term: Ask)
    requires
        key.len() > 0,
        key[0] != '-',
        forall|i: int| 0 <= i < key.len() ==> #[trigger] key[i] != ':',
        0 < value.len() <= MAX_VALUE_CHARS,
        is_trimmed(value),
        asked(ascii_lowercase(key), value, false) == Some(term),
    ensures
        reading(Chunk { text: key + seq![':'] + value, quote_at: None }) == Reading::Clause(
            Point { negated: false, term },
        ),
        reading(Chunk { text: seq!['-'] + (key + seq![':'] + value), quote_at: None })
            == Reading::Clause(Point { negated: true, term }),
{
    let text = key + seq![':'] + value;
    let at = key.len() as int;
    trim_fixes(value);
    assert(held(value) == value);
    assert(text[at] == ':');
    assert forall|i: int| 0 <= i < at implies text[i] != ':' by {
        assert(text[i] == key[i]);
    }
    first_char_is_found(text, ':', 0, at);
    assert(text.skip(at + 1) =~= value);
    assert(text.take(at) =~= key);
    let piece = Chunk { text, quote_at: None };
    assert(operator_of(piece) == Some(term));
    assert(text[0] == key[0]);
    assert(dashes(text) == 0);
    let dashed = seq!['-'] + text;
    assert(dashed.skip(1) =~= text);
    assert(dashes(dashed) == 1);
    reveal_strlit("AND");
    reveal_strlit("OR");
    reveal_strlit("NOT");
    assert("AND"@[0] == 'A' && "AND"@[1] == 'N' && "AND"@[2] == 'D');
    assert("OR"@[0] == 'O' && "OR"@[1] == 'R');
    assert("NOT"@[0] == 'N' && "NOT"@[1] == 'O' && "NOT"@[2] == 'T');
    assert("AND"@.len() == 3 && "OR"@.len() == 2 && "NOT"@.len() == 3);
    assert(dashed[0] == '-');
    if text == "AND"@ || text == "OR"@ || text == "NOT"@ {
        assert(text[at] == ':');
    }
}

/// A chip writes the operator that asks for what the chip says, and there are
/// four of them.
pub proof fn a_chip_asks_for_what_it_says(chip: Seq<char>)
    ensures
        chip_token("attachment"@) matches Some(text) && reading(Chunk { text, quote_at: None })
            == Reading::Clause(Point { negated: false, term: Ask::HasAttachment }),
        chip_token("unread"@) matches Some(text) && reading(Chunk { text, quote_at: None })
            == Reading::Clause(Point { negated: false, term: Ask::Is(State::Unread) }),
        chip_token("starred"@) matches Some(text) && reading(Chunk { text, quote_at: None })
            == Reading::Clause(Point { negated: false, term: Ask::Is(State::Starred) }),
        chip_token("inbox"@) matches Some(text) && reading(Chunk { text, quote_at: None })
            == Reading::Clause(Point { negated: false, term: Ask::In("inbox"@) }),
        chip_token(chip) is Some ==> chip == "attachment"@ || chip == "unread"@ || chip
            == "starred"@ || chip == "inbox"@,
{
    operators_are_words();
    reveal_strlit("attachment");
    reveal_strlit("unread");
    reveal_strlit("starred");
    reveal_strlit("inbox");
    reveal_strlit("has");
    reveal_strlit("is");
    reveal_strlit("in");
    reveal_strlit("has:attachment");
    reveal_strlit("is:unread");
    reveal_strlit("is:starred");
    reveal_strlit("in:inbox");
    assert("attachment"@.len() == 10 && "unread"@.len() == 6 && "starred"@.len() == 7
        && "inbox"@.len() == 5);
    assert(ascii_lowercase("has"@) =~= "has"@);
    assert(ascii_lowercase("is"@) =~= "is"@);
    assert(ascii_lowercase("in"@) =~= "in"@);
    assert(ascii_lowercase("attachment"@) =~= "attachment"@);
    assert(ascii_lowercase("unread"@) =~= "unread"@);
    assert(ascii_lowercase("starred"@) =~= "starred"@);
    assert(ascii_lowercase("inbox"@) =~= "inbox"@);
    a_state_is_asked_for_by_its_name("attachment"@, false);
    a_state_is_asked_for_by_its_name("unread"@, false);
    a_state_is_asked_for_by_its_name("starred"@, false);
    assert("has"@ + seq![':'] + "attachment"@ =~= "has:attachment"@);
    assert("is"@ + seq![':'] + "unread"@ =~= "is:unread"@);
    assert("is"@ + seq![':'] + "starred"@ =~= "is:starred"@);
    assert("in"@ + seq![':'] + "inbox"@ =~= "in:inbox"@);
    an_operator_stands_before_a_colon("has"@, "attachment"@, Ask::HasAttachment);
    an_operator_stands_before_a_colon("is"@, "unread"@, Ask::Is(State::Unread));
    an_operator_stands_before_a_colon("is"@, "starred"@, Ask::Is(State::Starred));
    assert(is_ascii_text("inbox"@));
    assert(is_trimmed("inbox"@));
    trim_fixes("inbox"@);
    an_operator_asks_its_own_question("inbox"@, false);
    an_operator_stands_before_a_colon("in"@, "inbox"@, Ask::In("inbox"@));
}

/// A value is taken whole where it is short enough, and cut where it is not;
/// the white space round it is never part of it.
pub proof fn a_value_is_held_to_its_limit(raw: Seq<char>)
    ensures
        trim(raw).len() <= 256 ==> held(raw) == trim(raw),
        trim(raw).len() > 256 ==> held(raw) == trim_end(trim(raw).take(256)),
{
}

/// The first thirty-two things a field asks are asked, and the rest is left
/// out and said to be.
pub proof fn a_field_asks_so_many_things(taken: Intake, piece: Chunk, point: Point)
    requires
        !taken.full,
        reading(piece) == Reading::Clause(point),
    ensures
        taken.clauses < 32 ==> taken.next(Mark::Piece(piece)).tokens == taken.tokens.push(
            Sign::Clause(point),
        ) && taken.next(Mark::Piece(piece)).clauses == taken.clauses + 1 && !taken.next(
            Mark::Piece(piece),
        ).full,
        taken.clauses == 32 ==> taken.next(Mark::Piece(piece)).tokens == taken.tokens
            && taken.next(Mark::Piece(piece)).cut && taken.next(Mark::Piece(piece)).full,
{
}

/// A word that is cut is said to be cut, and one that is not is not. With an
/// operator in front, it is the value that counts.
pub proof fn a_cut_is_owned_up_to(word: Seq<char>, key: Seq<char>, value: Seq<char>)
    requires
        word.len() > 0,
        word[0] != '-',
        forall|i: int| 0 <= i < word.len() ==> #[trigger] word[i] != ':',
        key.len() > 0,
        key[0] != '-',
        forall|i: int| 0 <= i < key.len() ==> #[trigger] key[i] != ':',
        ascii_lowercase(key) != "in"@,
        asked(ascii_lowercase(key), held(value), false) is Some,
        held(value).len() > 0,
    ensures
        word != "AND"@ && word != "OR"@ && word != "NOT"@ ==> reading_cuts(
            Chunk { text: word, quote_at: None },
        ) == (trim(word).len() > 256),
        reading_cuts(Chunk { text: word, quote_at: Some(0) }) == (trim(word).len() > 256),
        reading_cuts(Chunk { text: key + seq![':'] + value, quote_at: None }) == (trim(value).len()
            > 256),
{
    let plain = Chunk { text: word, quote_at: None };
    let quoted = Chunk { text: word, quote_at: Some(0) };
    first_char_is_found(word, ':', 0, word.len() as int);
    no_operator_without_a_colon(word, None);
    no_operator_without_a_colon(word, Some(0));
    a_keyword_is_in_capitals(plain);
    a_keyword_is_in_capitals(quoted);
    assert(dashes(word) == 0);
    assert(word.skip(0) =~= word);
    assert(word.subrange(0, word.len() as int) =~= word);
    assert(without_dashes(plain) == plain);
    assert(without_dashes(quoted) == quoted);
    let text = key + seq![':'] + value;
    let asking = Chunk { text, quote_at: None };
    assert forall|i: int| 0 <= i < key.len() implies #[trigger] text[i] != ':' by {
        assert(text[i] == key[i]);
    }
    assert(text[key.len() as int] == ':');
    first_char_is_found(text, ':', 0, key.len() as int);
    assert(text.take(key.len() as int) =~= key);
    assert(text.skip(key.len() as int + 1) =~= value);
    assert(text[0] == key[0]);
    assert(dashes(text) == 0);
    assert(text.skip(0) =~= text);
    assert(without_dashes(asking) == asking);
    reveal_strlit("AND");
    reveal_strlit("OR");
    reveal_strlit("NOT");
    a_keyword_is_in_capitals(asking);
    if text == "AND"@ || text == "OR"@ || text == "NOT"@ {
        assert("AND"@[0] != ':' && "AND"@[1] != ':' && "AND"@[2] != ':');
        assert("OR"@[0] != ':' && "OR"@[1] != ':');
        assert("NOT"@[0] != ':' && "NOT"@[1] != ':' && "NOT"@[2] != ':');
        assert(false);
    }
    assert(operator_of(asking) is Some);
}

/// Once something was left out of a field it stays said, and nothing is said
/// to be left out but a value that was cut and a clause too many.
pub proof fn what_is_left_out_stays_said(taken: Intake, mark: Mark, piece: Chunk)
    ensures
        taken.cut ==> taken.next(mark).cut,
        !(mark is Piece) ==> taken.next(mark).cut == taken.cut,
        taken.full ==> taken.next(mark) == taken,
        !taken.full ==> taken.next(Mark::Piece(piece)).cut == (taken.cut || reading_cuts(piece) || (
        reading(piece) is Clause && taken.clauses == 32)),
{
}

/// An operator given to a whole group cuts nothing, unless it names a folder:
/// a folder's name is lowered, and can grow by that.
pub proof fn only_folders_are_cut_in_a_group(key: Seq<char>, tree: Tree, value: Seq<char>)
    ensures
        key != "in"@ ==> !sharing_cuts(key, tree),
        asking_cuts("in"@, value) == (trim(lower(value)).len() > 256),
    decreases tree,
{
    match tree {
        Tree::Clause(_) => {},
        Tree::Not(inner) => {
            only_folders_are_cut_in_a_group(key, *inner, value);
        },
        Tree::All(parts) => {
            no_part_is_cut(key, parts, value);
        },
        Tree::Any(parts) => {
            no_part_is_cut(key, parts, value);
        },
    }
}

proof fn no_part_is_cut(key: Seq<char>, parts: Seq<Tree>, value: Seq<char>)
    ensures
        key != "in"@ ==> !sharing_cuts_any(key, parts),
    decreases parts,
{
    if parts.len() > 0 {
        no_part_is_cut(key, parts.drop_last(), value);
        only_folders_are_cut_in_a_group(key, parts.last(), value);
    }
}

} // verus!
