//! From the pieces of the field to the tree they ask for.

use super::calendar::{date_of, Period};
use super::lexer::{dashes, is_literal, leading_dashes, quote_is_inside, Chunk, Piece};
use super::{
    tree_of, trees, trees_are_each, Ask, Clause, Expr, Phrase, Point, State, Term, Text, Tree,
    MAX_VALUE_CHARS,
};
use crate::text::{
    ascii_lowercase, ascii_lowered, char_position, chars_of, find_char, lower, lowered,
    string_of, trim, trim_end, trimmed, trimmed_end,
};
use vstd::prelude::*;
use vstd::slice::{slice_subrange, slice_to_vec};

verus! {

#[derive(Debug, Clone, Copy, PartialEq, Eq, Structural)]
pub enum Keyword {
    And,
    Or,
    Not,
}

/// What one piece of the field turned out to be.
pub enum Read {
    Keyword(Keyword),
    Clause(Clause),
    /// Nothing: an empty pair of quotes.
    Nothing,
}

#[verifier::ext_equal]
pub enum Reading {
    Keyword(Keyword),
    Clause(Point),
    Nothing,
}

impl View for Read {
    type V = Reading;

    open spec fn view(&self) -> Reading {
        match self {
            Read::Keyword(keyword) => Reading::Keyword(*keyword),
            Read::Clause(clause) => Reading::Clause(clause@),
            Read::Nothing => Reading::Nothing,
        }
    }
}

// ---------------------------------------------------------------------
// Values
// ---------------------------------------------------------------------
/// Whether a value is over the length limit.
pub open spec fn is_over(raw: Seq<char>) -> bool {
    trim(raw).len() > MAX_VALUE_CHARS
}

/// A value, trimmed and held to the length limit. Trimmed again at the end:
/// the cut can land just after a space, and a value that ends in one would
/// not read back as itself.
pub open spec fn held(raw: Seq<char>) -> Seq<char> {
    if is_over(raw) {
        trim_end(trim(raw).take(MAX_VALUE_CHARS as int))
    } else {
        trim(raw)
    }
}

/// Trims a value and holds it to the length limit.
pub fn value_of(raw: &[char], truncated: &mut bool) -> (value: Vec<char>)
    ensures
        value@ == held(raw@),
        *final(truncated) == (*old(truncated) || is_over(raw@)),
{
    let raw = trimmed(raw);
    if raw.len() > MAX_VALUE_CHARS {
        *truncated = true;
        let cut = slice_subrange(raw, 0, MAX_VALUE_CHARS);
        assert(cut@ =~= raw@.take(MAX_VALUE_CHARS as int));
        return slice_to_vec(trimmed_end(cut));
    }
    slice_to_vec(raw)
}

// ---------------------------------------------------------------------
// Operators
// ---------------------------------------------------------------------
/// What an operator and its value mean, or `None` for an operator nobody
/// knows and for a value one cannot take.
pub open spec fn asked(key: Seq<char>, value: Seq<char>, exact: bool) -> Option<Ask> {
    let name = ascii_lowercase(value);
    if key == "from"@ {
        Some(Ask::From(value))
    } else if key == "to"@ {
        Some(Ask::To(value))
    } else if key == "cc"@ {
        Some(Ask::Cc(value))
    } else if key == "subject"@ {
        Some(Ask::Subject(Phrase { value, exact }))
    } else if key == "in"@ {
        Some(Ask::In(held(lower(value))))
    } else if key == "tag"@ {
        Some(Ask::Tag(value))
    } else if key == "filename"@ {
        Some(Ask::Filename(value))
    } else if key == "has"@ {
        if name == "attachment"@ || name == "attachments"@ || name == "file"@ {
            Some(Ask::HasAttachment)
        } else {
            None
        }
    } else if key == "is"@ {
        if name == "unread"@ {
            Some(Ask::Is(State::Unread))
        } else if name == "read"@ {
            Some(Ask::Is(State::Read))
        } else if name == "starred"@ || name == "flagged"@ {
            Some(Ask::Is(State::Starred))
        } else if name == "snoozed"@ {
            Some(Ask::Is(State::Snoozed))
        } else {
            None
        }
    } else if key == "after"@ {
        match date_of(name) {
            Some(when) => Some(Ask::After(when)),
            None => None,
        }
    } else if key == "before"@ {
        match date_of(name) {
            Some(when) => Some(Ask::Before(when)),
            None => None,
        }
    } else if key == "date"@ {
        match date_of(name) {
            Some(when) => Some(Ask::On(when)),
            None => None,
        }
    } else {
        None
    }
}

/// Whether asking that cuts the value. Only `in:` can: it lowers its value,
/// a few letters lower to two, and the value is held to the limit again.
pub open spec fn asking_cuts(key: Seq<char>, value: Seq<char>) -> bool {
    key == "in"@ && is_over(lower(value))
}

pub open spec fn ask_of(term: Option<Term>) -> Option<Ask> {
    match term {
        Some(term) => Some(term@),
        None => None,
    }
}

/// What an operator and its value mean, or `None` for an operator nobody
/// knows and for a value one cannot take. Those search rather than erroring,
/// and rather than silently dropping the term somebody typed.
pub fn term_for(key: &[char], value: &[char], exact: bool, truncated: &mut bool) -> (term: Option<
    Term,
>)
    ensures
        ask_of(term) == asked(key@, value@, exact),
        *final(truncated) == (*old(truncated) || asking_cuts(key@, value@)),
{
    proof {
        operators_differ();
    }
    let lower = ascii_lowered(value);
    if is_literal(key, "from") {
        Some(Term::From(string_of(value)))
    } else if is_literal(key, "to") {
        Some(Term::To(string_of(value)))
    } else if is_literal(key, "cc") {
        Some(Term::Cc(string_of(value)))
    } else if is_literal(key, "subject") {
        Some(Term::Subject(Text { value: string_of(value), exact }))
    } else if is_literal(key, "in") {
        let low = lowered(&string_of(value));
        Some(Term::In(string_of(&value_of(&chars_of(&low), truncated))))
    } else if is_literal(key, "tag") {
        Some(Term::Tag(string_of(value)))
    } else if is_literal(key, "filename") {
        Some(Term::Filename(string_of(value)))
    } else if is_literal(key, "has") {
        if is_literal(&lower, "attachment") || is_literal(&lower, "attachments") || is_literal(
            &lower,
            "file",
        ) {
            Some(Term::HasAttachment)
        } else {
            None
        }
    } else if is_literal(key, "is") {
        if is_literal(&lower, "unread") {
            Some(Term::Is(State::Unread))
        } else if is_literal(&lower, "read") {
            Some(Term::Is(State::Read))
        } else if is_literal(&lower, "starred") || is_literal(&lower, "flagged") {
            Some(Term::Is(State::Starred))
        } else if is_literal(&lower, "snoozed") {
            Some(Term::Is(State::Snoozed))
        } else {
            None
        }
    } else if is_literal(key, "after") {
        match Period::parse(&string_of(&lower)) {
            Some(when) => Some(Term::After(when)),
            None => None,
        }
    } else if is_literal(key, "before") {
        match Period::parse(&string_of(&lower)) {
            Some(when) => Some(Term::Before(when)),
            None => None,
        }
    } else if is_literal(key, "date") {
        match Period::parse(&string_of(&lower)) {
            Some(when) => Some(Term::On(when)),
            None => None,
        }
    } else {
        None
    }
}

/// No two operators are written alike.
pub proof fn operators_differ()
    ensures
        "from"@ != "in"@,
        "to"@ != "in"@,
        "cc"@ != "in"@,
        "subject"@ != "in"@,
{
    reveal_strlit("from");
    reveal_strlit("to");
    reveal_strlit("cc");
    reveal_strlit("subject");
    reveal_strlit("in");
    assert("to"@[0] != "in"@[0]);
    assert("cc"@[0] != "in"@[0]);
}

// ---------------------------------------------------------------------
// One operator for a whole bracket
// ---------------------------------------------------------------------
/// An operator, given to every word inside the group it opened. A term that
/// is already an operator of its own means what it says.
pub open spec fn shared_with(key: Seq<char>, tree: Tree) -> Tree
    decreases tree,
{
    match tree {
        Tree::Clause(point) => Tree::Clause(
            match point.term {
                Ask::Text(text) => match asked(key, text.value, text.exact) {
                    Some(term) => Point { term, ..point },
                    None => point,
                },
                _ => point,
            },
        ),
        Tree::Not(inner) => Tree::Not(Box::new(shared_with(key, *inner))),
        Tree::All(parts) => Tree::All(shared_with_each(key, parts)),
        Tree::Any(parts) => Tree::Any(shared_with_each(key, parts)),
    }
}

pub open spec fn shared_with_each(key: Seq<char>, parts: Seq<Tree>) -> Seq<Tree>
    decreases parts,
{
    if parts.len() == 0 {
        Seq::empty()
    } else {
        shared_with_each(key, parts.drop_last()).push(shared_with(key, parts.last()))
    }
}

/// Whether giving the operator cuts any value.
pub open spec fn sharing_cuts(key: Seq<char>, tree: Tree) -> bool
    decreases tree,
{
    match tree {
        Tree::Clause(point) => match point.term {
            Ask::Text(text) => asking_cuts(key, text.value),
            _ => false,
        },
        Tree::Not(inner) => sharing_cuts(key, *inner),
        Tree::All(parts) => sharing_cuts_any(key, parts),
        Tree::Any(parts) => sharing_cuts_any(key, parts),
    }
}

pub open spec fn sharing_cuts_any(key: Seq<char>, parts: Seq<Tree>) -> bool
    decreases parts,
{
    parts.len() > 0 && (sharing_cuts_any(key, parts.drop_last()) || sharing_cuts(
        key,
        parts.last(),
    ))
}

/// That operator, given to every word inside the group it opened.
///
/// The truncation flag comes through because a value can still be cut here:
/// `in:` lowercases before holding it to the limit, and a few letters lower
/// to two.
pub fn applied(key: &[char], expr: Expr, truncated: &mut bool) -> (r: Expr)
    ensures
        r@ == shared_with(key@, expr@),
        *final(truncated) == (*old(truncated) || sharing_cuts(key@, expr@)),
    decreases expr,
{
    match expr {
        Expr::Clause(Clause { negated, term: Term::Text(text) }) => {
            let term = match term_for(key, &chars_of(&text.value), text.exact, truncated) {
                Some(term) => term,
                None => Term::Text(text),
            };
            Expr::Clause(Clause { negated, term })
        },
        Expr::Clause(clause) => Expr::Clause(clause),
        Expr::Not(inner) => Expr::Not(Box::new(applied(key, *inner, truncated))),
        Expr::All(parts) => Expr::All(applied_to_each(key, parts, truncated)),
        Expr::Any(parts) => Expr::Any(applied_to_each(key, parts, truncated)),
    }
}

fn applied_to_each(key: &[char], parts: Vec<Expr>, truncated: &mut bool) -> (out: Vec<Expr>)
    ensures
        trees(out@) == shared_with_each(key@, trees(parts@)),
        *final(truncated) == (*old(truncated) || sharing_cuts_any(key@, trees(parts@))),
    decreases parts,
{
    let mut out: Vec<Expr> = Vec::new();
    let ghost all = parts@;
    let ghost was = *truncated;
    for part in it: parts
        invariant
            it.seq() == all,
            all == parts@,
            trees(out@) == shared_with_each(key@, trees(all.take(it.index() as int))),
            *truncated == (was || sharing_cuts_any(key@, trees(all.take(it.index() as int)))),
    {
        let ghost i = it.index() as int;
        let ghost before = out@;
        assert(all.take(i + 1).drop_last() =~= all.take(i));
        assert(trees(all.take(i + 1)).drop_last() =~= trees(all.take(i)));
        assert(decreases_to!(parts => part));
        out.push(applied(key, part, truncated));
        assert(out@.drop_last() =~= before);
    }
    assert(all.take(all.len() as int) =~= all);
    out
}

// ---------------------------------------------------------------------
// Pieces
// ---------------------------------------------------------------------
/// A piece with the dashes that exclude it taken off.
///
/// A leading `-` outside quotes excludes. `e-mail` has its hyphen inside the
/// word, `"-5"` has its inside the quotes, and a lone `-` is a dash. However
/// many there are, they are one exclusion.
pub open spec fn excluding_dashes(piece: Chunk) -> int {
    match piece.quote_at {
        Some(at) => dashes(piece.text.take(at)),
        None => dashes(piece.text),
    }
}

pub open spec fn is_excluded(piece: Chunk) -> bool {
    0 < excluding_dashes(piece) < piece.text.len()
}

pub open spec fn without_dashes(piece: Chunk) -> Chunk {
    if is_excluded(piece) {
        Chunk {
            text: piece.text.skip(excluding_dashes(piece)),
            quote_at: match piece.quote_at {
                Some(at) => Some(at - excluding_dashes(piece)),
                None => None,
            },
        }
    } else {
        piece
    }
}

/// Where a piece's operator ends: at its first colon, outside the quotes.
pub open spec fn operator_end(piece: Chunk) -> Option<int> {
    let at = find_char(piece.text, ':', 0);
    if at < piece.text.len() && (piece.quote_at matches Some(quote) ==> at < quote) {
        Some(at)
    } else {
        None
    }
}

/// The operator a piece holds, if it holds one: a known word, a colon outside
/// the quotes, and a value. Anything less is text: `"from:sam"` in quotes, a
/// `from:` somebody is mid-way through typing, `re:pricing`, `is:whatever`.
pub open spec fn operator_of(piece: Chunk) -> Option<Ask> {
    match operator_end(piece) {
        Some(at) => {
            let value = held(piece.text.skip(at + 1));
            if value.len() > 0 {
                asked(ascii_lowercase(piece.text.take(at)), value, piece.quote_at is Some)
            } else {
                None
            }
        },
        None => None,
    }
}

/// What a piece turns out to be.
///
/// `AND`, `OR` and `NOT` are keywords in capitals only, and only outside
/// quotes: people type "or" and "not" in ordinary searches, and the literal
/// word is still reachable in quotes, as `"OR"`.
pub open spec fn reading(piece: Chunk) -> Reading {
    if piece.quote_at is None && piece.text == "AND"@ {
        Reading::Keyword(Keyword::And)
    } else if piece.quote_at is None && piece.text == "OR"@ {
        Reading::Keyword(Keyword::Or)
    } else if piece.quote_at is None && piece.text == "NOT"@ {
        Reading::Keyword(Keyword::Not)
    } else {
        let negated = is_excluded(piece);
        let bare = without_dashes(piece);
        match operator_of(bare) {
            Some(term) => Reading::Clause(Point { negated, term }),
            None => if held(bare.text).len() == 0 {
                Reading::Nothing
            } else {
                Reading::Clause(
                    Point {
                        negated,
                        term: Ask::Text(
                            Phrase { value: held(bare.text), exact: bare.quote_at is Some },
                        ),
                    },
                )
            },
        }
    }
}

/// Whether reading a piece cuts a value.
pub open spec fn reading_cuts(piece: Chunk) -> bool {
    let bare = without_dashes(piece);
    &&& !(reading(piece) is Keyword)
    &&& {
        ||| match operator_end(bare) {
            Some(at) => {
                let raw = bare.text.skip(at + 1);
                is_over(raw) || (held(raw).len() > 0 && asking_cuts(
                    ascii_lowercase(bare.text.take(at)),
                    held(raw),
                ))
            },
            None => false,
        }
        ||| operator_of(bare) is None && is_over(bare.text)
    }
}


pub fn read(piece: Piece, truncated: &mut bool) -> (r: Read)
    requires
        quote_is_inside(piece@),
    ensures
        r@ == reading(piece@),
        *final(truncated) == (*old(truncated) || reading_cuts(piece@)),
{
    let ghost whole = piece@;
    let Piece { text, quote_at } = piece;
    if quote_at.is_none() {
        if is_literal(&text, "AND") {
            return Read::Keyword(Keyword::And);
        }
        if is_literal(&text, "OR") {
            return Read::Keyword(Keyword::Or);
        }
        if is_literal(&text, "NOT") {
            return Read::Keyword(Keyword::Not);
        }
    }
    let leading: usize = match quote_at {
        Some(at) => {
            let before = slice_subrange(&text, 0, at);
            assert(before@ =~= text@.take(at as int));
            leading_dashes(before)
        },
        None => leading_dashes(&text),
    };
    let negated = leading > 0 && leading < text.len();
    let skipped: usize = if negated {
        leading
    } else {
        0
    };
    let bare = slice_subrange(&text, skipped, text.len());
    let quote: Option<usize> = match quote_at {
        Some(at) => Some(at - skipped),
        None => None,
    };
    let ghost inner = without_dashes(whole);
    assert(bare@ =~= inner.text);
    let exact = quote.is_some();
    let colon = char_position(bare, ':', 0);
    let outside_quotes = match quote {
        Some(at) => colon < at,
        None => true,
    };
    if colon < bare.len() && outside_quotes {
        assert(operator_end(inner) == Some(colon as int));
        let key_part = slice_subrange(bare, 0, colon);
        assert(key_part@ =~= inner.text.take(colon as int));
        let key = ascii_lowered(key_part);
        let raw = slice_subrange(bare, colon + 1, bare.len());
        assert(raw@ =~= inner.text.skip(colon + 1));
        let value = value_of(raw, truncated);
        if value.len() > 0 {
            if let Some(term) = term_for(&key, &value, exact, truncated) {
                return Read::Clause(Clause { negated, term });
            }
        }
    }
    let value = value_of(bare, truncated);
    if value.len() == 0 {
        return Read::Nothing;
    }
    Read::Clause(Clause { negated, term: Term::Text(Text { value: string_of(&value), exact }) })
}

// ---------------------------------------------------------------------
// The tree
// ---------------------------------------------------------------------
/// A tree that asks for the opposite.
pub open spec fn opposite(tree: Tree) -> Tree {
    match tree {
        Tree::Clause(point) => Tree::Clause(Point { negated: !point.negated, ..point }),
        Tree::Not(inner) => *inner,
        group => Tree::Not(Box::new(group)),
    }
}

/// The parts, with those of any `All` among them in its place.
pub open spec fn all_flat(parts: Seq<Tree>) -> Seq<Tree>
    decreases parts.len(),
{
    if parts.len() == 0 {
        Seq::empty()
    } else {
        all_flat(parts.drop_last()) + match parts.last() {
            Tree::All(inner) => inner,
            other => seq![other],
        }
    }
}

/// The parts, with those of any `Any` among them in its place.
pub open spec fn any_flat(parts: Seq<Tree>) -> Seq<Tree>
    decreases parts.len(),
{
    if parts.len() == 0 {
        Seq::empty()
    } else {
        any_flat(parts.drop_last()) + match parts.last() {
            Tree::Any(inner) => inner,
            other => seq![other],
        }
    }
}

/// Parts that all have to hold, in the tidy form.
pub open spec fn all_held(parts: Seq<Tree>) -> Option<Tree> {
    let flat = all_flat(parts);
    if flat.len() == 0 {
        None
    } else if flat.len() == 1 {
        Some(flat[0])
    } else {
        Some(Tree::All(flat))
    }
}

/// Parts any of which may hold, in the tidy form.
pub open spec fn any_held(parts: Seq<Tree>) -> Option<Tree> {
    let flat = any_flat(parts);
    if flat.len() == 0 {
        None
    } else if flat.len() == 1 {
        Some(flat[0])
    } else {
        Some(Tree::Any(flat))
    }
}

/// Flips what an expression asks for.
pub fn negate(expr: Expr) -> (r: Expr)
    ensures
        r@ == opposite(expr@),
{
    match expr {
        Expr::Clause(clause) => Expr::Clause(
            Clause { negated: !clause.negated, term: clause.term },
        ),
        Expr::Not(inner) => *inner,
        group => Expr::Not(Box::new(group)),
    }
}

proof fn trees_append(a: Seq<Expr>, b: Seq<Expr>)
    ensures
        trees(a + b) == trees(a) + trees(b),
    decreases b.len(),
{
    if b.len() == 0 {
        assert(a + b =~= a);
        assert(trees(a) + trees(b) =~= trees(a));
    } else {
        trees_append(a, b.drop_last());
        assert((a + b).drop_last() =~= a + b.drop_last());
        assert(trees(a + b) =~= trees(a) + trees(b));
    }
}

/// Parts that all have to hold, in the tidy form.
pub fn all_of(parts: Vec<Expr>) -> (r: Option<Expr>)
    ensures
        tree_of(r) == all_held(trees(parts@)),
{
    broadcast use trees_are_each;

    let mut flat: Vec<Expr> = Vec::new();
    let ghost all = parts@;
    for part in it: parts
        invariant
            it.seq() == all,
            trees(flat@) == all_flat(trees(all.take(it.index() as int))),
    {
        let ghost i = it.index() as int;
        let ghost before = flat@;
        assert(all.take(i + 1).drop_last() =~= all.take(i));
        assert(trees(all.take(i + 1)).drop_last() =~= trees(all.take(i)));
        match part {
            Expr::All(inner) => {
                let mut inner = inner;
                proof {
                    trees_append(before, inner@);
                }
                flat.append(&mut inner);
            },
            other => {
                flat.push(other);
                assert(flat@.drop_last() =~= before);
                assert(trees(before).push(other@) =~= trees(before) + seq![other@]);
            },
        }
    }
    assert(all.take(all.len() as int) =~= all);
    assert(trees(flat@) == all_flat(trees(all)));
    if flat.len() == 0 {
        None
    } else if flat.len() == 1 {
        flat.pop()
    } else {
        Some(Expr::All(flat))
    }
}

/// Parts any of which may hold, in the tidy form.
pub fn any_of(parts: Vec<Expr>) -> (r: Option<Expr>)
    ensures
        tree_of(r) == any_held(trees(parts@)),
{
    broadcast use trees_are_each;

    let mut flat: Vec<Expr> = Vec::new();
    let ghost all = parts@;
    for part in it: parts
        invariant
            it.seq() == all,
            trees(flat@) == any_flat(trees(all.take(it.index() as int))),
    {
        let ghost i = it.index() as int;
        let ghost before = flat@;
        assert(all.take(i + 1).drop_last() =~= all.take(i));
        assert(trees(all.take(i + 1)).drop_last() =~= trees(all.take(i)));
        match part {
            Expr::Any(inner) => {
                let mut inner = inner;
                proof {
                    trees_append(before, inner@);
                }
                flat.append(&mut inner);
            },
            other => {
                flat.push(other);
                assert(flat@.drop_last() =~= before);
                assert(trees(before).push(other@) =~= trees(before) + seq![other@]);
            },
        }
    }
    assert(all.take(all.len() as int) =~= all);
    assert(trees(flat@) == any_flat(trees(all)));
    if flat.len() == 0 {
        None
    } else if flat.len() == 1 {
        flat.pop()
    } else {
        Some(Expr::Any(flat))
    }
}

// ---------------------------------------------------------------------
// Brackets
// ---------------------------------------------------------------------
/// One bracket's worth of reading: the alternatives finished so far, and the
/// parts of the one being read.
pub struct Group {
    /// A NOT or a `-` stood in front of the bracket.
    pub excluded: bool,
    /// The operator the bracket was given, as in `from:(sam OR dana)`.
    pub shared: Option<Vec<char>>,
    pub alternatives: Vec<Expr>,
    pub parts: Vec<Expr>,
}

#[verifier::ext_equal]
pub struct Bracket {
    pub excluded: bool,
    pub shared: Option<Seq<char>>,
    pub alternatives: Seq<Tree>,
    pub parts: Seq<Tree>,
}

pub open spec fn key_of(key: Option<Vec<char>>) -> Option<Seq<char>> {
    match key {
        Some(k) => Some(k@),
        None => None,
    }
}

impl View for Group {
    type V = Bracket;

    open spec fn view(&self) -> Bracket {
        Bracket {
            excluded: self.excluded,
            shared: key_of(self.shared),
            alternatives: trees(self.alternatives@),
            parts: trees(self.parts@),
        }
    }
}

pub open spec fn one(tree: Option<Tree>) -> Seq<Tree> {
    match tree {
        Some(t) => seq![t],
        None => Seq::empty(),
    }
}

impl Bracket {
    pub open spec fn opened(excluded: bool, shared: Option<Seq<char>>) -> Bracket {
        Bracket { excluded, shared, alternatives: Seq::empty(), parts: Seq::empty() }
    }

    /// An `OR`: what has been read so far is one alternative, finished.
    pub open spec fn after_or(self) -> Bracket {
        Bracket {
            alternatives: self.alternatives + one(all_held(self.parts)),
            parts: Seq::empty(),
            ..self
        }
    }

    pub open spec fn with(self, tree: Option<Tree>) -> Bracket {
        Bracket { parts: self.parts + one(tree), ..self }
    }

    /// What the bracket asks, before it is excluded or given an operator.
    pub open spec fn inside(self) -> Option<Tree> {
        any_held(self.after_or().alternatives)
    }

    pub open spec fn closed(self) -> Option<Tree> {
        let inner = match (self.inside(), self.shared) {
            (Some(tree), Some(key)) => Some(shared_with(key, tree)),
            (inner, _) => inner,
        };
        match inner {
            Some(tree) if self.excluded => Some(opposite(tree)),
            _ => inner,
        }
    }

    pub open spec fn closing_cuts(self) -> bool {
        match (self.inside(), self.shared) {
            (Some(tree), Some(key)) => sharing_cuts(key, tree),
            _ => false,
        }
    }
}

impl Group {
    pub fn new(excluded: bool, shared: Option<Vec<char>>) -> (g: Group)
        ensures
            g@ == Bracket::opened(excluded, key_of(shared)),
    {
        Group { excluded, shared, alternatives: Vec::new(), parts: Vec::new() }
    }

    /// An `OR`: what has been read so far is one alternative, finished.
    pub fn or(&mut self)
        ensures
            final(self)@ == old(self)@.after_or(),
    {
        let mut parts: Vec<Expr> = Vec::new();
        std::mem::swap(&mut parts, &mut self.parts);
        if let Some(expr) = all_of(parts) {
            let ghost before = self.alternatives@;
            self.alternatives.push(expr);
            assert(self.alternatives@.drop_last() =~= before);
        }
        assert(self@ =~= old(self)@.after_or());
    }

    fn take_in(&mut self, expr: Option<Expr>)
        ensures
            final(self)@ == old(self)@.with(tree_of(expr)),
    {
        if let Some(expr) = expr {
            let ghost before = self.parts@;
            self.parts.push(expr);
            assert(self.parts@.drop_last() =~= before);
        }
        assert(self@ =~= old(self)@.with(tree_of(expr)));
    }

    pub fn close(self, truncated: &mut bool) -> (r: Option<Expr>)
        ensures
            tree_of(r) == self@.closed(),
            *final(truncated) == (*old(truncated) || self@.closing_cuts()),
    {
        let mut group = self;
        group.or();
        let Group { excluded, shared, alternatives, parts } = group;
        match any_of(alternatives) {
            Some(expr) => {
                let inner = match shared {
                    Some(key) => applied(&key, expr, truncated),
                    None => expr,
                };
                if excluded {
                    Some(negate(inner))
                } else {
                    Some(inner)
                }
            },
            None => None,
        }
    }
}

// ---------------------------------------------------------------------
// Tokens
// ---------------------------------------------------------------------
pub enum Token {
    Open,
    Close,
    Minus,
    /// The operator the next bracket is given.
    Shared(Vec<char>),
    Keyword(Keyword),
    Clause(Clause),
}

#[verifier::ext_equal]
pub enum Sign {
    Open,
    Close,
    Minus,
    Shared(Seq<char>),
    Keyword(Keyword),
    Clause(Point),
}

impl View for Token {
    type V = Sign;

    open spec fn view(&self) -> Sign {
        match self {
            Token::Open => Sign::Open,
            Token::Close => Sign::Close,
            Token::Minus => Sign::Minus,
            Token::Shared(key) => Sign::Shared(key@),
            Token::Keyword(keyword) => Sign::Keyword(*keyword),
            Token::Clause(clause) => Sign::Clause(clause@),
        }
    }
}

pub open spec fn signs(tokens: Seq<Token>) -> Seq<Sign> {
    tokens.map_values(|token: Token| token@)
}

/// How many brackets are open after some tokens.
pub open spec fn depth(tokens: Seq<Sign>) -> int
    decreases tokens.len(),
{
    if tokens.len() == 0 {
        0
    } else {
        depth(tokens.drop_last()) + match tokens.last() {
            Sign::Open => 1int,
            Sign::Close => -1int,
            _ => 0int,
        }
    }
}

/// No bracket closes that was not opened.
pub open spec fn well_bracketed(tokens: Seq<Sign>) -> bool {
    forall|n: int| 0 <= n <= tokens.len() ==> depth(#[trigger] tokens.take(n)) >= 0
}

/// How far the reading of the tokens has got.
#[verifier::ext_equal]
pub struct Progress {
    /// The open brackets, outermost first.
    pub open: Seq<Bracket>,
    pub excluding: bool,
    pub sharing: Option<Seq<char>>,
    pub cut: bool,
}

impl Progress {
    pub open spec fn start() -> Progress {
        Progress {
            open: seq![Bracket::opened(false, None)],
            excluding: false,
            sharing: None,
            cut: false,
        }
    }

    /// The innermost open bracket, replaced.
    pub open spec fn innermost(self, bracket: Bracket) -> Progress {
        Progress { open: self.open.drop_last().push(bracket), ..self }
    }

    /// One more token. Only a word or a bracket can be excluded: a NOT in
    /// front of anything else has nothing to exclude yet.
    pub open spec fn next(self, token: Sign) -> Progress {
        let calm = Progress { excluding: false, ..self };
        match token {
            Sign::Minus | Sign::Keyword(Keyword::Not) => Progress {
                excluding: !self.excluding,
                ..self
            },
            Sign::Keyword(Keyword::And) => calm,
            Sign::Keyword(Keyword::Or) => calm.innermost(self.open.last().after_or()),
            Sign::Clause(point) => {
                let tree = Tree::Clause(point);
                calm.innermost(
                    self.open.last().with(
                        Some(
                            if self.excluding {
                                opposite(tree)
                            } else {
                                tree
                            },
                        ),
                    ),
                )
            },
            Sign::Shared(key) => Progress { sharing: Some(key), ..self },
            Sign::Open => Progress {
                open: self.open.push(Bracket::opened(self.excluding, self.sharing)),
                excluding: false,
                sharing: None,
                ..self
            },
            Sign::Close => {
                let done = self.open.last();
                let outer = Progress {
                    open: self.open.drop_last(),
                    cut: self.cut || done.closing_cuts(),
                    ..calm
                };
                outer.innermost(outer.open.last().with(done.closed()))
            },
        }
    }
}

pub open spec fn progress(tokens: Seq<Sign>) -> Progress
    decreases tokens.len(),
{
    if tokens.len() == 0 {
        Progress::start()
    } else {
        progress(tokens.drop_last()).next(tokens.last())
    }
}

/// What is asked once the brackets still open close at the end.
pub open spec fn closed_up(open: Seq<Bracket>, inner: Option<Tree>) -> Option<Tree>
    decreases open.len(),
{
    if open.len() == 0 {
        inner
    } else {
        closed_up(open.drop_last(), open.last().with(inner).closed())
    }
}

pub open spec fn closing_up_cuts(open: Seq<Bracket>, inner: Option<Tree>) -> bool
    decreases open.len(),
{
    open.len() > 0 && (open.last().with(inner).closing_cuts() || closing_up_cuts(
        open.drop_last(),
        open.last().with(inner).closed(),
    ))
}

/// What some tokens ask.
pub open spec fn tokens_ask(tokens: Seq<Sign>) -> Option<Tree> {
    closed_up(progress(tokens).open, None)
}

pub open spec fn tokens_cut(tokens: Seq<Sign>) -> bool {
    progress(tokens).cut || closing_up_cuts(progress(tokens).open, None)
}

pub proof fn brackets_match_depth(tokens: Seq<Sign>)
    requires
        well_bracketed(tokens),
    ensures
        progress(tokens).open.len() == depth(tokens) + 1,
    decreases tokens.len(),
{
    if tokens.len() > 0 {
        let before = tokens.drop_last();
        assert(before =~= tokens.take(tokens.len() - 1));
        well_bracketed_so_far(tokens, tokens.len() - 1);
        brackets_match_depth(before);
        assert(tokens.take(tokens.len() as int) =~= tokens);
    }
}

pub proof fn well_bracketed_so_far(tokens: Seq<Sign>, n: int)
    requires
        well_bracketed(tokens),
        0 <= n <= tokens.len(),
    ensures
        well_bracketed(tokens.take(n)),
        depth(tokens.take(n)) >= 0,
{
    assert forall|k: int| 0 <= k <= n implies depth(#[trigger] tokens.take(n).take(k)) >= 0 by {
        assert(tokens.take(n).take(k) =~= tokens.take(k));
    }
}

pub open spec fn brackets(open: Seq<Group>) -> Seq<Bracket> {
    open.map_values(|group: Group| group@)
}

/// Reads tokens in the order brackets, NOT, AND, OR.
///
/// Nothing here can fail. An operator with nothing on one side of it (first,
/// last, or doubled) is what the field holds mid-typing, so it is ignored
/// rather than searched for, or the results would flash empty between one
/// keystroke and the next. A bracket never closed closes at the end.
///
/// Nothing here calls itself, either. The open brackets are a list, and a
/// run of NOTs is a switch that two of them put back.
pub fn read_tokens(tokens: Vec<Token>, truncated: &mut bool) -> (r: Option<Expr>)
    requires
        well_bracketed(signs(tokens@)),
    ensures
        tree_of(r) == tokens_ask(signs(tokens@)),
        *final(truncated) == (*old(truncated) || tokens_cut(signs(tokens@))),
{
    let mut open: Vec<Group> = Vec::new();
    open.push(Group::new(false, None));
    let mut excluding = false;
    let mut sharing: Option<Vec<char>> = None;
    let ghost was = *truncated;
    let ghost all = tokens@;
    let ghost all_signs = signs(tokens@);
    assert(brackets(open@) =~= Progress::start().open);
    assert(signs(all.take(0)) =~= Seq::<Sign>::empty());
    for token in it: tokens
        invariant
            it.seq() == all,
            all_signs == signs(all),
            well_bracketed(all_signs),
            ({
                let now = progress(signs(all.take(it.index() as int)));
                &&& brackets(open@) == now.open
                &&& excluding == now.excluding
                &&& key_of(sharing) == now.sharing
                &&& *truncated == (was || now.cut)
                &&& open@.len() > 0
            }),
    {
        let ghost i = it.index() as int;
        let ghost before = signs(all.take(i));
        let ghost now = progress(before);
        proof {
            assert(signs(all.take(i + 1)) =~= before.push(token@));
            assert(signs(all.take(i + 1)).drop_last() =~= before);
            assert(before =~= all_signs.take(i));
            assert(signs(all.take(i + 1)) =~= all_signs.take(i + 1));
            well_bracketed_so_far(all_signs, i);
            well_bracketed_so_far(all_signs, i + 1);
            brackets_match_depth(before);
        }
        let excluded = excluding;
        excluding = false;
        let ghost groups = open@;
        match token {
            Token::Minus => {
                excluding = !excluded;
            },
            Token::Keyword(Keyword::Not) => {
                excluding = !excluded;
            },
            Token::Keyword(Keyword::And) => {},
            Token::Keyword(Keyword::Or) => {
                if let Some(mut group) = open.pop() {
                    group.or();
                    open.push(group);
                    assert(brackets(open@) =~= now.next(token@).open);
                }
            },
            Token::Clause(clause) => {
                let clause = Expr::Clause(clause);
                let part = if excluded {
                    negate(clause)
                } else {
                    clause
                };
                if let Some(mut group) = open.pop() {
                    group.take_in(Some(part));
                    open.push(group);
                    assert(brackets(open@) =~= now.next(token@).open);
                }
            },
            Token::Shared(key) => {
                sharing = Some(key);
                excluding = excluded;
            },
            Token::Open => {
                open.push(Group::new(excluded, sharing.take()));
                assert(brackets(open@) =~= now.next(token@).open);
            },
            Token::Close => {
                assert(open@.len() > 1);
                if let Some(group) = open.pop() {
                    assert(brackets(open@) =~= now.open.drop_last());
                    let ghost outer_groups = open@;
                    let closed = group.close(truncated);
                    if let Some(mut outer) = open.pop() {
                        outer.take_in(closed);
                        open.push(outer);
                        assert(brackets(open@) =~= now.next(token@).open);
                    }
                }
            },
        }
    }
    assert(all.take(all.len() as int) =~= all);
    let ghost end = progress(all_signs);
    let ghost cut_so_far = *truncated;
    let mut closed: Option<Expr> = None;
    while open.len() > 0
        invariant
            closed_up(brackets(open@), tree_of(closed)) == closed_up(end.open, None),
            (*truncated || closing_up_cuts(brackets(open@), tree_of(closed))) == (cut_so_far
                || closing_up_cuts(end.open, None)),
        decreases open@.len(),
    {
        let ghost groups = brackets(open@);
        if let Some(mut group) = open.pop() {
            assert(brackets(open@) =~= groups.drop_last());
            group.take_in(closed);
            closed = group.close(truncated);
        }
    }
    closed
}

} // verus!
