//! A query as it would be typed.

use super::lexer::{lex, marks_of, Lexeme, Mark};
use super::reader::{read, reading, Read, Reading};
use super::{
    trees, trees_are_each, Ask, Clause, Expr, Phrase, Point, SearchQuery, State, Term, Text, Tree,
};
use crate::text::{
    append_chars, chars_of, chars_without, contains_char, contains_white, has_char, has_white, same,
    string_of, without,
};
use vstd::prelude::*;

verus! {

/// A value as it can be put between quotes. Quote marks are taken off on the
/// way in, so none can be in a value that was parsed. One built by hand loses
/// them rather than unbalancing the field.
pub open spec fn quotable(value: Seq<char>) -> Seq<char> {
    without(value, '"')
}

/// Whether a value has to be typed in quotes: when it holds a space, or a
/// bracket the field could read as grouping.
pub open spec fn wants_quotes(value: Seq<char>) -> bool {
    has_char(value, '(') || has_char(value, ')') || has_white(value)
}

pub open spec fn quoted(value: Seq<char>) -> Seq<char> {
    seq!['"'] + quotable(value) + seq!['"']
}

/// A value the way it has to be typed.
pub open spec fn typed_value(value: Seq<char>) -> Seq<char> {
    if wants_quotes(quotable(value)) {
        quoted(value)
    } else {
        quotable(value)
    }
}

pub open spec fn minus(negated: bool) -> Seq<char> {
    if negated {
        seq!['-']
    } else {
        Seq::empty()
    }
}

/// Whether a text could be typed with no quotes and no brackets in it.
pub open spec fn is_plain(s: Seq<char>) -> bool {
    !has_char(s, '"') && !wants_quotes(s)
}

/// Whether these words can go into the field without quotes and come back out
/// as themselves.
///
/// A bracket wears quotes wherever it is. On its own `annex)` reads back as
/// itself, because a `)` closes nothing when nothing is open, but written
/// inside a group, as `-(annex) OR b)`, that same `)` closes the group early.
/// Quoted, it means one thing everywhere.
pub open spec fn can_be_bare(point: Point) -> bool {
    match point.term {
        Ask::Text(text) => {
            let bare = minus(point.negated) + text.value;
            &&& !text.exact
            &&& is_plain(bare)
            &&& marks_of(bare).len() == 1
            &&& marks_of(bare)[0] matches Mark::Piece(piece) && reading(piece) == Reading::Clause(
                point,
            )
        },
        _ => true,
    }
}

/// A value the way it has to be typed: in quotes when it holds a space, or a
/// `)` where the field would read it as closing a group.
pub fn typed(value: &str) -> (out: String)
    ensures
        out@ == typed_value(value@),
{
    string_of(&typed_chars(&chars_of(value)))
}

fn wants_quotes_now(value: &[char]) -> (r: bool)
    ensures
        r == wants_quotes(value@),
{
    contains_char(value, '(') || contains_char(value, ')') || contains_white(value)
}

fn typed_chars(value: &[char]) -> (out: Vec<char>)
    ensures
        out@ == typed_value(value@),
{
    let value = chars_without(value, '"');
    if wants_quotes_now(&value) {
        in_quotes(&value)
    } else {
        value
    }
}

fn in_quotes(value: &[char]) -> (out: Vec<char>)
    ensures
        out@ == seq!['"'] + value@ + seq!['"'],
{
    let mut out: Vec<char> = Vec::new();
    out.push('"');
    append_chars(&mut out, value);
    out.push('"');
    assert(out@ =~= seq!['"'] + value@ + seq!['"']);
    out
}

fn same_clause(a: &Clause, b: &Clause) -> (r: bool)
    ensures
        b.term is Text ==> r == (a@ == b@),
{
    if a.negated != b.negated {
        return false;
    }
    match (&a.term, &b.term) {
        (Term::Text(x), Term::Text(y)) => {
            x.exact == y.exact && same(&x.value, &y.value)
        },
        _ => false,
    }
}

impl Clause {
    /// Whether these words can go into the field without quotes and come
    /// back out as themselves.
    pub fn writes_bare(&self) -> (r: bool)
        ensures
            r == can_be_bare(self@),
    {
        let text = match &self.term {
            Term::Text(text) => text,
            _ => {
                return true;
            },
        };
        let mut bare: Vec<char> = Vec::new();
        if self.negated {
            bare.push('-');
        }
        append_chars(&mut bare, &chars_of(&text.value));
        assert(bare@ =~= minus(self.negated) + text.value@);
        if text.exact || contains_char(&bare, '"') || wants_quotes_now(&bare) {
            return false;
        }
        proof {
            super::lexer::field_is_in_order(bare@);
            super::lexer::marks_ok_so_far(marks_of(bare@), marks_of(bare@).len() as int);
        }
        let mut lexemes = lex(&bare);
        if lexemes.len() != 1 {
            return false;
        }
        match lexemes.pop() {
            Some(Lexeme::Piece(piece)) => {
                assert(marks_of(bare@)[0] == Mark::Piece(piece@));
                let mut cut = false;
                match read(piece, &mut cut) {
                    Read::Clause(clause) => same_clause(&clause, self),
                    _ => false,
                }
            },
            _ => false,
        }
    }
}

// ---------------------------------------------------------------------
// Settling
// ---------------------------------------------------------------------
pub open spec fn settled_point(point: Point) -> Point {
    match point.term {
        Ask::Text(text) if !can_be_bare(point) => Point {
            term: Ask::Text(Phrase { exact: true, ..text }),
            ..point
        },
        Ask::Subject(text) if wants_quotes(quotable(text.value)) => Point {
            term: Ask::Subject(Phrase { exact: true, ..text }),
            ..point
        },
        _ => point,
    }
}

/// Words that could only be written in quotes are words in quotes. A NOT
/// taken off a word can leave one no keyboard could have typed bare (the lone
/// dash in `NOT -`, say) and this is what keeps writing a query out and
/// reading it back the identity for those too.
pub open spec fn settled(tree: Tree) -> Tree
    decreases tree,
{
    match tree {
        Tree::Clause(point) => Tree::Clause(settled_point(point)),
        Tree::Not(inner) => Tree::Not(Box::new(settled(*inner))),
        Tree::All(parts) => Tree::All(settled_each(parts)),
        Tree::Any(parts) => Tree::Any(settled_each(parts)),
    }
}

pub open spec fn settled_each(parts: Seq<Tree>) -> Seq<Tree>
    decreases parts,
{
    if parts.len() == 0 {
        Seq::empty()
    } else {
        settled_each(parts.drop_last()).push(settled(parts.last()))
    }
}

/// Puts words that could only be written in quotes in quotes.
pub fn settle(expr: Expr) -> (r: Expr)
    ensures
        r@ == settled(expr@),
    decreases expr,
{
    match expr {
        Expr::Clause(clause) => {
            let bare = clause.writes_bare();
            let negated = clause.negated;
            let term = match clause.term {
                Term::Text(text) => {
                    if bare {
                        Term::Text(text)
                    } else {
                        Term::Text(Text { value: text.value, exact: true })
                    }
                },
                Term::Subject(text) => {
                    let value = chars_without(&chars_of(&text.value), '"');
                    if wants_quotes_now(&value) {
                        Term::Subject(Text { value: text.value, exact: true })
                    } else {
                        Term::Subject(text)
                    }
                },
                other => other,
            };
            Expr::Clause(Clause { negated, term })
        },
        Expr::Not(inner) => Expr::Not(Box::new(settle(*inner))),
        Expr::All(parts) => Expr::All(settle_each(parts)),
        Expr::Any(parts) => Expr::Any(settle_each(parts)),
    }
}

fn settle_each(parts: Vec<Expr>) -> (out: Vec<Expr>)
    ensures
        trees(out@) == settled_each(trees(parts@)),
    decreases parts,
{
    let mut out: Vec<Expr> = Vec::new();
    let ghost all = parts@;
    for part in it: parts
        invariant
            it.seq() == all,
            all == parts@,
            trees(out@) == settled_each(trees(all.take(it.index() as int))),
    {
        let ghost i = it.index() as int;
        let ghost before = out@;
        assert(all.take(i + 1).drop_last() =~= all.take(i));
        assert(trees(all.take(i + 1)).drop_last() =~= trees(all.take(i)));
        assert(decreases_to!(parts => part));
        out.push(settle(part));
        assert(out@.drop_last() =~= before);
    }
    assert(all.take(all.len() as int) =~= all);
    out
}

// ---------------------------------------------------------------------
// Writing
// ---------------------------------------------------------------------
pub open spec fn state_text(state: State) -> Seq<char> {
    match state {
        State::Unread => "is:unread"@,
        State::Read => "is:read"@,
        State::Starred => "is:starred"@,
        State::Snoozed => "is:snoozed"@,
    }
}

/// A term that is not words to find anywhere, as it is typed.
pub open spec fn operator_text(term: Ask) -> Seq<char> {
    match term {
        Ask::Text(_) => Seq::empty(),
        Ask::Subject(text) => "subject:"@ + if text.exact {
            quoted(text.value)
        } else {
            typed_value(text.value)
        },
        Ask::From(v) => "from:"@ + typed_value(v),
        Ask::To(v) => "to:"@ + typed_value(v),
        Ask::Cc(v) => "cc:"@ + typed_value(v),
        Ask::In(v) => "in:"@ + typed_value(v),
        Ask::Tag(v) => "tag:"@ + typed_value(v),
        Ask::Filename(v) => "filename:"@ + typed_value(v),
        Ask::Is(state) => state_text(state),
        Ask::HasAttachment => "has:attachment"@,
        Ask::After(when) => "after:"@ + when.text(),
        Ask::Before(when) => "before:"@ + when.text(),
        Ask::On(when) => "date:"@ + when.text(),
    }
}

/// A clause as it is typed. Words are bare only if they read back as this same
/// clause: `OR`, `-draft`, `(annex` and `from:sam` as literal text all have to
/// wear quotes.
pub open spec fn point_text(point: Point) -> Seq<char> {
    minus(point.negated) + match point.term {
        Ask::Text(text) => if can_be_bare(point) {
            text.value
        } else {
            quoted(text.value)
        },
        term => operator_text(term),
    }
}

/// A tree as it is typed, with the fewest brackets that keep the meaning: `OR`
/// binds loosest, so only an `OR` inside an AND needs them, and an excluded
/// group.
pub open spec fn tree_text(tree: Tree) -> Seq<char>
    decreases tree, 0nat,
{
    match tree {
        Tree::Clause(point) => point_text(point),
        Tree::Not(inner) => "-("@ + tree_text(*inner) + ")"@,
        Tree::All(parts) => all_text(parts, parts.len()),
        Tree::Any(parts) => any_text(parts, parts.len()),
    }
}

/// The first `n` parts of an AND.
pub open spec fn all_text(parts: Seq<Tree>, n: nat) -> Seq<char>
    decreases parts, n,
{
    if n == 0 || n > parts.len() {
        Seq::empty()
    } else {
        let part = match parts[n - 1] {
            Tree::Any(_) => "("@ + tree_text(parts[n - 1]) + ")"@,
            _ => tree_text(parts[n - 1]),
        };
        if n == 1 {
            part
        } else {
            all_text(parts, (n - 1) as nat) + " "@ + part
        }
    }
}

/// The first `n` parts of an OR.
pub open spec fn any_text(parts: Seq<Tree>, n: nat) -> Seq<char>
    decreases parts, n,
{
    if n == 0 || n > parts.len() {
        Seq::empty()
    } else if n == 1 {
        tree_text(parts[0])
    } else {
        any_text(parts, (n - 1) as nat) + " OR "@ + tree_text(parts[n - 1])
    }
}

pub open spec fn query_text(root: Option<Tree>) -> Seq<char> {
    match root {
        Some(tree) => tree_text(tree),
        None => Seq::empty(),
    }
}

fn put(out: &mut Vec<char>, s: &str)
    ensures
        final(out)@ == old(out)@ + s@,
{
    append_chars(out, &chars_of(s));
}

fn state_name(state: State) -> (s: &'static str)
    ensures
        s@ == state_text(state),
{
    match state {
        State::Unread => "is:unread",
        State::Read => "is:read",
        State::Starred => "is:starred",
        State::Snoozed => "is:snoozed",
    }
}

fn with_value(key: &str, value: &String) -> (out: Vec<char>)
    ensures
        out@ == key@ + typed_value(value@),
{
    let mut out = chars_of(key);
    append_chars(&mut out, &typed_chars(&chars_of(value)));
    out
}

fn quoted_chars(value: &String) -> (out: Vec<char>)
    ensures
        out@ == quoted(value@),
{
    in_quotes(&chars_without(&chars_of(value), '"'))
}

fn with_period(key: &str, text: &String) -> (out: Vec<char>)
    ensures
        out@ == key@ + text@,
{
    let mut out = chars_of(key);
    append_chars(&mut out, &chars_of(text));
    out
}

fn term_chars(clause: &Clause) -> (out: Vec<char>)
    ensures
        minus(clause.negated) + out@ == point_text(clause@),
{
    match &clause.term {
        Term::Text(text) => if clause.writes_bare() {
            chars_of(&text.value)
        } else {
            quoted_chars(&text.value)
        },
        Term::Subject(text) => {
            let mut out = chars_of("subject:");
            if text.exact {
                append_chars(&mut out, &quoted_chars(&text.value));
            } else {
                append_chars(&mut out, &typed_chars(&chars_of(&text.value)));
            }
            out
        },
        Term::From(v) => with_value("from:", v),
        Term::To(v) => with_value("to:", v),
        Term::Cc(v) => with_value("cc:", v),
        Term::In(v) => with_value("in:", v),
        Term::Tag(v) => with_value("tag:", v),
        Term::Filename(v) => with_value("filename:", v),
        Term::Is(state) => chars_of(state_name(*state)),
        Term::HasAttachment => chars_of("has:attachment"),
        Term::After(when) => with_period("after:", &when.to_text()),
        Term::Before(when) => with_period("before:", &when.to_text()),
        Term::On(when) => with_period("date:", &when.to_text()),
    }
}

fn write_clause(out: &mut Vec<char>, clause: &Clause)
    ensures
        final(out)@ == old(out)@ + point_text(clause@),
{
    if clause.negated {
        out.push('-');
    }
    let term = term_chars(clause);
    append_chars(out, &term);
    assert(out@ =~= old(out)@ + (minus(clause.negated) + term@));
}

fn write_expr(out: &mut Vec<char>, expr: &Expr)
    ensures
        final(out)@ == old(out)@ + tree_text(expr@),
    decreases expr,
{
    broadcast use trees_are_each;

    match expr {
        Expr::Clause(clause) => write_clause(out, clause),
        Expr::Not(inner) => {
            put(out, "-(");
            write_expr(out, inner);
            put(out, ")");
            assert(out@ =~= old(out)@ + tree_text(expr@));
        },
        Expr::All(parts) => {
            let ghost before = out@;
            let mut i: usize = 0;
            assert(out@ =~= before + all_text(trees(parts@), 0));
            while i < parts.len()
                invariant
                    i <= parts@.len(),
                    trees(parts@).len() == parts@.len(),
                    expr matches Expr::All(p) && p@ == parts@,
                    out@ == before + all_text(trees(parts@), i as nat),
                decreases parts@.len() - i,
            {
                let ghost so_far = out@;
                if i > 0 {
                    put(out, " ");
                }
                let ghost spaced = out@;
                proof {
                    trees_are_each(parts@);
                }
                match &parts[i] {
                    Expr::Any(_) => {
                        put(out, "(");
                        write_expr(out, &parts[i]);
                        put(out, ")");
                        assert(out@ =~= spaced + ("("@ + tree_text(trees(parts@)[i as int])
                            + ")"@));
                    },
                    _ => {
                        write_expr(out, &parts[i]);
                    },
                }
                assert(out@ =~= before + all_text(trees(parts@), (i + 1) as nat));
                i += 1;
            }
        },
        Expr::Any(parts) => {
            let ghost before = out@;
            let mut i: usize = 0;
            assert(out@ =~= before + any_text(trees(parts@), 0));
            while i < parts.len()
                invariant
                    i <= parts@.len(),
                    trees(parts@).len() == parts@.len(),
                    expr matches Expr::Any(p) && p@ == parts@,
                    out@ == before + any_text(trees(parts@), i as nat),
                decreases parts@.len() - i,
            {
                if i > 0 {
                    put(out, " OR ");
                }
                proof {
                    trees_are_each(parts@);
                }
                write_expr(out, &parts[i]);
                assert(out@ =~= before + any_text(trees(parts@), (i + 1) as nat));
                i += 1;
            }
        },
    }
}

impl Clause {
    /// The clause as it would be typed.
    pub fn to_text(&self) -> (out: String)
        ensures
            out@ == point_text(self@),
    {
        let mut out: Vec<char> = Vec::new();
        write_clause(&mut out, self);
        assert(out@ =~= point_text(self@));
        string_of(&out)
    }
}

impl Expr {
    /// The expression as it would be typed, with the fewest brackets that
    /// keep the meaning.
    pub fn to_text(&self) -> (out: String)
        ensures
            out@ == tree_text(self@),
    {
        let mut out: Vec<char> = Vec::new();
        write_expr(&mut out, self);
        assert(out@ =~= tree_text(self@));
        string_of(&out)
    }
}

impl SearchQuery {
    /// The query as it would be typed. Reading it back gives the same query,
    /// which is what lets anything that builds one hand its work to the field
    /// as text the person can see and edit.
    pub fn to_text(&self) -> (out: String)
        ensures
            out@ == query_text(super::tree_of(self.root)),
    {
        match &self.root {
            Some(root) => root.to_text(),
            None => String::new(),
        }
    }
}

} // verus!
