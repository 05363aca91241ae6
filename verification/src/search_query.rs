//! The search field's grammar.
//!
//! One string holds everything: `from:sam has:attachment annex` is words to
//! look for plus conditions to meet, and the whole of it is visible and
//! editable. The chips above the field write into this string rather than
//! keeping a parallel state of their own, so someone who never learns the
//! grammar gets buttons, someone who does gets the same thing faster, and
//! neither is fighting a filter they cannot see.
//!
//! Deliberately forgiving. An operator nobody recognises stays in the search
//! text rather than being rejected: `re:pricing` is a subject line far more
//! often than a failed attempt at an operator, and a field that argues with
//! what you typed is worse than one that searches for it.
//!
//! A query is a small tree. A space is AND, `OR` is either side, `-` or `NOT`
//! excludes, and brackets group, evaluated in the order brackets, NOT, AND,
//! OR, which is the order every Boolean search a person has met uses. The
//! tree is bounded in every direction it can grow.

use crate::text::{chars_of, same};
use lexer::{
    field_is_in_order, lex, mark_depth, marks, marks_of, marks_ok, marks_ok_so_far, Lexeme, Mark,
};
use printer::{settle, settled};
use reader::{
    depth, read, read_tokens, reading, reading_cuts, signs, tokens_ask, tokens_cut, well_bracketed,
    Read, Reading, Sign, Token,
};
use vstd::prelude::*;

pub mod calendar;
pub mod grammar;
pub mod lexer;
pub mod operators;
pub mod printer;
pub mod reader;
pub mod rebuilding;
pub mod round_trip;
pub mod tidiness;

pub use calendar::{days_in, Day, Period, Stretch};

verus! {

/// How many separate statements one query may become in the store.
///
/// Words joined by `OR` are one full-text expression and conditions joined
/// by `OR` are one SQL predicate, so most queries are a single statement
/// however they are bracketed. Only an `OR` with words on one side and a
/// condition on the other has to be asked twice, and a query built to
/// multiply those must not become a hundred statements. One that would pass
/// this is not cut short: the store asks it whole, as one statement that
/// cannot rank its results.
///
/// Each statement ranks its own words, so the cost is about the sum. Two
/// bracketed choices of a word or a condition still rank; a third is where
/// ranking stops paying for itself.
pub const MAX_ALTERNATIVES: usize = 4;

/// How many clauses a whole query can hold. Each binds a few SQL variables,
/// and a condition that matches little reads every message. Past the limits
/// the rest is left out, and the parse says so in `truncated` rather than
/// pretending it read everything.
pub const MAX_CLAUSES: usize = 32;

/// How long one value can be. Nobody searches for a 300-character name, and
/// SQLite refuses a LIKE pattern that runs to tens of thousands of bytes.
pub const MAX_VALUE_CHARS: usize = 256;

/// A parsed query.
#[derive(Debug, PartialEq, Eq)]
pub struct SearchQuery {
    /// What was asked, or nothing: an empty query is not a search.
    pub root: Option<Expr>,
    /// True when the field held more than the limits allow.
    pub truncated: bool,
}

/// What a query is made of. The parser only ever builds the tidy form: an
/// `All` never directly holds an `All`, nor an `Any` an `Any`, neither holds
/// fewer than two things, a `Not` holds one of those groups rather than a
/// single term, and an excluded single term is a negated `Clause`. So a tree
/// cannot be deeper than the clauses in it, however the field was bracketed.
#[derive(Debug, PartialEq, Eq)]
pub enum Expr {
    Clause(Clause),
    /// A bracketed group that must not hold: `-(a OR b)`, `NOT (a b)`.
    Not(Box<Expr>),
    /// Every part has to hold. AND is the default, and never OR.
    All(Vec<Expr>),
    /// Any part may hold.
    Any(Vec<Expr>),
}

/// One thing asked of a message, or with `-` in front, one thing it must not be.
#[derive(Debug, PartialEq, Eq)]
pub struct Clause {
    pub negated: bool,
    pub term: Term,
}

#[derive(Debug, PartialEq, Eq)]
pub enum Term {
    /// Words to find anywhere in the message.
    Text(Text),
    /// Words to find in the subject line and nowhere else.
    Subject(Text),
    /// Matched against the sender's name and address, case-insensitively.
    From(String),
    /// Anyone in To.
    To(String),
    /// Anyone copied.
    Cc(String),
    /// A mailbox role (inbox, sent, archive and the rest) or a folder the
    /// user made, by its path or its last part. Held lowercased, because the
    /// roles are, and the store asks `In("spam")` by name.
    In(String),
    /// A tag, by its whole name.
    Tag(String),
    /// Part of an attached file's name.
    Filename(String),
    Is(State),
    HasAttachment,
    /// Sent on or after the start of the period.
    After(Period),
    /// Sent before the start of the period.
    Before(Period),
    /// Sent within the period.
    On(Period),
}

/// Words, and whether they were typed inside quotes.
///
/// Quoted means exactly these words in this order, and it also means
/// finished: the as-you-type prefix goes on a word somebody may still be
/// typing, never on one they closed the quotes around.
#[derive(Debug, PartialEq, Eq)]
pub struct Text {
    pub value: String,
    pub exact: bool,
}

#[derive(Debug, Clone, Copy, PartialEq, Eq, Structural)]
pub enum State {
    Unread,
    /// A state of its own rather than "not unread": asking for both is asking
    /// for nothing, because nothing is both.
    Read,
    Starred,
    /// Put-aside mail. In the grammar so the Snoozed view's search can scope
    /// itself the way every other view's does.
    Snoozed,
}

// ---------------------------------------------------------------------
// What a query means, apart from how it is stored
// ---------------------------------------------------------------------
/// Words, as the characters in them.
#[verifier::ext_equal]
pub struct Phrase {
    pub value: Seq<char>,
    pub exact: bool,
}

#[verifier::ext_equal]
pub enum Ask {
    Text(Phrase),
    Subject(Phrase),
    From(Seq<char>),
    To(Seq<char>),
    Cc(Seq<char>),
    In(Seq<char>),
    Tag(Seq<char>),
    Filename(Seq<char>),
    Is(State),
    HasAttachment,
    After(Stretch),
    Before(Stretch),
    On(Stretch),
}

#[verifier::ext_equal]
pub struct Point {
    pub negated: bool,
    pub term: Ask,
}

/// The tree a query is.
#[verifier::ext_equal]
pub enum Tree {
    Clause(Point),
    Not(Box<Tree>),
    All(Seq<Tree>),
    Any(Seq<Tree>),
}

impl View for Text {
    type V = Phrase;

    open spec fn view(&self) -> Phrase {
        Phrase { value: self.value@, exact: self.exact }
    }
}

impl View for Term {
    type V = Ask;

    open spec fn view(&self) -> Ask {
        match self {
            Term::Text(text) => Ask::Text(text@),
            Term::Subject(text) => Ask::Subject(text@),
            Term::From(v) => Ask::From(v@),
            Term::To(v) => Ask::To(v@),
            Term::Cc(v) => Ask::Cc(v@),
            Term::In(v) => Ask::In(v@),
            Term::Tag(v) => Ask::Tag(v@),
            Term::Filename(v) => Ask::Filename(v@),
            Term::Is(state) => Ask::Is(*state),
            Term::HasAttachment => Ask::HasAttachment,
            Term::After(when) => Ask::After(when@),
            Term::Before(when) => Ask::Before(when@),
            Term::On(when) => Ask::On(when@),
        }
    }
}

impl View for Clause {
    type V = Point;

    open spec fn view(&self) -> Point {
        Point { negated: self.negated, term: self.term@ }
    }
}

impl Expr {
    pub open spec fn tree(self) -> Tree
        decreases self,
    {
        match self {
            Expr::Clause(clause) => Tree::Clause(clause@),
            Expr::Not(inner) => Tree::Not(Box::new((*inner).tree())),
            Expr::All(parts) => Tree::All(trees(parts@)),
            Expr::Any(parts) => Tree::Any(trees(parts@)),
        }
    }
}

impl View for Expr {
    type V = Tree;

    open spec fn view(&self) -> Tree {
        self.tree()
    }
}

pub open spec fn trees(parts: Seq<Expr>) -> Seq<Tree>
    decreases parts,
{
    if parts.len() == 0 {
        Seq::empty()
    } else {
        trees(parts.drop_last()).push(parts.last().tree())
    }
}

pub open spec fn tree_of(root: Option<Expr>) -> Option<Tree> {
    match root {
        Some(expr) => Some(expr@),
        None => None,
    }
}

pub broadcast proof fn trees_are_each(parts: Seq<Expr>)
    ensures
        (#[trigger] trees(parts)).len() == parts.len(),
        forall|i: int| 0 <= i < parts.len() ==> trees(parts)[i] == #[trigger] parts[i]@,
    decreases parts.len(),
{
    if parts.len() > 0 {
        trees_are_each(parts.drop_last());
        assert forall|i: int| 0 <= i < parts.len() implies trees(parts)[i]
            == #[trigger] parts[i]@ by {
            if i < parts.len() - 1 {
                assert(parts.drop_last()[i]@ == trees(parts.drop_last())[i]);
            }
        }
    }
}

impl Clone for Text {
    fn clone(&self) -> (r: Text)
        ensures
            r@ == self@,
    {
        Text { value: self.value.clone(), exact: self.exact }
    }
}

impl Clone for Term {
    fn clone(&self) -> (r: Term)
        ensures
            r@ == self@,
    {
        match self {
            Term::Text(text) => Term::Text(text.clone()),
            Term::Subject(text) => Term::Subject(text.clone()),
            Term::From(v) => Term::From(v.clone()),
            Term::To(v) => Term::To(v.clone()),
            Term::Cc(v) => Term::Cc(v.clone()),
            Term::In(v) => Term::In(v.clone()),
            Term::Tag(v) => Term::Tag(v.clone()),
            Term::Filename(v) => Term::Filename(v.clone()),
            Term::Is(state) => Term::Is(*state),
            Term::HasAttachment => Term::HasAttachment,
            Term::After(when) => Term::After(*when),
            Term::Before(when) => Term::Before(*when),
            Term::On(when) => Term::On(*when),
        }
    }
}

impl Clone for Clause {
    fn clone(&self) -> (r: Clause)
        ensures
            r@ == self@,
    {
        Clause { negated: self.negated, term: self.term.clone() }
    }
}

fn copy_of(expr: &Expr) -> (r: Expr)
    ensures
        r@ == expr@,
    decreases expr,
{
    match expr {
        Expr::Clause(clause) => Expr::Clause(clause.clone()),
        Expr::Not(inner) => Expr::Not(Box::new(copy_of(inner))),
        Expr::All(parts) => Expr::All(copies_of(parts)),
        Expr::Any(parts) => Expr::Any(copies_of(parts)),
    }
}

fn copies_of(parts: &Vec<Expr>) -> (out: Vec<Expr>)
    ensures
        trees(out@) == trees(parts@),
    decreases parts,
{
    let mut out: Vec<Expr> = Vec::new();
    let mut i: usize = 0;
    while i < parts.len()
        invariant
            i <= parts@.len(),
            trees(out@) == trees(parts@.take(i as int)),
        decreases parts@.len() - i,
    {
        let ghost before = out@;
        out.push(copy_of(&parts[i]));
        assert(out@.drop_last() =~= before);
        assert(parts@.take(i + 1).drop_last() =~= parts@.take(i as int));
        i += 1;
    }
    assert(parts@.take(i as int) =~= parts@);
    out
}

impl Clone for Expr {
    fn clone(&self) -> (r: Expr)
        ensures
            r@ == self@,
    {
        copy_of(self)
    }
}

impl Clone for SearchQuery {
    fn clone(&self) -> (r: SearchQuery)
        ensures
            tree_of(r.root) == tree_of(self.root),
            r.truncated == self.truncated,
    {
        SearchQuery {
            root: match &self.root {
                Some(root) => Some(copy_of(root)),
                None => None,
            },
            truncated: self.truncated,
        }
    }
}

impl Default for SearchQuery {
    fn default() -> (q: SearchQuery)
        ensures
            q.root is None,
            !q.truncated,
    {
        SearchQuery { root: None, truncated: false }
    }
}

impl SearchQuery {
    /// Whether anything at all was asked for. An empty query is not a search.
    pub fn is_empty(&self) -> (r: bool)
        ensures
            r == self.root is None,
    {
        self.root.is_none()
    }
}

// ---------------------------------------------------------------------
// Reading the field
// ---------------------------------------------------------------------
/// The tokens taken from the pieces of a field.
#[verifier::ext_equal]
pub struct Intake {
    pub tokens: Seq<Sign>,
    pub clauses: nat,
    pub cut: bool,
    /// The clause limit was met, and the rest is left out.
    pub full: bool,
}

impl Intake {
    pub open spec fn start() -> Intake {
        Intake { tokens: Seq::empty(), clauses: 0, cut: false, full: false }
    }

    pub open spec fn with(self, token: Sign) -> Intake {
        Intake { tokens: self.tokens.push(token), ..self }
    }

    pub open spec fn next(self, mark: Mark) -> Intake {
        match mark {
            _ if self.full => self,
            Mark::Open => self.with(Sign::Open),
            Mark::Close => self.with(Sign::Close),
            Mark::Minus => self.with(Sign::Minus),
            Mark::Shared(key) => self.with(Sign::Shared(key)),
            Mark::Piece(piece) => {
                let now = Intake { cut: self.cut || reading_cuts(piece), ..self };
                match reading(piece) {
                    Reading::Nothing => now,
                    Reading::Keyword(keyword) => now.with(Sign::Keyword(keyword)),
                    Reading::Clause(point) => if self.clauses == MAX_CLAUSES {
                        Intake { cut: true, full: true, ..now }
                    } else {
                        Intake { clauses: self.clauses + 1, ..now.with(Sign::Clause(point)) }
                    },
                }
            },
        }
    }
}

pub open spec fn intake(marks: Seq<Mark>) -> Intake
    decreases marks.len(),
{
    if marks.len() == 0 {
        Intake::start()
    } else {
        intake(marks.drop_last()).next(marks.last())
    }
}

/// What a field asks.
pub open spec fn query_of(s: Seq<char>) -> Option<Tree> {
    match tokens_ask(intake(marks_of(s)).tokens) {
        Some(tree) => Some(settled(tree)),
        None => None,
    }
}

/// Whether a field holds more than the limits allow.
pub open spec fn query_cuts(s: Seq<char>) -> bool {
    let taken = intake(marks_of(s));
    taken.cut || tokens_cut(taken.tokens)
}

proof fn one_more_token(tokens: Seq<Sign>, token: Sign)
    requires
        well_bracketed(tokens),
        token is Close ==> depth(tokens) > 0,
    ensures
        well_bracketed(tokens.push(token)),
        depth(tokens.push(token)) == depth(tokens) + match token {
            Sign::Open => 1int,
            Sign::Close => -1int,
            _ => 0int,
        },
{
    let more = tokens.push(token);
    assert(more.drop_last() =~= tokens);
    assert(tokens.take(tokens.len() as int) =~= tokens);
    assert forall|n: int| 0 <= n <= more.len() implies depth(#[trigger] more.take(n)) >= 0 by {
        if n < more.len() {
            assert(more.take(n) =~= tokens.take(n));
        } else {
            assert(more.take(n) =~= more);
        }
    }
}

/// What is taken in from pieces in order is well bracketed.
pub proof fn intake_is_bracketed(marks: Seq<Mark>)
    requires
        marks_ok(marks),
    ensures
        well_bracketed(intake(marks).tokens),
        !intake(marks).full ==> depth(intake(marks).tokens) == mark_depth(marks),
        intake(marks).clauses <= MAX_CLAUSES,
    decreases marks.len(),
{
    if marks.len() > 0 {
        intake_is_bracketed(marks.drop_last());
        let before = intake(marks.drop_last());
        let after = before.next(marks.last());
        if after.tokens.len() > before.tokens.len() {
            one_more_token(before.tokens, after.tokens.last());
        }
    } else {
        let none = Seq::<Sign>::empty();
        assert forall|n: int| 0 <= n <= none.len() implies depth(#[trigger] none.take(n)) >= 0 by {
            assert(none.take(n) =~= none);
        }
    }
}

/// Reads the field.
pub fn parse(input: &str) -> (q: SearchQuery)
    ensures
        tree_of(q.root) == query_of(input@),
        q.truncated == query_cuts(input@),
{
    let mut truncated = false;
    let mut tokens: Vec<Token> = Vec::new();
    let mut clauses: usize = 0;
    let mut full = false;
    let lexemes = lex(&chars_of(input));
    let ghost all = lexemes@;
    let ghost every = marks_of(input@);
    proof {
        field_is_in_order(input@);
        assert(marks(all.take(0)) =~= Seq::<Mark>::empty());
        assert(signs(tokens@) =~= Seq::<Sign>::empty());
    }
    for lexeme in it: lexemes
        invariant
            it.seq() == all,
            marks(all) == every,
            marks_ok(every),
            ({
                let now = intake(marks(all.take(it.index() as int)));
                &&& signs(tokens@) == now.tokens
                &&& clauses == now.clauses
                &&& clauses <= MAX_CLAUSES
                &&& truncated == now.cut
                &&& full == now.full
            }),
    {
        let ghost i = it.index() as int;
        let ghost before = tokens@;
        proof {
            assert(marks(all.take(i + 1)).drop_last() =~= marks(all.take(i)));
            assert(marks(all.take(i + 1)).last() == lexeme@);
            assert(every[i] == lexeme@);
            marks_ok_so_far(every, i + 1);
        }
        if !full {
            let token = match lexeme {
                Lexeme::Open => Some(Token::Open),
                Lexeme::Close => Some(Token::Close),
                Lexeme::Minus => Some(Token::Minus),
                Lexeme::Shared(key) => Some(Token::Shared(key)),
                Lexeme::Piece(piece) => match read(piece, &mut truncated) {
                    Read::Nothing => None,
                    Read::Keyword(keyword) => Some(Token::Keyword(keyword)),
                    Read::Clause(clause) => Some(Token::Clause(clause)),
                },
            };
            if let Some(token) = token {
                let is_clause = matches!(token, Token::Clause(_));
                if is_clause && clauses == MAX_CLAUSES {
                    truncated = true;
                    full = true;
                } else {
                    if is_clause {
                        clauses += 1;
                    }
                    tokens.push(token);
                    assert(signs(tokens@) =~= signs(before).push(token@));
                }
            }
        }
    }
    proof {
        assert(all.take(all.len() as int) =~= all);
        intake_is_bracketed(every);
    }
    let root = match read_tokens(tokens, &mut truncated) {
        Some(root) => Some(settle(root)),
        None => None,
    };
    SearchQuery { root, truncated }
}

/// The token a chip writes into the field.
pub open spec fn chip_token(chip: Seq<char>) -> Option<Seq<char>> {
    if chip == "attachment"@ {
        Some("has:attachment"@)
    } else if chip == "unread"@ {
        Some("is:unread"@)
    } else if chip == "starred"@ {
        Some("is:starred"@)
    } else if chip == "inbox"@ {
        Some("in:inbox"@)
    } else {
        None
    }
}

/// The token a chip writes into the field.
pub fn token_for(chip: &str) -> (token: Option<&'static str>)
    ensures
        match token {
            Some(t) => chip_token(chip@) == Some(t@),
            None => chip_token(chip@) is None,
        },
{
    if same(chip, "attachment") {
        Some("has:attachment")
    } else if same(chip, "unread") {
        Some("is:unread")
    } else if same(chip, "starred") {
        Some("is:starred")
    } else if same(chip, "inbox") {
        Some("in:inbox")
    } else {
        None
    }
}

} // verus!
