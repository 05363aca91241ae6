//! What a query asks for, worked out before any of it is SQL.
//!
//! Nothing here touches the database. A parsed query becomes a small tree of
//! things to find and things to be true (`Node`), the NOTs are pushed down to
//! its leaves, and what is left is sorted into statements: words that can
//! share one full-text expression, conditions that can share one predicate,
//! and the few queries that can share neither. Which index each statement is
//! asked of, which word is still being typed, and what a statement is allowed
//! to see are all decided here, where they can be read without a mailbox.

use crate::search_query::round_trip::{clauses, clauses_in};
use crate::search_query::{trees, trees_are_each, Ask, Expr, Phrase, Term, Text, Tree};
use crate::store::index_text::{any_alnum, any_cjk, chars_have_alnum, has_cjk};
use crate::text::chars_of;
use vstd::prelude::*;

verus! {

/// The part of a message words are looked for in.
#[derive(Debug, Clone, Copy, PartialEq, Eq, Structural)]
pub enum Column {
    Anywhere,
    Subject,
}

/// A term as the query finally asks for it, with every NOT around it applied.
#[derive(Clone, Copy)]
pub struct Lit<'a> {
    pub negated: bool,
    pub term: &'a Term,
    /// Which of the query's terms it is, counted from the left.
    pub at: usize,
}

/// The query with its NOTs pushed down to the terms, so that what is left is
/// only "all of these" and "any of these".
pub enum Node<'a> {
    Lit(Lit<'a>),
    All(Vec<Node<'a>>),
    Any(Vec<Node<'a>>),
}

#[verifier::ext_equal]
pub struct Fact {
    pub negated: bool,
    pub term: Ask,
    pub at: nat,
}

/// What a `Node` asks.
#[verifier::ext_equal]
pub enum Shape {
    Lit(Fact),
    All(Seq<Shape>),
    Any(Seq<Shape>),
}

impl<'a> View for Lit<'a> {
    type V = Fact;

    open spec fn view(&self) -> Fact {
        Fact { negated: self.negated, term: self.term@, at: self.at as nat }
    }
}

impl<'a> Node<'a> {
    pub open spec fn shape(self) -> Shape
        decreases self,
    {
        match self {
            Node::Lit(lit) => Shape::Lit(lit@),
            Node::All(parts) => Shape::All(shapes(parts@)),
            Node::Any(parts) => Shape::Any(shapes(parts@)),
        }
    }
}

pub open spec fn shapes(parts: Seq<Node>) -> Seq<Shape>
    decreases parts,
{
    if parts.len() == 0 {
        Seq::empty()
    } else {
        shapes(parts.drop_last()).push(parts.last().shape())
    }
}

impl<'a> View for Node<'a> {
    type V = Shape;

    open spec fn view(&self) -> Shape {
        self.shape()
    }
}

pub broadcast proof fn shapes_are_each(parts: Seq<Node>)
    ensures
        (#[trigger] shapes(parts)).len() == parts.len(),
        forall|i: int| 0 <= i < parts.len() ==> shapes(parts)[i] == #[trigger] parts[i].shape(),
    decreases parts.len(),
{
    if parts.len() > 0 {
        shapes_are_each(parts.drop_last());
        assert forall|i: int| 0 <= i < parts.len() implies shapes(parts)[i]
            == #[trigger] parts[i].shape() by {
            if i < parts.len() - 1 {
                assert(parts.drop_last()[i].shape() == shapes(parts.drop_last())[i]);
            }
        }
    }
}

proof fn shapes_append(a: Seq<Node>, b: Seq<Node>)
    ensures
        shapes(a + b) == shapes(a) + shapes(b),
    decreases b.len(),
{
    if b.len() == 0 {
        assert(a + b =~= a);
        assert(shapes(a) + shapes(b) =~= shapes(a));
    } else {
        shapes_append(a, b.drop_last());
        assert((a + b).drop_last() =~= a + b.drop_last());
        assert(shapes(a + b) =~= shapes(a) + shapes(b));
    }
}

// ---------------------------------------------------------------------
// Pushing the NOTs down
// ---------------------------------------------------------------------
/// A tree with its NOTs pushed down, its terms counted from `first`.
///
/// Not (a and b) is (not a) or (not b), and the other way about. Flattened as
/// it is built: taking a NOT off `a OR NOT (b c)` leaves a choice inside a
/// choice, and those are one choice of three.
pub open spec fn pushed(tree: Tree, flip: bool, first: nat) -> Shape
    decreases tree,
{
    match tree {
        Tree::Clause(point) => Shape::Lit(
            Fact { negated: point.negated != flip, term: point.term, at: first },
        ),
        Tree::Not(inner) => pushed(*inner, !flip, first),
        Tree::All(parts) => if flip {
            Shape::Any(pushed_each(parts, flip, first, false))
        } else {
            Shape::All(pushed_each(parts, flip, first, true))
        },
        Tree::Any(parts) => if flip {
            Shape::All(pushed_each(parts, flip, first, true))
        } else {
            Shape::Any(pushed_each(parts, flip, first, false))
        },
    }
}

pub open spec fn pushed_each(parts: Seq<Tree>, flip: bool, first: nat, all: bool) -> Seq<Shape>
    decreases parts,
{
    if parts.len() == 0 {
        Seq::empty()
    } else {
        let front = parts.drop_last();
        pushed_each(front, flip, first, all) + spread(
            pushed(parts.last(), flip, first + clauses_in(front)),
            all,
        )
    }
}

/// The parts of a group of the same kind, or the shape alone.
pub open spec fn spread(shape: Shape, all: bool) -> Seq<Shape> {
    match shape {
        Shape::All(inner) if all => inner,
        Shape::Any(inner) if !all => inner,
        other => seq![other],
    }
}

/// The query with its NOTs pushed down to its terms.
pub fn without_nots<'a>(expr: &'a Expr, flip: bool) -> (node: Node<'a>)
    requires
        clauses(expr@) <= usize::MAX,
    ensures
        node@ == pushed(expr@, flip, 0),
{
    pushed_down(expr, flip, 0).0
}

fn pushed_down<'a>(expr: &'a Expr, flip: bool, first: usize) -> (r: (Node<'a>, usize))
    requires
        first + clauses(expr@) <= usize::MAX,
    ensures
        r.0@ == pushed(expr@, flip, first as nat),
        r.1 == first + clauses(expr@),
    decreases expr,
{
    match expr {
        Expr::Clause(clause) => (
            Node::Lit(Lit { negated: clause.negated != flip, term: &clause.term, at: first }),
            first + 1,
        ),
        Expr::Not(inner) => pushed_down(inner, !flip, first),
        Expr::All(parts) => {
            let (flat, next) = pushed_down_each(parts, flip, first, !flip);
            if flip {
                (Node::Any(flat), next)
            } else {
                (Node::All(flat), next)
            }
        },
        Expr::Any(parts) => {
            let (flat, next) = pushed_down_each(parts, flip, first, flip);
            if flip {
                (Node::All(flat), next)
            } else {
                (Node::Any(flat), next)
            }
        },
    }
}

proof fn clauses_in_front(parts: Seq<Tree>, n: int)
    requires
        0 <= n <= parts.len(),
    ensures
        clauses_in(parts.take(n)) <= clauses_in(parts),
    decreases parts.len() - n,
{
    if n < parts.len() {
        clauses_in_front(parts, n + 1);
        assert(parts.take(n + 1).drop_last() =~= parts.take(n));
    } else {
        assert(parts.take(n) =~= parts);
    }
}

fn pushed_down_each<'a>(parts: &'a Vec<Expr>, flip: bool, first: usize, all: bool) -> (r: (
    Vec<Node<'a>>,
    usize,
))
    requires
        first + clauses_in(trees(parts@)) <= usize::MAX,
    ensures
        shapes(r.0@) == pushed_each(trees(parts@), flip, first as nat, all),
        r.1 == first + clauses_in(trees(parts@)),
    decreases parts,
{
    let mut flat: Vec<Node<'a>> = Vec::new();
    let mut next: usize = first;
    let mut i: usize = 0;
    let ghost every = trees(parts@);
    proof {
        trees_are_each(parts@);
        assert(every.take(0) =~= Seq::<Tree>::empty());
    }
    while i < parts.len()
        invariant
            i <= parts@.len(),
            every == trees(parts@),
            every.len() == parts@.len(),
            first + clauses_in(every) <= usize::MAX,
            shapes(flat@) == pushed_each(every.take(i as int), flip, first as nat, all),
            next == first + clauses_in(every.take(i as int)),
        decreases parts@.len() - i,
    {
        proof {
            trees_are_each(parts@);
            assert(every.take(i + 1).drop_last() =~= every.take(i as int));
            assert(every.take(i + 1).last() == parts@[i as int]@);
            clauses_in_front(every, i + 1);
        }
        let ghost before = flat@;
        let (part, after) = pushed_down(&parts[i], flip, next);
        next = after;
        match part {
            Node::All(inner) => {
                if all {
                    let mut inner = inner;
                    proof {
                        shapes_append(before, inner@);
                    }
                    flat.append(&mut inner);
                } else {
                    flat.push(Node::All(inner));
                    assert(flat@.drop_last() =~= before);
                    assert(shapes(flat@) =~= shapes(before) + seq![part@]);
                }
            },
            Node::Any(inner) => {
                if !all {
                    let mut inner = inner;
                    proof {
                        shapes_append(before, inner@);
                    }
                    flat.append(&mut inner);
                } else {
                    flat.push(Node::Any(inner));
                    assert(flat@.drop_last() =~= before);
                    assert(shapes(flat@) =~= shapes(before) + seq![part@]);
                }
            },
            Node::Lit(lit) => {
                flat.push(Node::Lit(lit));
                assert(flat@.drop_last() =~= before);
                assert(shapes(flat@) =~= shapes(before) + seq![part@]);
            },
        }
        i += 1;
    }
    assert(every.take(i as int) =~= every);
    (flat, next)
}

// ---------------------------------------------------------------------
// Words
// ---------------------------------------------------------------------
/// Words to find, as a tree a full-text index can be asked in one expression.
pub enum Words<'a> {
    Leaf(Column, &'a Text, usize),
    All(Vec<Words<'a>>),
    Any(Vec<Words<'a>>),
}

#[verifier::ext_equal]
pub enum Wording {
    Leaf(Column, Phrase, nat),
    All(Seq<Wording>),
    Any(Seq<Wording>),
}

impl<'a> Words<'a> {
    pub open spec fn wording(self) -> Wording
        decreases self,
    {
        match self {
            Words::Leaf(column, text, at) => Wording::Leaf(column, text@, at as nat),
            Words::All(parts) => Wording::All(wordings(parts@)),
            Words::Any(parts) => Wording::Any(wordings(parts@)),
        }
    }
}

pub open spec fn wordings(parts: Seq<Words>) -> Seq<Wording>
    decreases parts,
{
    if parts.len() == 0 {
        Seq::empty()
    } else {
        wordings(parts.drop_last()).push(parts.last().wording())
    }
}

impl<'a> View for Words<'a> {
    type V = Wording;

    open spec fn view(&self) -> Wording {
        self.wording()
    }
}

pub proof fn wordings_are_each(parts: Seq<Words>)
    ensures
        wordings(parts).len() == parts.len(),
        forall|i: int| 0 <= i < parts.len() ==> wordings(parts)[i] == #[trigger] parts[i].wording(),
    decreases parts.len(),
{
    if parts.len() > 0 {
        wordings_are_each(parts.drop_last());
        assert forall|i: int| 0 <= i < parts.len() implies wordings(parts)[i]
            == #[trigger] parts[i].wording() by {
            if i < parts.len() - 1 {
                assert(parts.drop_last()[i].wording() == wordings(parts.drop_last())[i]);
            }
        }
    }
}

/// The words a term looks for, and where it looks.
pub open spec fn words_asked(term: Ask) -> Option<(Column, Phrase)> {
    match term {
        Ask::Text(text) => Some((Column::Anywhere, text)),
        Ask::Subject(text) => Some((Column::Subject, text)),
        _ => None,
    }
}

pub open spec fn is_indexable(phrase: Phrase) -> bool {
    any_alnum(phrase.value)
}

/// The words a term looks for, and the column it looks in.
pub fn text_of<'a>(term: &'a Term) -> (r: Option<(Column, &'a Text)>)
    ensures
        match r {
            Some((column, text)) => words_asked(term@) == Some((column, text@)),
            None => words_asked(term@) is None,
        },
{
    match term {
        Term::Text(text) => Some((Column::Anywhere, text)),
        Term::Subject(text) => Some((Column::Subject, text)),
        _ => None,
    }
}

/// A word with no letter or digit in it is nothing the tokenizer keeps.
pub fn indexable(text: &Text) -> (r: bool)
    ensures
        r == is_indexable(text@),
{
    chars_have_alnum(&chars_of(&text.value))
}

impl Wording {
    /// Whether these words are asked of the per-character CJK index. A
    /// message with a CJK word in it is in that index with all of its words,
    /// so words that all have to be there can be asked of it together.
    ///
    /// A word the index does not keep has no say in it: `・` is punctuation
    /// that happens to live among the Japanese characters.
    pub open spec fn asks_cjk(self) -> bool
        decreases self,
    {
        match self {
            Wording::Leaf(_, text, _) => is_indexable(text) && any_cjk(text.value),
            Wording::All(parts) => any_asks_cjk(parts),
            Wording::Any(parts) => any_asks_cjk(parts),
        }
    }

    /// Whether any of it is a word the index keeps.
    pub open spec fn asks_any(self) -> bool
        decreases self,
    {
        match self {
            Wording::Leaf(_, text, _) => is_indexable(text),
            Wording::All(parts) => any_asks_any(parts),
            Wording::Any(parts) => any_asks_any(parts),
        }
    }

    /// Every word in it, left to right.
    pub open spec fn leaves(self) -> Seq<Phrase>
        decreases self,
    {
        match self {
            Wording::Leaf(_, text, _) => seq![text],
            Wording::All(parts) => leaves_in(parts),
            Wording::Any(parts) => leaves_in(parts),
        }
    }

    /// Whether every word in it that the index keeps is of one script, CJK or
    /// not, and so can be asked of one index.
    pub open spec fn is_one_script(self) -> bool {
        forall|i: int, j: int|
            0 <= i < self.leaves().len() && 0 <= j < self.leaves().len() && is_indexable(
                #[trigger] self.leaves()[i],
            ) && is_indexable(#[trigger] self.leaves()[j]) ==> any_cjk(self.leaves()[i].value)
                == any_cjk(self.leaves()[j].value)
    }
}

pub open spec fn any_asks_cjk(parts: Seq<Wording>) -> bool
    decreases parts,
{
    parts.len() > 0 && (any_asks_cjk(parts.drop_last()) || parts.last().asks_cjk())
}

pub open spec fn any_asks_any(parts: Seq<Wording>) -> bool
    decreases parts,
{
    parts.len() > 0 && (any_asks_any(parts.drop_last()) || parts.last().asks_any())
}

pub open spec fn leaves_in(parts: Seq<Wording>) -> Seq<Phrase>
    decreases parts,
{
    if parts.len() == 0 {
        Seq::empty()
    } else {
        leaves_in(parts.drop_last()) + parts.last().leaves()
    }
}

pub open spec fn phrases(leaves: Seq<&Text>) -> Seq<Phrase> {
    leaves.map_values(|text: &Text| text@)
}

impl<'a> Words<'a> {
    /// Whether these words are asked of the per-character CJK index.
    pub fn cjk(&self) -> (r: bool)
        ensures
            r == self@.asks_cjk(),
        decreases self,
    {
        match self {
            Words::Leaf(_, text, _) => indexable(text) && has_cjk(&text.value),
            Words::All(parts) => any_cjk_words(parts),
            Words::Any(parts) => any_cjk_words(parts),
        }
    }

    /// Every word in it, left to right.
    pub fn leaves(&self, out: &mut Vec<&'a Text>)
        ensures
            phrases(final(out)@) == phrases(old(out)@) + self@.leaves(),
        decreases self,
    {
        match self {
            Words::Leaf(_, text, _) => {
                out.push(*text);
                assert(phrases(out@) =~= phrases(old(out)@) + seq![text@]);
            },
            Words::All(parts) => words_leaves(parts, out),
            Words::Any(parts) => words_leaves(parts, out),
        }
    }

    /// Whether every word in it is of one script, CJK or not, and so can be
    /// asked of one index. Words the index does not keep are not words.
    pub fn one_script(&self) -> (r: bool)
        ensures
            r == self@.is_one_script(),
    {
        let mut leaves: Vec<&'a Text> = Vec::new();
        self.leaves(&mut leaves);
        let ghost all = self@.leaves();
        assert(phrases(leaves@) =~= all);
        let mut first: Option<bool> = None;
        let ghost mut at: int = 0;
        let mut i: usize = 0;
        while i < leaves.len()
            invariant
                i <= leaves@.len(),
                phrases(leaves@) == all,
                all == self@.leaves(),
                match first {
                    Some(script) => {
                        &&& 0 <= at < i
                        &&& is_indexable(all[at])
                        &&& script == any_cjk(all[at].value)
                        &&& forall|j: int|
                            0 <= j < i && is_indexable(#[trigger] all[j]) ==> any_cjk(all[j].value)
                                == script
                    },
                    None => forall|j: int| 0 <= j < i ==> !is_indexable(#[trigger] all[j]),
                },
            decreases leaves@.len() - i,
        {
            let text = leaves[i];
            assert(all[i as int] == text@);
            if indexable(text) {
                let script = has_cjk(&text.value);
                match first {
                    Some(known) => {
                        if known != script {
                            assert(any_cjk(all[at].value) != any_cjk(all[i as int].value));
                            return false;
                        }
                    },
                    None => {
                        first = Some(script);
                        proof {
                            at = i as int;
                        }
                    },
                }
            }
            i += 1;
        }
        true
    }

    /// Whether any of it is a word the index keeps.
    pub fn indexable(&self) -> (r: bool)
        ensures
            r == self@.asks_any(),
        decreases self,
    {
        match self {
            Words::Leaf(_, text, _) => indexable(text),
            Words::All(parts) => any_indexable_words(parts),
            Words::Any(parts) => any_indexable_words(parts),
        }
    }
}

fn any_cjk_words(parts: &Vec<Words>) -> (r: bool)
    ensures
        r == any_asks_cjk(wordings(parts@)),
    decreases parts,
{
    proof {
        wordings_are_each(parts@);
    }
    let ghost every = wordings(parts@);
    let mut found = false;
    let mut i: usize = 0;
    assert(every.take(0) =~= Seq::<Wording>::empty());
    while i < parts.len()
        invariant
            i <= parts@.len(),
            every == wordings(parts@),
            every.len() == parts@.len(),
            found == any_asks_cjk(every.take(i as int)),
        decreases parts@.len() - i,
    {
        proof {
            wordings_are_each(parts@);
            assert(every.take(i + 1).drop_last() =~= every.take(i as int));
        }
        if parts[i].cjk() {
            found = true;
        }
        i += 1;
    }
    assert(every.take(i as int) =~= every);
    found
}

fn any_indexable_words(parts: &Vec<Words>) -> (r: bool)
    ensures
        r == any_asks_any(wordings(parts@)),
    decreases parts,
{
    proof {
        wordings_are_each(parts@);
    }
    let ghost every = wordings(parts@);
    let mut found = false;
    let mut i: usize = 0;
    assert(every.take(0) =~= Seq::<Wording>::empty());
    while i < parts.len()
        invariant
            i <= parts@.len(),
            every == wordings(parts@),
            every.len() == parts@.len(),
            found == any_asks_any(every.take(i as int)),
        decreases parts@.len() - i,
    {
        proof {
            wordings_are_each(parts@);
            assert(every.take(i + 1).drop_last() =~= every.take(i as int));
        }
        if parts[i].indexable() {
            found = true;
        }
        i += 1;
    }
    assert(every.take(i as int) =~= every);
    found
}

fn words_leaves<'a>(parts: &Vec<Words<'a>>, out: &mut Vec<&'a Text>)
    ensures
        phrases(final(out)@) == phrases(old(out)@) + leaves_in(wordings(parts@)),
    decreases parts,
{
    proof {
        wordings_are_each(parts@);
    }
    let ghost every = wordings(parts@);
    let ghost before = phrases(out@);
    let mut i: usize = 0;
    assert(every.take(0) =~= Seq::<Wording>::empty());
    assert(before + leaves_in(every.take(0)) =~= before);
    while i < parts.len()
        invariant
            i <= parts@.len(),
            every == wordings(parts@),
            every.len() == parts@.len(),
            phrases(out@) == before + leaves_in(every.take(i as int)),
        decreases parts@.len() - i,
    {
        proof {
            wordings_are_each(parts@);
            assert(every.take(i + 1).drop_last() =~= every.take(i as int));
        }
        parts[i].leaves(out);
        assert(phrases(out@) =~= before + leaves_in(every.take(i + 1)));
        i += 1;
    }
    assert(every.take(i as int) =~= every);
}

// ---------------------------------------------------------------------
// A node as words alone
// ---------------------------------------------------------------------
/// Whether a node is words to find and nothing else.
pub open spec fn is_wordy(shape: Shape) -> bool
    decreases shape,
{
    match shape {
        Shape::Lit(fact) => !fact.negated && words_asked(fact.term) is Some,
        Shape::All(parts) => all_wordy(parts),
        Shape::Any(parts) => all_wordy(parts),
    }
}

pub open spec fn all_wordy(parts: Seq<Shape>) -> bool
    decreases parts,
{
    parts.len() == 0 || (all_wordy(parts.drop_last()) && is_wordy(parts.last()))
}

/// The words a node is.
pub open spec fn worded(shape: Shape) -> Wording
    decreases shape,
{
    match shape {
        Shape::Lit(fact) => {
            let (column, text) = words_asked(fact.term)->0;
            Wording::Leaf(column, text, fact.at)
        },
        Shape::All(parts) => Wording::All(worded_each(parts)),
        Shape::Any(parts) => Wording::Any(worded_each(parts)),
    }
}

pub open spec fn worded_each(parts: Seq<Shape>) -> Seq<Wording>
    decreases parts,
{
    if parts.len() == 0 {
        Seq::empty()
    } else {
        worded_each(parts.drop_last()).push(worded(parts.last()))
    }
}

pub open spec fn wording_of(words: Option<Words>) -> Option<Wording> {
    match words {
        Some(w) => Some(w@),
        None => None,
    }
}

pub open spec fn words_alone(shape: Shape) -> Option<Wording> {
    if is_wordy(shape) {
        Some(worded(shape))
    } else {
        None
    }
}

/// The node as words alone, if that is all it is, and all of one script.
///
/// Words have to share an index to share an expression. `東京 OR tokyo` asked
/// of the CJK index would miss every message that says "tokyo" and has no CJK
/// in it, because those are not in that index at all. Words of two scripts
/// are two questions, and `bind` asks each of its own index.
pub open spec fn words_of_one_script(shape: Shape) -> Option<Wording> {
    match words_alone(shape) {
        Some(words) if words.is_one_script() => Some(words),
        _ => None,
    }
}

/// The node as words alone, if that is all it is, and all of one script.
pub fn as_words<'a>(node: &Node<'a>) -> (r: Option<Words<'a>>)
    ensures
        wording_of(r) == words_of_one_script(node@),
{
    match as_words_of_any_script(node) {
        Some(words) => if words.one_script() {
            Some(words)
        } else {
            None
        },
        None => None,
    }
}

pub fn as_words_of_any_script<'a>(node: &Node<'a>) -> (r: Option<Words<'a>>)
    ensures
        wording_of(r) == words_alone(node@),
    decreases node,
{
    match node {
        Node::Lit(lit) => if lit.negated {
            None
        } else {
            match text_of(lit.term) {
                Some((column, text)) => Some(Words::Leaf(column, text, lit.at)),
                None => None,
            }
        },
        Node::All(parts) => match each_as_words(parts) {
            Some(words) => Some(Words::All(words)),
            None => None,
        },
        Node::Any(parts) => match each_as_words(parts) {
            Some(words) => Some(Words::Any(words)),
            None => None,
        },
    }
}

proof fn not_all_wordy(parts: Seq<Shape>, n: int)
    requires
        0 <= n <= parts.len(),
        !all_wordy(parts.take(n)),
    ensures
        !all_wordy(parts),
    decreases parts.len() - n,
{
    if n < parts.len() {
        assert(parts.take(n + 1).drop_last() =~= parts.take(n));
        not_all_wordy(parts, n + 1);
    } else {
        assert(parts.take(n) =~= parts);
    }
}

fn each_as_words<'a>(parts: &Vec<Node<'a>>) -> (r: Option<Vec<Words<'a>>>)
    ensures
        match r {
            Some(words) => all_wordy(shapes(parts@)) && wordings(words@) == worded_each(
                shapes(parts@),
            ),
            None => !all_wordy(shapes(parts@)),
        },
    decreases parts,
{
    proof {
        shapes_are_each(parts@);
    }
    let ghost every = shapes(parts@);
    let mut out: Vec<Words<'a>> = Vec::new();
    let mut i: usize = 0;
    assert(every.take(0) =~= Seq::<Shape>::empty());
    while i < parts.len()
        invariant
            i <= parts@.len(),
            every == shapes(parts@),
            every.len() == parts@.len(),
            all_wordy(every.take(i as int)),
            wordings(out@) == worded_each(every.take(i as int)),
        decreases parts@.len() - i,
    {
        proof {
            shapes_are_each(parts@);
            assert(every.take(i + 1).drop_last() =~= every.take(i as int));
        }
        match as_words_of_any_script(&parts[i]) {
            Some(words) => {
                let ghost before = out@;
                out.push(words);
                assert(out@.drop_last() =~= before);
            },
            None => {
                proof {
                    not_all_wordy(every, i + 1);
                }
                return None;
            },
        }
        i += 1;
    }
    assert(every.take(i as int) =~= every);
    Some(out)
}

// ---------------------------------------------------------------------
// A node as conditions
// ---------------------------------------------------------------------
/// Conditions, as a tree SQL can be asked in one predicate.
pub enum Cond<'a> {
    Lit(Lit<'a>),
    /// Words that must be there, looked up on their own. Only a query too
    /// wide to ask a statement at a time is written this way.
    With(Column, &'a Text, usize),
    /// Words that must not be there, looked up on their own and taken away.
    Without(Column, &'a Text),
    All(Vec<Cond<'a>>),
    Any(Vec<Cond<'a>>),
}

#[verifier::ext_equal]
pub enum Demand {
    Lit(Fact),
    With(Column, Phrase, nat),
    Without(Column, Phrase),
    All(Seq<Demand>),
    Any(Seq<Demand>),
}

impl<'a> Cond<'a> {
    pub open spec fn demand(self) -> Demand
        decreases self,
    {
        match self {
            Cond::Lit(lit) => Demand::Lit(lit@),
            Cond::With(column, text, at) => Demand::With(column, text@, at as nat),
            Cond::Without(column, text) => Demand::Without(column, text@),
            Cond::All(parts) => Demand::All(demands(parts@)),
            Cond::Any(parts) => Demand::Any(demands(parts@)),
        }
    }
}

pub open spec fn demands(parts: Seq<Cond>) -> Seq<Demand>
    decreases parts,
{
    if parts.len() == 0 {
        Seq::empty()
    } else {
        demands(parts.drop_last()).push(parts.last().demand())
    }
}

impl<'a> View for Cond<'a> {
    type V = Demand;

    open spec fn view(&self) -> Demand {
        self.demand()
    }
}

pub proof fn demands_are_each(parts: Seq<Cond>)
    ensures
        demands(parts).len() == parts.len(),
        forall|i: int| 0 <= i < parts.len() ==> demands(parts)[i] == #[trigger] parts[i].demand(),
    decreases parts.len(),
{
    if parts.len() > 0 {
        demands_are_each(parts.drop_last());
        assert forall|i: int| 0 <= i < parts.len() implies demands(parts)[i]
            == #[trigger] parts[i].demand() by {
            if i < parts.len() - 1 {
                assert(parts.drop_last()[i].demand() == demands(parts.drop_last())[i]);
            }
        }
    }
}

/// Whether a node is conditions and nothing else. Words that must not be
/// there count: they are a lookup and a subtraction, which SQL can do
/// anywhere. Words that must be there do not, because they are what ranks.
pub open spec fn is_conditions(shape: Shape) -> bool
    decreases shape,
{
    match shape {
        Shape::Lit(fact) => fact.negated || words_asked(fact.term) is None,
        Shape::All(parts) => all_conditions(parts),
        Shape::Any(parts) => all_conditions(parts),
    }
}

pub open spec fn all_conditions(parts: Seq<Shape>) -> bool
    decreases parts,
{
    parts.len() == 0 || (all_conditions(parts.drop_last()) && is_conditions(parts.last()))
}

/// A node as conditions, the words in it as lookups of their own.
pub open spec fn looked_up(shape: Shape) -> Demand
    decreases shape,
{
    match shape {
        Shape::Lit(fact) => match words_asked(fact.term) {
            None => Demand::Lit(fact),
            Some((column, text)) => if fact.negated {
                Demand::Without(column, text)
            } else {
                Demand::With(column, text, fact.at)
            },
        },
        Shape::All(parts) => Demand::All(looked_up_each(parts)),
        Shape::Any(parts) => Demand::Any(looked_up_each(parts)),
    }
}

pub open spec fn looked_up_each(parts: Seq<Shape>) -> Seq<Demand>
    decreases parts,
{
    if parts.len() == 0 {
        Seq::empty()
    } else {
        looked_up_each(parts.drop_last()).push(looked_up(parts.last()))
    }
}

pub open spec fn demand_of(cond: Option<Cond>) -> Option<Demand> {
    match cond {
        Some(c) => Some(c@),
        None => None,
    }
}

pub open spec fn conditions_alone(shape: Shape) -> Option<Demand> {
    if is_conditions(shape) {
        Some(looked_up(shape))
    } else {
        None
    }
}

/// The node as conditions alone, if that is all it is.
pub fn as_cond<'a>(node: &Node<'a>) -> (r: Option<Cond<'a>>)
    ensures
        demand_of(r) == conditions_alone(node@),
    decreases node,
{
    match node {
        Node::Lit(lit) => match text_of(lit.term) {
            None => Some(Cond::Lit(*lit)),
            Some((column, text)) => if lit.negated {
                Some(Cond::Without(column, text))
            } else {
                None
            },
        },
        Node::All(parts) => match each_as_cond(parts) {
            Some(conds) => Some(Cond::All(conds)),
            None => None,
        },
        Node::Any(parts) => match each_as_cond(parts) {
            Some(conds) => Some(Cond::Any(conds)),
            None => None,
        },
    }
}

proof fn not_all_conditions(parts: Seq<Shape>, n: int)
    requires
        0 <= n <= parts.len(),
        !all_conditions(parts.take(n)),
    ensures
        !all_conditions(parts),
    decreases parts.len() - n,
{
    if n < parts.len() {
        assert(parts.take(n + 1).drop_last() =~= parts.take(n));
        not_all_conditions(parts, n + 1);
    } else {
        assert(parts.take(n) =~= parts);
    }
}

fn each_as_cond<'a>(parts: &Vec<Node<'a>>) -> (r: Option<Vec<Cond<'a>>>)
    ensures
        match r {
            Some(conds) => all_conditions(shapes(parts@)) && demands(conds@) == looked_up_each(
                shapes(parts@),
            ),
            None => !all_conditions(shapes(parts@)),
        },
    decreases parts,
{
    proof {
        shapes_are_each(parts@);
    }
    let ghost every = shapes(parts@);
    let mut out: Vec<Cond<'a>> = Vec::new();
    let mut i: usize = 0;
    assert(every.take(0) =~= Seq::<Shape>::empty());
    while i < parts.len()
        invariant
            i <= parts@.len(),
            every == shapes(parts@),
            every.len() == parts@.len(),
            all_conditions(every.take(i as int)),
            demands(out@) == looked_up_each(every.take(i as int)),
        decreases parts@.len() - i,
    {
        proof {
            shapes_are_each(parts@);
            assert(every.take(i + 1).drop_last() =~= every.take(i as int));
        }
        match as_cond(&parts[i]) {
            Some(cond) => {
                let ghost before = out@;
                out.push(cond);
                assert(out@.drop_last() =~= before);
            },
            None => {
                proof {
                    not_all_conditions(every, i + 1);
                }
                return None;
            },
        }
        i += 1;
    }
    assert(every.take(i as int) =~= every);
    Some(out)
}

/// The whole node as conditions, the words in it as lookups of their own.
///
/// Always possible, and always right: every leaf is a set of messages and
/// SQL does the algebra. It is not how a query is normally asked, because a
/// lookup cannot rank and has no snippet to show. It is how one is asked when
/// multiplying it out would pass the limit.
pub fn as_lookups<'a>(node: &Node<'a>) -> (cond: Cond<'a>)
    ensures
        cond@ == looked_up(node@),
    decreases node,
{
    match node {
        Node::Lit(lit) => match text_of(lit.term) {
            None => Cond::Lit(*lit),
            Some((column, text)) => if lit.negated {
                Cond::Without(column, text)
            } else {
                Cond::With(column, text, lit.at)
            },
        },
        Node::All(parts) => Cond::All(each_as_lookups(parts)),
        Node::Any(parts) => Cond::Any(each_as_lookups(parts)),
    }
}

fn each_as_lookups<'a>(parts: &Vec<Node<'a>>) -> (out: Vec<Cond<'a>>)
    ensures
        demands(out@) == looked_up_each(shapes(parts@)),
    decreases parts,
{
    proof {
        shapes_are_each(parts@);
    }
    let ghost every = shapes(parts@);
    let mut out: Vec<Cond<'a>> = Vec::new();
    let mut i: usize = 0;
    assert(every.take(0) =~= Seq::<Shape>::empty());
    while i < parts.len()
        invariant
            i <= parts@.len(),
            every == shapes(parts@),
            every.len() == parts@.len(),
            demands(out@) == looked_up_each(every.take(i as int)),
        decreases parts@.len() - i,
    {
        proof {
            shapes_are_each(parts@);
            assert(every.take(i + 1).drop_last() =~= every.take(i as int));
        }
        let ghost before = out@;
        out.push(as_lookups(&parts[i]));
        assert(out@.drop_last() =~= before);
        i += 1;
    }
    assert(every.take(i as int) =~= every);
    out
}

// ---------------------------------------------------------------------
// Taking out what asks nothing
// ---------------------------------------------------------------------
pub open spec fn grouped(parts: Seq<Demand>, all: bool) -> Option<Demand> {
    if parts.len() == 0 {
        None
    } else if parts.len() == 1 {
        Some(parts[0])
    } else if all {
        Some(Demand::All(parts))
    } else {
        Some(Demand::Any(parts))
    }
}

/// A condition with the parts that ask nothing taken out, or `None` when that
/// was all of it.
///
/// Punctuation is not in the index, so a word made of it asks nothing, wanted
/// or not. Among things that all have to hold it is simply skipped. As one
/// side of a choice it is no side at all.
pub open spec fn without_idle(demand: Demand) -> Option<Demand>
    decreases demand,
{
    match demand {
        Demand::With(_, text, _) if !is_indexable(text) => None,
        Demand::Without(_, text) if !is_indexable(text) => None,
        Demand::All(parts) => grouped(idle_left_out(parts), true),
        Demand::Any(parts) => grouped(idle_left_out(parts), false),
        other => Some(other),
    }
}

pub open spec fn idle_left_out(parts: Seq<Demand>) -> Seq<Demand>
    decreases parts,
{
    if parts.len() == 0 {
        Seq::empty()
    } else {
        match without_idle(parts.last()) {
            Some(part) => idle_left_out(parts.drop_last()).push(part),
            None => idle_left_out(parts.drop_last()),
        }
    }
}

/// A condition with the parts that ask nothing taken out, or `None` when
/// that was all of it.
pub fn pruned<'a>(cond: Cond<'a>) -> (r: Option<Cond<'a>>)
    ensures
        demand_of(r) == without_idle(cond@),
    decreases cond,
{
    match cond {
        Cond::With(column, text, at) => if indexable(text) {
            Some(Cond::With(column, text, at))
        } else {
            None
        },
        Cond::Without(column, text) => if indexable(text) {
            Some(Cond::Without(column, text))
        } else {
            None
        },
        Cond::All(parts) => {
            let mut kept = pruned_each(parts);
            proof {
                demands_are_each(kept@);
            }
            if kept.len() == 0 {
                None
            } else if kept.len() == 1 {
                kept.pop()
            } else {
                Some(Cond::All(kept))
            }
        },
        Cond::Any(parts) => {
            let mut kept = pruned_each(parts);
            proof {
                demands_are_each(kept@);
            }
            if kept.len() == 0 {
                None
            } else if kept.len() == 1 {
                kept.pop()
            } else {
                Some(Cond::Any(kept))
            }
        },
        Cond::Lit(lit) => Some(Cond::Lit(lit)),
    }
}

fn pruned_each<'a>(parts: Vec<Cond<'a>>) -> (out: Vec<Cond<'a>>)
    ensures
        demands(out@) == idle_left_out(demands(parts@)),
    decreases parts,
{
    let mut out: Vec<Cond<'a>> = Vec::new();
    let ghost all = parts@;
    for part in it: parts
        invariant
            it.seq() == all,
            all == parts@,
            demands(out@) == idle_left_out(demands(all.take(it.index() as int))),
    {
        let ghost i = it.index() as int;
        let ghost before = out@;
        assert(all.take(i + 1).drop_last() =~= all.take(i));
        assert(demands(all.take(i + 1)).drop_last() =~= demands(all.take(i)));
        assert(decreases_to!(parts => part));
        if let Some(kept) = pruned(part) {
            out.push(kept);
            assert(out@.drop_last() =~= before);
        }
    }
    assert(all.take(all.len() as int) =~= all);
    out
}

// ---------------------------------------------------------------------
// The word still being typed
// ---------------------------------------------------------------------
/// The last word asked for that the index keeps, and which of the query's
/// terms it is.
pub open spec fn last_word(shape: Shape) -> Option<(Phrase, nat)>
    decreases shape,
{
    match shape {
        Shape::Lit(fact) => match words_asked(fact.term) {
            Some((_, text)) if !fact.negated && is_indexable(text) => Some((text, fact.at)),
            _ => None,
        },
        Shape::All(parts) => last_word_in(parts),
        Shape::Any(parts) => last_word_in(parts),
    }
}

pub open spec fn last_word_in(parts: Seq<Shape>) -> Option<(Phrase, nat)>
    decreases parts,
{
    if parts.len() == 0 {
        None
    } else {
        match last_word(parts.last()) {
            Some(word) => Some(word),
            None => last_word_in(parts.drop_last()),
        }
    }
}

/// The word still being typed: the last one asked for that the index keeps,
/// unless it was put in quotes, which is somebody saying it is finished.
///
/// One word for the whole query, not one per statement, and last among the
/// words the index keeps: `lun -` is somebody starting an exclusion, and the
/// dash must not take the prefix off `lun`.
pub open spec fn being_typed(shape: Shape) -> Option<(Phrase, nat)> {
    match last_word(shape) {
        Some((text, at)) if !text.exact => Some((text, at)),
        _ => None,
    }
}

/// A word of the query, and which of its terms it is.
#[derive(Clone, Copy)]
pub struct Typing<'a> {
    pub text: &'a Text,
    pub at: usize,
}

pub open spec fn typing_of(word: Option<Typing>) -> Option<(Phrase, nat)> {
    match word {
        Some(w) => Some((w.text@, w.at as nat)),
        None => None,
    }
}

/// The word still being typed.
pub fn typing_word<'a>(node: &Node<'a>) -> (r: Option<Typing<'a>>)
    ensures
        typing_of(r) == being_typed(node@),
{
    match last_typed(node) {
        Some(word) => if word.text.exact {
            None
        } else {
            Some(word)
        },
        None => None,
    }
}

fn last_typed<'a>(node: &Node<'a>) -> (r: Option<Typing<'a>>)
    ensures
        typing_of(r) == last_word(node@),
    decreases node,
{
    match node {
        Node::Lit(lit) => match text_of(lit.term) {
            Some((_, text)) => if !lit.negated && indexable(text) {
                Some(Typing { text, at: lit.at })
            } else {
                None
            },
            None => None,
        },
        Node::All(parts) => last_typed_in(parts),
        Node::Any(parts) => last_typed_in(parts),
    }
}

fn last_typed_in<'a>(parts: &Vec<Node<'a>>) -> (r: Option<Typing<'a>>)
    ensures
        typing_of(r) == last_word_in(shapes(parts@)),
    decreases parts,
{
    proof {
        shapes_are_each(parts@);
    }
    let ghost every = shapes(parts@);
    let mut i: usize = parts.len();
    assert(every.take(i as int) =~= every);
    while i > 0
        invariant
            i <= parts@.len(),
            every == shapes(parts@),
            every.len() == parts@.len(),
            last_word_in(every) == last_word_in(every.take(i as int)),
        decreases i,
    {
        proof {
            shapes_are_each(parts@);
            assert(every.take(i as int).drop_last() =~= every.take(i - 1));
        }
        i -= 1;
        if let Some(word) = last_typed(&parts[i]) {
            return Some(word);
        }
    }
    None
}

/// The word being typed is the last one that is asked for: a word left out is
/// not it, nor one without a letter or a digit, nor anything but a word. One
/// in quotes is finished, and then none is being typed.
pub proof fn the_last_word_is_being_typed(before: Seq<Shape>, fact: Fact, text: Phrase)
    ensures
        fact.term == Ask::Text(text) && !fact.negated && is_indexable(text) ==> {
            &&& last_word(Shape::All(before.push(Shape::Lit(fact)))) == Some((text, fact.at))
            &&& last_word(Shape::Any(before.push(Shape::Lit(fact)))) == Some((text, fact.at))
            &&& !text.exact ==> being_typed(Shape::All(before.push(Shape::Lit(fact)))) == Some(
                (text, fact.at),
            )
            &&& text.exact ==> being_typed(Shape::All(before.push(Shape::Lit(fact)))) is None
        },
        fact.negated || (!(fact.term is Text) && !(fact.term is Subject)) || (fact.term
            == Ask::Text(text) && !is_indexable(text)) ==> last_word(
            Shape::All(before.push(Shape::Lit(fact))),
        ) == last_word(Shape::All(before)),
{
    let one = Shape::Lit(fact);
    let more = before.push(one);
    assert(more.drop_last() =~= before);
    assert(more.last() == one);
    let all = Shape::All(more);
    let any = Shape::Any(more);
    let less = Shape::All(before);
    assert(last_word(all) == last_word_in(more));
    assert(last_word(any) == last_word_in(more));
    assert(last_word(less) == last_word_in(before));
    assert(last_word_in(more) == match last_word(one) {
        Some(word) => Some(word),
        None => last_word_in(before),
    });
}

} // verus!
