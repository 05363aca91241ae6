//! The statements a query becomes.

use super::plan::{
    as_cond, as_lookups, as_words, conditions_alone, demands, demands_are_each, indexable,
    is_indexable, looked_up, pruned, shapes, shapes_are_each, text_of, without_idle, wordings,
    wordings_are_each, words_asked, words_of_one_script, Column, Cond, Demand, Lit, Node, Shape,
    Wording, Words,
};
use crate::search_query::{Ask, Phrase, State, Term, Text, MAX_ALTERNATIVES};
use crate::store::index_text::{
    cjk_parts, cjk_phrases, last_alnum_run, last_run, phrase_of, quoted_chars,
};
use crate::text::{append_chars, chars_of, join, joined, put, same, texts};
use vstd::prelude::*;

verus! {

/// One statement's worth of a query: words to rank by, words to leave out,
/// and conditions, all of which have to hold.
pub struct Bundle<'a> {
    pub wanted: Vec<Words<'a>>,
    pub unwanted: Vec<(Column, &'a Text)>,
    pub conds: Vec<Cond<'a>>,
}

#[verifier::ext_equal]
pub struct Statement {
    pub wanted: Seq<Wording>,
    pub unwanted: Seq<(Column, Phrase)>,
    pub conds: Seq<Demand>,
}

pub open spec fn refusals(unwanted: Seq<(Column, &Text)>) -> Seq<(Column, Phrase)> {
    unwanted.map_values(|u: (Column, &Text)| (u.0, u.1@))
}

impl<'a> View for Bundle<'a> {
    type V = Statement;

    open spec fn view(&self) -> Statement {
        Statement {
            wanted: wordings(self.wanted@),
            unwanted: refusals(self.unwanted@),
            conds: demands(self.conds@),
        }
    }
}

pub open spec fn bundle_views(bundles: Seq<Bundle>) -> Seq<Statement> {
    bundles.map_values(|b: Bundle| b@)
}

impl Statement {
    pub open spec fn empty() -> Statement {
        Statement { wanted: Seq::empty(), unwanted: Seq::empty(), conds: Seq::empty() }
    }

    pub open spec fn of_words(words: Wording) -> Statement {
        Statement { wanted: seq![words], ..Statement::empty() }
    }

    pub open spec fn of_refusal(unwanted: (Column, Phrase)) -> Statement {
        Statement { unwanted: seq![unwanted], ..Statement::empty() }
    }

    pub open spec fn of_condition(demand: Demand) -> Statement {
        Statement { conds: seq![demand], ..Statement::empty() }
    }

    /// Everything both ask.
    pub open spec fn and(self, other: Statement) -> Statement {
        Statement {
            wanted: self.wanted + other.wanted,
            unwanted: self.unwanted + other.unwanted,
            conds: self.conds + other.conds,
        }
    }
}

/// One statement with each of some others.
pub open spec fn with_each(left: Statement, options: Seq<Statement>) -> Seq<Statement> {
    options.map_values(|right: Statement| left.and(right))
}

/// Each of some statements with each of some others.
pub open spec fn multiplied(left: Seq<Statement>, options: Seq<Statement>) -> Seq<Statement>
    decreases left.len(),
{
    if left.len() == 0 {
        Seq::empty()
    } else {
        multiplied(left.drop_last(), options) + with_each(left.last(), options)
    }
}

/// The sides of a choice, sorted by what they are.
#[verifier::ext_equal]
pub struct Sides {
    pub latin: Seq<Wording>,
    pub cjk: Seq<Wording>,
    pub conds: Seq<Demand>,
    pub rest: Seq<Statement>,
}

impl Sides {
    pub open spec fn none() -> Sides {
        Sides {
            latin: Seq::empty(),
            cjk: Seq::empty(),
            conds: Seq::empty(),
            rest: Seq::empty(),
        }
    }
}

/// Words that any of may be there.
pub open spec fn any_words(words: Seq<Wording>) -> Seq<Statement> {
    if words.len() == 0 {
        Seq::empty()
    } else if words.len() == 1 {
        seq![Statement::of_words(words[0])]
    } else {
        seq![Statement::of_words(Wording::Any(words))]
    }
}

pub open spec fn any_conditions(conds: Seq<Demand>) -> Seq<Statement> {
    if conds.len() == 0 {
        Seq::empty()
    } else if conds.len() == 1 {
        seq![Statement::of_condition(conds[0])]
    } else {
        seq![Statement::of_condition(Demand::Any(conds))]
    }
}

/// The query as statements, any of which may match.
///
/// Like is kept with like. Words joined by `OR` are one expression and
/// conditions joined by `OR` are one SQL predicate, so `(from:sam OR
/// from:dana) (invoice OR receipt)` is a single statement and a single
/// ranking, and costs what `from:sam invoice` costs. Only an `OR` with words
/// on one side and a condition on the other has to be asked once per side (a
/// ranking has nothing to say about a message that matched no words) and
/// those are multiplied out.
///
/// `None` when that would pass the limit.
pub open spec fn statements_of(shape: Shape) -> Option<Seq<Statement>>
    decreases shape,
{
    match words_of_one_script(shape) {
        Some(words) => Some(seq![Statement::of_words(words)]),
        None => match shape {
            Shape::Lit(fact) => Some(
                seq![match words_asked(fact.term) {
                    Some(unwanted) => Statement::of_refusal(unwanted),
                    None => Statement::of_condition(Demand::Lit(fact)),
                }],
            ),
            Shape::All(parts) => all_statements(parts),
            Shape::Any(parts) => match sides_of(parts) {
                Some(sides) => {
                    let out = any_words(sides.latin) + any_words(sides.cjk) + any_conditions(
                        sides.conds,
                    ) + sides.rest;
                    if out.len() > MAX_ALTERNATIVES {
                        None
                    } else {
                        Some(out)
                    }
                },
                None => None,
            },
        },
    }
}

pub open spec fn all_statements(parts: Seq<Shape>) -> Option<Seq<Statement>>
    decreases parts,
{
    if parts.len() == 0 {
        Some(seq![Statement::empty()])
    } else {
        match (all_statements(parts.drop_last()), statements_of(parts.last())) {
            (Some(out), Some(options)) =>
            // A choice with nothing left in it asked nothing, and is skipped
            // the way a word of punctuation is.
            if options.len() == 0 {
                Some(out)
            } else if out.len() * options.len() > MAX_ALTERNATIVES {
                None
            } else {
                Some(multiplied(out, options))
            },
            _ => None,
        }
    }
}

pub open spec fn sides_of(parts: Seq<Shape>) -> Option<Sides>
    decreases parts,
{
    if parts.len() == 0 {
        Some(Sides::none())
    } else {
        match sides_of(parts.drop_last()) {
            None => None,
            Some(sides) => match words_of_one_script(parts.last()) {
                // Words the index does not keep find nothing, so they are no
                // alternative.
                Some(words) => Some(
                    if !words.asks_any() {
                        sides
                    } else if words.asks_cjk() {
                        Sides { cjk: sides.cjk.push(words), ..sides }
                    } else {
                        Sides { latin: sides.latin.push(words), ..sides }
                    },
                ),
                None => match conditions_alone(parts.last()) {
                    Some(demand) => Some(
                        match without_idle(demand) {
                            Some(kept) => Sides { conds: sides.conds.push(kept), ..sides },
                            None => sides,
                        },
                    ),
                    None => match statements_of(parts.last()) {
                        Some(more) => Some(Sides { rest: sides.rest + more, ..sides }),
                        None => None,
                    },
                },
            },
        }
    }
}

// ---------------------------------------------------------------------
// Copies
// ---------------------------------------------------------------------
pub fn copy_words<'a>(words: &Words<'a>) -> (r: Words<'a>)
    ensures
        r@ == words@,
    decreases words,
{
    match words {
        Words::Leaf(column, text, at) => Words::Leaf(*column, *text, *at),
        Words::All(parts) => Words::All(copy_each_words(parts)),
        Words::Any(parts) => Words::Any(copy_each_words(parts)),
    }
}

fn copy_each_words<'a>(parts: &Vec<Words<'a>>) -> (out: Vec<Words<'a>>)
    ensures
        wordings(out@) == wordings(parts@),
    decreases parts,
{
    let mut out: Vec<Words<'a>> = Vec::new();
    let mut i: usize = 0;
    while i < parts.len()
        invariant
            i <= parts@.len(),
            wordings(out@) == wordings(parts@.take(i as int)),
        decreases parts@.len() - i,
    {
        let ghost before = out@;
        out.push(copy_words(&parts[i]));
        assert(out@.drop_last() =~= before);
        assert(parts@.take(i + 1).drop_last() =~= parts@.take(i as int));
        i += 1;
    }
    assert(parts@.take(i as int) =~= parts@);
    out
}

pub fn copy_cond<'a>(cond: &Cond<'a>) -> (r: Cond<'a>)
    ensures
        r@ == cond@,
    decreases cond,
{
    match cond {
        Cond::Lit(lit) => Cond::Lit(*lit),
        Cond::With(column, text, at) => Cond::With(*column, *text, *at),
        Cond::Without(column, text) => Cond::Without(*column, *text),
        Cond::All(parts) => Cond::All(copy_each_cond(parts)),
        Cond::Any(parts) => Cond::Any(copy_each_cond(parts)),
    }
}

fn copy_each_cond<'a>(parts: &Vec<Cond<'a>>) -> (out: Vec<Cond<'a>>)
    ensures
        demands(out@) == demands(parts@),
    decreases parts,
{
    let mut out: Vec<Cond<'a>> = Vec::new();
    let mut i: usize = 0;
    while i < parts.len()
        invariant
            i <= parts@.len(),
            demands(out@) == demands(parts@.take(i as int)),
        decreases parts@.len() - i,
    {
        let ghost before = out@;
        out.push(copy_cond(&parts[i]));
        assert(out@.drop_last() =~= before);
        assert(parts@.take(i + 1).drop_last() =~= parts@.take(i as int));
        i += 1;
    }
    assert(parts@.take(i as int) =~= parts@);
    out
}

proof fn wordings_append(a: Seq<Words>, b: Seq<Words>)
    ensures
        wordings(a + b) == wordings(a) + wordings(b),
    decreases b.len(),
{
    if b.len() == 0 {
        assert(a + b =~= a);
        assert(wordings(a) + wordings(b) =~= wordings(a));
    } else {
        wordings_append(a, b.drop_last());
        assert((a + b).drop_last() =~= a + b.drop_last());
        assert(wordings(a + b) =~= wordings(a) + wordings(b));
    }
}

proof fn demands_append(a: Seq<Cond>, b: Seq<Cond>)
    ensures
        demands(a + b) == demands(a) + demands(b),
    decreases b.len(),
{
    if b.len() == 0 {
        assert(a + b =~= a);
        assert(demands(a) + demands(b) =~= demands(a));
    } else {
        demands_append(a, b.drop_last());
        assert((a + b).drop_last() =~= a + b.drop_last());
        assert(demands(a + b) =~= demands(a) + demands(b));
    }
}

impl<'a> Bundle<'a> {
    pub fn new() -> (b: Bundle<'a>)
        ensures
            b@ == Statement::empty(),
    {
        let b = Bundle { wanted: Vec::new(), unwanted: Vec::new(), conds: Vec::new() };
        assert(b@ =~= Statement::empty());
        b
    }

    fn of_words(words: Words<'a>) -> (b: Bundle<'a>)
        ensures
            b@ == Statement::of_words(words@),
    {
        let mut wanted: Vec<Words<'a>> = Vec::new();
        wanted.push(words);
        proof {
            wordings_are_each(wanted@);
        }
        let b = Bundle { wanted, unwanted: Vec::new(), conds: Vec::new() };
        assert(b@ =~= Statement::of_words(words@));
        b
    }

    fn of_refusal(column: Column, text: &'a Text) -> (b: Bundle<'a>)
        ensures
            b@ == Statement::of_refusal((column, text@)),
    {
        let mut unwanted: Vec<(Column, &'a Text)> = Vec::new();
        unwanted.push((column, text));
        let b = Bundle { wanted: Vec::new(), unwanted, conds: Vec::new() };
        assert(b@ =~= Statement::of_refusal((column, text@)));
        b
    }

    pub fn of_condition(cond: Cond<'a>) -> (b: Bundle<'a>)
        ensures
            b@ == Statement::of_condition(cond@),
    {
        let mut conds: Vec<Cond<'a>> = Vec::new();
        conds.push(cond);
        proof {
            demands_are_each(conds@);
        }
        let b = Bundle { wanted: Vec::new(), unwanted: Vec::new(), conds };
        assert(b@ =~= Statement::of_condition(cond@));
        b
    }

    /// Everything both ask.
    fn and(&self, other: &Bundle<'a>) -> (b: Bundle<'a>)
        ensures
            b@ == self@.and(other@),
    {
        let mut wanted = copy_each_words(&self.wanted);
        let mut more = copy_each_words(&other.wanted);
        proof {
            wordings_append(wanted@, more@);
        }
        wanted.append(&mut more);
        let mut conds = copy_each_cond(&self.conds);
        let mut more = copy_each_cond(&other.conds);
        proof {
            demands_append(conds@, more@);
        }
        conds.append(&mut more);
        let mut unwanted: Vec<(Column, &'a Text)> = Vec::new();
        let mut i: usize = 0;
        while i < self.unwanted.len()
            invariant
                i <= self.unwanted@.len(),
                unwanted@ == self.unwanted@.take(i as int),
            decreases self.unwanted@.len() - i,
        {
            unwanted.push(self.unwanted[i]);
            i += 1;
        }
        let mut j: usize = 0;
        while j < other.unwanted.len()
            invariant
                j <= other.unwanted@.len(),
                unwanted@ == self.unwanted@ + other.unwanted@.take(j as int),
            decreases other.unwanted@.len() - j,
        {
            unwanted.push(other.unwanted[j]);
            j += 1;
        }
        assert(refusals(unwanted@) =~= refusals(self.unwanted@) + refusals(other.unwanted@));
        Bundle { wanted, unwanted, conds }
    }
}

fn times<'a>(left: &Vec<Bundle<'a>>, options: &Vec<Bundle<'a>>) -> (out: Vec<Bundle<'a>>)
    ensures
        bundle_views(out@) == multiplied(bundle_views(left@), bundle_views(options@)),
{
    let ghost lefts = bundle_views(left@);
    let ghost rights = bundle_views(options@);
    let mut out: Vec<Bundle<'a>> = Vec::new();
    let mut i: usize = 0;
    assert(lefts.take(0) =~= Seq::<Statement>::empty());
    assert(bundle_views(out@) =~= Seq::<Statement>::empty());
    while i < left.len()
        invariant
            i <= left@.len(),
            lefts == bundle_views(left@),
            rights == bundle_views(options@),
            bundle_views(out@) == multiplied(lefts.take(i as int), rights),
        decreases left@.len() - i,
    {
        let ghost so_far = bundle_views(out@);
        let mut j: usize = 0;
        assert(so_far + with_each(lefts[i as int], rights).take(0) =~= so_far);
        while j < options.len()
            invariant
                i < left@.len(),
                j <= options@.len(),
                lefts == bundle_views(left@),
                rights == bundle_views(options@),
                bundle_views(out@) == so_far + with_each(lefts[i as int], rights).take(j as int),
            decreases options@.len() - j,
        {
            let ghost before = out@;
            let both = left[i].and(&options[j]);
            out.push(both);
            assert(bundle_views(out@) =~= bundle_views(before).push(both@));
            assert(bundle_views(out@) =~= so_far + with_each(lefts[i as int], rights).take(j + 1));
            j += 1;
        }
        assert(with_each(lefts[i as int], rights).take(j as int) =~= with_each(
            lefts[i as int],
            rights,
        ));
        assert(lefts.take(i + 1).drop_last() =~= lefts.take(i as int));
        i += 1;
    }
    assert(lefts.take(i as int) =~= lefts);
    out
}

pub proof fn multiplied_length(left: Seq<Statement>, options: Seq<Statement>)
    ensures
        multiplied(left, options).len() == left.len() * options.len(),
    decreases left.len(),
{
    if left.len() > 0 {
        multiplied_length(left.drop_last(), options);
        assert((left.len() - 1) * options.len() + options.len() == left.len() * options.len())
            by (nonlinear_arith);
    } else {
        assert(0 * options.len() == 0) by (nonlinear_arith);
    }
}

/// However a query is typed, it never becomes more statements than the limit.
pub proof fn statements_stay_few(shape: Shape)
    ensures
        statements_of(shape) matches Some(out) ==> out.len() <= MAX_ALTERNATIVES,
    decreases shape,
{
    if words_of_one_script(shape) is None {
        if let Shape::All(parts) = shape {
            all_statements_stay_few(parts);
        }
    }
}

proof fn all_statements_stay_few(parts: Seq<Shape>)
    ensures
        all_statements(parts) matches Some(out) ==> 0 < out.len() <= MAX_ALTERNATIVES,
    decreases parts,
{
    if parts.len() > 0 {
        all_statements_stay_few(parts.drop_last());
        if let (Some(out), Some(options)) = (
            all_statements(parts.drop_last()),
            statements_of(parts.last()),
        ) {
            multiplied_length(out, options);
            if options.len() > 0 {
                assert(out.len() * options.len() > 0) by (nonlinear_arith)
                    requires
                        out.len() > 0,
                        options.len() > 0,
                ;
            }
        }
    }
}

pub open spec fn views_of(bundles: Option<Vec<Bundle>>) -> Option<Seq<Statement>> {
    match bundles {
        Some(b) => Some(bundle_views(b@)),
        None => None,
    }
}

/// The query as statements, any of which may match, or `None` when that would
/// pass the limit.
pub fn bundles<'a>(node: &Node<'a>) -> (r: Option<Vec<Bundle<'a>>>)
    ensures
        views_of(r) == statements_of(node@),
    decreases node,
{
    if let Some(words) = as_words(node) {
        let mut out: Vec<Bundle<'a>> = Vec::new();
        out.push(Bundle::of_words(words));
        assert(bundle_views(out@) =~= seq![Statement::of_words(words@)]);
        return Some(out);
    }
    match node {
        Node::Lit(lit) => {
            let mut out: Vec<Bundle<'a>> = Vec::new();
            match text_of(lit.term) {
                Some((column, text)) => out.push(Bundle::of_refusal(column, text)),
                None => out.push(Bundle::of_condition(Cond::Lit(*lit))),
            }
            assert(bundle_views(out@) =~= statements_of(node@)->0);
            Some(out)
        },
        Node::All(parts) => bundles_of_all(parts),
        Node::Any(parts) => {
            let sides = match sort_sides(parts) {
                Some(sides) => sides,
                None => {
                    return None;
                },
            };
            let ghost view = sides@;
            let SortedSides { latin, cjk, conds, rest } = sides;
            let mut out: Vec<Bundle<'a>> = Vec::new();
            assert(bundle_views(out@) =~= Seq::<Statement>::empty());
            put_any_words(&mut out, latin);
            put_any_words(&mut out, cjk);
            put_any_conditions(&mut out, conds);
            let ghost before = out@;
            let mut rest = rest;
            let ghost tail = rest@;
            out.append(&mut rest);
            assert(bundle_views(out@) =~= bundle_views(before) + bundle_views(tail));
            assert(bundle_views(out@) =~= any_words(view.latin) + any_words(view.cjk)
                + any_conditions(view.conds) + view.rest);
            if out.len() > MAX_ALTERNATIVES {
                return None;
            }
            Some(out)
        },
    }
}

proof fn no_statements_for_all(parts: Seq<Shape>, n: int)
    requires
        0 <= n <= parts.len(),
        all_statements(parts.take(n)) is None,
    ensures
        all_statements(parts) is None,
    decreases parts.len() - n,
{
    if n < parts.len() {
        assert(parts.take(n + 1).drop_last() =~= parts.take(n));
        no_statements_for_all(parts, n + 1);
    } else {
        assert(parts.take(n) =~= parts);
    }
}

fn bundles_of_all<'a>(parts: &Vec<Node<'a>>) -> (r: Option<Vec<Bundle<'a>>>)
    ensures
        views_of(r) == all_statements(shapes(parts@)),
    decreases parts,
{
    proof {
        shapes_are_each(parts@);
    }
    let ghost every = shapes(parts@);
    let mut out: Vec<Bundle<'a>> = Vec::new();
    out.push(Bundle::new());
    let mut i: usize = 0;
    assert(every.take(0) =~= Seq::<Shape>::empty());
    assert(bundle_views(out@) =~= seq![Statement::empty()]);
    while i < parts.len()
        invariant
            i <= parts@.len(),
            every == shapes(parts@),
            every.len() == parts@.len(),
            all_statements(every.take(i as int)) == Some(bundle_views(out@)),
        decreases parts@.len() - i,
    {
        proof {
            shapes_are_each(parts@);
            assert(every.take(i + 1).drop_last() =~= every.take(i as int));
            all_statements_stay_few(every.take(i as int));
            statements_stay_few(every[i as int]);
            assert(bundle_views(out@).len() == out@.len());
        }
        let options = match bundles(&parts[i]) {
            Some(options) => options,
            None => {
                proof {
                    no_statements_for_all(every, i + 1);
                }
                return None;
            },
        };
        assert(bundle_views(options@).len() == options@.len());
        if options.len() > 0 {
            assert(out@.len() * options@.len() <= 16) by (nonlinear_arith)
                requires
                    out@.len() <= 4,
                    options@.len() <= 4,
            ;
            if out.len() * options.len() > MAX_ALTERNATIVES {
                proof {
                    no_statements_for_all(every, i + 1);
                }
                return None;
            }
            out = times(&out, &options);
        }
        i += 1;
    }
    assert(every.take(i as int) =~= every);
    Some(out)
}

/// The sides of a choice, sorted by what they are.
struct SortedSides<'a> {
    latin: Vec<Words<'a>>,
    cjk: Vec<Words<'a>>,
    conds: Vec<Cond<'a>>,
    rest: Vec<Bundle<'a>>,
}

impl<'a> View for SortedSides<'a> {
    type V = Sides;

    closed spec fn view(&self) -> Sides {
        Sides {
            latin: wordings(self.latin@),
            cjk: wordings(self.cjk@),
            conds: demands(self.conds@),
            rest: bundle_views(self.rest@),
        }
    }
}

spec fn sides_view(sides: Option<SortedSides>) -> Option<Sides> {
    match sides {
        Some(s) => Some(s@),
        None => None,
    }
}

proof fn no_sides(parts: Seq<Shape>, n: int)
    requires
        0 <= n <= parts.len(),
        sides_of(parts.take(n)) is None,
    ensures
        sides_of(parts) is None,
    decreases parts.len() - n,
{
    if n < parts.len() {
        assert(parts.take(n + 1).drop_last() =~= parts.take(n));
        no_sides(parts, n + 1);
    } else {
        assert(parts.take(n) =~= parts);
    }
}

fn sort_sides<'a>(parts: &Vec<Node<'a>>) -> (r: Option<SortedSides<'a>>)
    ensures
        sides_view(r) == sides_of(shapes(parts@)),
    decreases parts,
{
    proof {
        shapes_are_each(parts@);
    }
    let ghost every = shapes(parts@);
    let mut sides = SortedSides {
        latin: Vec::new(),
        cjk: Vec::new(),
        conds: Vec::new(),
        rest: Vec::new(),
    };
    let mut i: usize = 0;
    assert(every.take(0) =~= Seq::<Shape>::empty());
    assert(sides@ =~= Sides::none());
    while i < parts.len()
        invariant
            i <= parts@.len(),
            every == shapes(parts@),
            every.len() == parts@.len(),
            sides_of(every.take(i as int)) == Some(sides@),
        decreases parts@.len() - i,
    {
        proof {
            shapes_are_each(parts@);
            assert(every.take(i + 1).drop_last() =~= every.take(i as int));
        }
        let ghost now = sides@;
        let ghost old_sides = sides;
        if let Some(words) = as_words(&parts[i]) {
            if words.indexable() {
                if words.cjk() {
                    sides.cjk.push(words);
                    assert(sides.cjk@.drop_last() =~= old_sides.cjk@);
                    assert(sides@ =~= (Sides { cjk: now.cjk.push(words@), ..now }));
                } else {
                    sides.latin.push(words);
                    assert(sides.latin@.drop_last() =~= old_sides.latin@);
                    assert(sides@ =~= (Sides { latin: now.latin.push(words@), ..now }));
                }
            }
        } else if let Some(cond) = as_cond(&parts[i]) {
            if let Some(kept) = pruned(cond) {
                sides.conds.push(kept);
                assert(sides.conds@.drop_last() =~= old_sides.conds@);
                assert(sides@ =~= (Sides { conds: now.conds.push(kept@), ..now }));
            }
        } else {
            match bundles(&parts[i]) {
                Some(more) => {
                    let ghost added = bundle_views(more@);
                    let mut more = more;
                    sides.rest.append(&mut more);
                    assert(sides@.rest =~= now.rest + added);
                    assert(sides@ =~= (Sides { rest: now.rest + added, ..now }));
                },
                None => {
                    proof {
                        no_sides(every, i + 1);
                    }
                    return None;
                },
            }
        }
        i += 1;
    }
    assert(every.take(i as int) =~= every);
    Some(sides)
}

fn put_any_words<'a>(out: &mut Vec<Bundle<'a>>, words: Vec<Words<'a>>)
    ensures
        bundle_views(final(out)@) == bundle_views(old(out)@) + any_words(wordings(words@)),
{
    proof {
        wordings_are_each(words@);
    }
    let ghost all = wordings(words@);
    if words.len() > 0 {
        let joint = if words.len() == 1 {
            let mut words = words;
            match words.pop() {
                Some(only) => only,
                None => Words::Any(words),
            }
        } else {
            Words::Any(words)
        };
        out.push(Bundle::of_words(joint));
        assert(bundle_views(out@) =~= bundle_views(old(out)@).push(Statement::of_words(joint@)));
    }
    assert(bundle_views(out@) =~= bundle_views(old(out)@) + any_words(all));
}

fn put_any_conditions<'a>(out: &mut Vec<Bundle<'a>>, conds: Vec<Cond<'a>>)
    ensures
        bundle_views(final(out)@) == bundle_views(old(out)@) + any_conditions(demands(conds@)),
{
    proof {
        demands_are_each(conds@);
    }
    let ghost all = demands(conds@);
    if conds.len() > 0 {
        let joint = if conds.len() == 1 {
            let mut conds = conds;
            match conds.pop() {
                Some(only) => only,
                None => Cond::Any(conds),
            }
        } else {
            Cond::Any(conds)
        };
        out.push(Bundle::of_condition(joint));
        assert(bundle_views(out@) =~= bundle_views(old(out)@).push(
            Statement::of_condition(joint@),
        ));
    }
    assert(bundle_views(out@) =~= bundle_views(old(out)@) + any_conditions(all));
}

/// Everything a query is asked as.
///
/// Too wide to ask a statement at a time, it is asked whole, as one statement
/// of lookups. Those hits are listed by date and carry no snippet, which is
/// the price of being right about a query that size.
pub open spec fn asked_as(shape: Shape) -> Seq<Statement> {
    match statements_of(shape) {
        Some(out) => out,
        None => seq![match without_idle(looked_up(shape)) {
            Some(demand) => Statement::of_condition(demand),
            None => Statement::empty(),
        }],
    }
}

/// Everything a query is asked as.
pub fn asked_bundles<'a>(node: &Node<'a>) -> (out: Vec<Bundle<'a>>)
    ensures
        bundle_views(out@) == asked_as(node@),
{
    match bundles(node) {
        Some(out) => out,
        None => {
            let mut out: Vec<Bundle<'a>> = Vec::new();
            match pruned(as_lookups(node)) {
                Some(cond) => out.push(Bundle::of_condition(cond)),
                None => out.push(Bundle::new()),
            }
            assert(bundle_views(out@) =~= asked_as(node@));
            out
        },
    }
}

// ---------------------------------------------------------------------
// Words as a full-text expression
// ---------------------------------------------------------------------
/// One term as the index has to be asked for it: a quoted phrase, exactly as
/// `match_expr` builds them, so that what was typed never reaches MATCH bare.
pub open spec fn phrase_text(column: Column, text: Phrase, for_cjk: bool, prefix: bool) -> Seq<
    char,
> {
    let inner = if for_cjk {
        let parts = cjk_phrases(text.value);
        if parts.len() == 1 {
            parts[0]
        } else {
            "("@ + joined(parts, " AND "@) + ")"@
        }
    } else if prefix && last_run(text.value).len() >= 2 {
        phrase_of(text.value).push('*')
    } else {
        phrase_of(text.value)
    };
    match column {
        Column::Subject => "subject : "@ + inner,
        Column::Anywhere => inner,
    }
}

pub fn phrase_chars(column: Column, text: &Text, for_cjk: bool, prefix: bool) -> (out: Vec<char>)
    ensures
        out@ == phrase_text(column, text@, for_cjk, prefix),
{
    let value = chars_of(&text.value);
    let inner: Vec<char> = if for_cjk {
        let mut parts = cjk_parts(&value);
        assert(texts(parts@).len() == parts@.len());
        if parts.len() == 1 {
            assert(texts(parts@)[0] == parts@[0]@);
            match parts.pop() {
                Some(only) => only,
                None => Vec::new(),
            }
        } else {
            let mut out = chars_of("(");
            append_chars(&mut out, &join(&parts, " AND "));
            put(&mut out, ")");
            out
        }
    } else if prefix && last_alnum_run(&value).len() >= 2 {
        let mut out = quoted_chars(&value);
        out.push('*');
        out
    } else {
        quoted_chars(&value)
    };
    match column {
        Column::Subject => {
            let mut out = chars_of("subject : ");
            append_chars(&mut out, &inner);
            out
        },
        Column::Anywhere => inner,
    }
}

/// One term as the index has to be asked for it.
pub fn phrase(column: Column, text: &Text, for_cjk: bool, prefix: bool) -> (out: String)
    ensures
        out@ == phrase_text(column, text@, for_cjk, prefix),
{
    crate::text::string_of(&phrase_chars(column, text, for_cjk, prefix))
}

/// Words as one full-text expression, or `None` when none of them is a word
/// the index keeps. Every AND and OR is written out: an index will not take an
/// implicit AND beside a bracket.
pub open spec fn fts_text(words: Wording, for_cjk: bool, typing: Option<nat>) -> Option<Seq<char>>
    decreases words,
{
    match words {
        Wording::Leaf(column, text, at) => if is_indexable(text) {
            Some(phrase_text(column, text, for_cjk, typing == Some(at)))
        } else {
            None
        },
        Wording::All(parts) => bracketed(fts_texts(parts, for_cjk, typing), " AND "@),
        Wording::Any(parts) => bracketed(fts_texts(parts, for_cjk, typing), " OR "@),
    }
}

pub open spec fn bracketed(parts: Seq<Seq<char>>, joiner: Seq<char>) -> Option<Seq<char>> {
    if parts.len() == 0 {
        None
    } else if parts.len() == 1 {
        Some(parts[0])
    } else {
        Some("("@ + joined(parts, joiner) + ")"@)
    }
}

/// What each part of some words is asked as, without those that ask nothing.
pub open spec fn fts_texts(parts: Seq<Wording>, for_cjk: bool, typing: Option<nat>) -> Seq<
    Seq<char>,
>
    decreases parts,
{
    if parts.len() == 0 {
        Seq::empty()
    } else {
        let front = fts_texts(parts.drop_last(), for_cjk, typing);
        match fts_text(parts.last(), for_cjk, typing) {
            Some(text) => front.push(text),
            None => front,
        }
    }
}

pub open spec fn chars_text(s: Option<Vec<char>>) -> Option<Seq<char>> {
    match s {
        Some(text) => Some(text@),
        None => None,
    }
}

pub open spec fn place(typing: Option<usize>) -> Option<nat> {
    match typing {
        Some(at) => Some(at as nat),
        None => None,
    }
}

fn same_place(a: Option<usize>, b: usize) -> (r: bool)
    ensures
        r == (place(a) == Some(b as nat)),
{
    match a {
        Some(at) => at == b,
        None => false,
    }
}

/// Words as one full-text expression, or `None` when none of them is a word
/// the index keeps.
pub fn fts(words: &Words, for_cjk: bool, typing: Option<usize>) -> (r: Option<Vec<char>>)
    ensures
        chars_text(r) == fts_text(words@, for_cjk, place(typing)),
    decreases words,
{
    match words {
        Words::Leaf(column, text, at) => if indexable(text) {
            Some(phrase_chars(*column, text, for_cjk, same_place(typing, *at)))
        } else {
            None
        },
        Words::All(parts) => in_brackets(fts_each(parts, for_cjk, typing), " AND "),
        Words::Any(parts) => in_brackets(fts_each(parts, for_cjk, typing), " OR "),
    }
}

fn in_brackets(parts: Vec<Vec<char>>, joiner: &str) -> (r: Option<Vec<char>>)
    ensures
        chars_text(r) == bracketed(texts(parts@), joiner@),
{
    assert(texts(parts@).len() == parts@.len());
    if parts.len() == 0 {
        None
    } else if parts.len() == 1 {
        assert(texts(parts@)[0] == parts@[0]@);
        let mut parts = parts;
        parts.pop()
    } else {
        let mut out = chars_of("(");
        append_chars(&mut out, &join(&parts, joiner));
        put(&mut out, ")");
        Some(out)
    }
}

fn fts_each(parts: &Vec<Words>, for_cjk: bool, typing: Option<usize>) -> (out: Vec<Vec<char>>)
    ensures
        texts(out@) == fts_texts(wordings(parts@), for_cjk, place(typing)),
    decreases parts,
{
    proof {
        wordings_are_each(parts@);
    }
    let ghost every = wordings(parts@);
    let mut out: Vec<Vec<char>> = Vec::new();
    let mut i: usize = 0;
    assert(every.take(0) =~= Seq::<Wording>::empty());
    assert(texts(out@) =~= Seq::<Seq<char>>::empty());
    while i < parts.len()
        invariant
            i <= parts@.len(),
            every == wordings(parts@),
            every.len() == parts@.len(),
            texts(out@) == fts_texts(every.take(i as int), for_cjk, place(typing)),
        decreases parts@.len() - i,
    {
        proof {
            wordings_are_each(parts@);
            assert(every.take(i + 1).drop_last() =~= every.take(i as int));
        }
        let ghost before = out@;
        if let Some(text) = fts(&parts[i], for_cjk, typing) {
            out.push(text);
            assert(texts(out@) =~= texts(before).push(text@));
        }
        i += 1;
    }
    assert(every.take(i as int) =~= every);
    out
}

// ---------------------------------------------------------------------
// What a condition names
// ---------------------------------------------------------------------
/// Something a term can name that changes what is around it.
#[derive(Debug, Clone, Copy, PartialEq, Eq, Structural)]
pub enum Named {
    /// Spam or Trash.
    Bin,
    /// Mail that was put aside.
    Snoozed,
}

pub open spec fn names(term: Ask, what: Named) -> bool {
    match what {
        Named::Bin => term matches Ask::In(role) && (role == "spam"@ || role == "trash"@),
        Named::Snoozed => term == Ask::Is(State::Snoozed),
    }
}

pub fn is_the_bin(term: &Term) -> (r: bool)
    ensures
        r == names(term@, Named::Bin),
{
    match term {
        Term::In(role) => same(role, "spam") || same(role, "trash"),
        _ => false,
    }
}

pub fn is_snoozed(term: &Term) -> (r: bool)
    ensures
        r == names(term@, Named::Snoozed),
{
    match term {
        Term::Is(state) => *state == State::Snoozed,
        _ => false,
    }
}

fn is_named(term: &Term, what: Named) -> (r: bool)
    ensures
        r == names(term@, what),
{
    match what {
        Named::Bin => is_the_bin(term),
        Named::Snoozed => is_snoozed(term),
    }
}

/// Whether a condition asks, un-negated, for something a term names.
pub open spec fn asks_for(demand: Demand, what: Named) -> bool
    decreases demand,
{
    match demand {
        Demand::Lit(fact) => !fact.negated && names(fact.term, what),
        Demand::With(_, _, _) => false,
        Demand::Without(_, _) => false,
        Demand::All(parts) => any_asks_for(parts, what),
        Demand::Any(parts) => any_asks_for(parts, what),
    }
}

pub open spec fn any_asks_for(parts: Seq<Demand>, what: Named) -> bool
    decreases parts,
{
    parts.len() > 0 && (any_asks_for(parts.drop_last(), what) || asks_for(parts.last(), what))
}

/// Whether a condition asks, un-negated, for something a term names.
pub fn asks(cond: &Cond, what: Named) -> (r: bool)
    ensures
        r == asks_for(cond@, what),
    decreases cond,
{
    match cond {
        Cond::Lit(lit) => !lit.negated && is_named(lit.term, what),
        Cond::With(_, _, _) => false,
        Cond::Without(_, _) => false,
        Cond::All(parts) => any_asks(parts, what),
        Cond::Any(parts) => any_asks(parts, what),
    }
}

pub fn any_asks(parts: &Vec<Cond>, what: Named) -> (r: bool)
    ensures
        r == any_asks_for(demands(parts@), what),
    decreases parts,
{
    proof {
        demands_are_each(parts@);
    }
    let ghost every = demands(parts@);
    let mut found = false;
    let mut i: usize = 0;
    assert(every.take(0) =~= Seq::<Demand>::empty());
    while i < parts.len()
        invariant
            i <= parts@.len(),
            every == demands(parts@),
            every.len() == parts@.len(),
            found == any_asks_for(every.take(i as int), what),
        decreases parts@.len() - i,
    {
        proof {
            demands_are_each(parts@);
            assert(every.take(i + 1).drop_last() =~= every.take(i as int));
        }
        if asks(&parts[i], what) {
            found = true;
        }
        i += 1;
    }
    assert(every.take(i as int) =~= every);
    found
}

/// Whether words are looked up among these conditions. Only a query too wide
/// to ask a statement at a time has any, and they narrow the walk hard enough
/// to change which way round a filter is cheaper.
pub open spec fn looks_up(demand: Demand) -> bool
    decreases demand,
{
    match demand {
        Demand::With(_, _, _) => true,
        Demand::Lit(_) => false,
        Demand::Without(_, _) => false,
        Demand::All(parts) => any_looks_up(parts),
        Demand::Any(parts) => any_looks_up(parts),
    }
}

pub open spec fn any_looks_up(parts: Seq<Demand>) -> bool
    decreases parts,
{
    parts.len() > 0 && (any_looks_up(parts.drop_last()) || looks_up(parts.last()))
}

/// Whether words are looked up among these conditions.
pub fn looks_up_words(cond: &Cond) -> (r: bool)
    ensures
        r == looks_up(cond@),
    decreases cond,
{
    match cond {
        Cond::With(_, _, _) => true,
        Cond::Lit(_) => false,
        Cond::Without(_, _) => false,
        Cond::All(parts) => any_look_up_words(parts),
        Cond::Any(parts) => any_look_up_words(parts),
    }
}

pub fn any_look_up_words(parts: &Vec<Cond>) -> (r: bool)
    ensures
        r == any_looks_up(demands(parts@)),
    decreases parts,
{
    proof {
        demands_are_each(parts@);
    }
    let ghost every = demands(parts@);
    let mut found = false;
    let mut i: usize = 0;
    assert(every.take(0) =~= Seq::<Demand>::empty());
    while i < parts.len()
        invariant
            i <= parts@.len(),
            every == demands(parts@),
            every.len() == parts@.len(),
            found == any_looks_up(every.take(i as int)),
        decreases parts@.len() - i,
    {
        proof {
            demands_are_each(parts@);
            assert(every.take(i + 1).drop_last() =~= every.take(i as int));
        }
        if looks_up_words(&parts[i]) {
            found = true;
        }
        i += 1;
    }
    assert(every.take(i as int) =~= every);
    found
}

/// Whether one of these, which all have to hold, is the thing itself: asked
/// for outright, not somewhere inside a choice further down.
pub open spec fn is_alongside(parts: Seq<Demand>, what: Named) -> bool {
    exists|i: int|
        0 <= i < parts.len() && (#[trigger] parts[i] matches Demand::Lit(fact) && !fact.negated
            && names(fact.term, what))
}

/// Whether one of these, which all have to hold, is the thing itself.
pub fn alongside(parts: &Vec<Cond>, what: Named) -> (r: bool)
    ensures
        r == is_alongside(demands(parts@), what),
{
    proof {
        demands_are_each(parts@);
    }
    let ghost every = demands(parts@);
    let mut i: usize = 0;
    while i < parts.len()
        invariant
            i <= parts@.len(),
            every == demands(parts@),
            every.len() == parts@.len(),
            forall|j: int|
                0 <= j < i ==> !(#[trigger] every[j] matches Demand::Lit(fact) && !fact.negated
                    && names(fact.term, what)),
        decreases parts@.len() - i,
    {
        proof {
            demands_are_each(parts@);
            assert(every[i as int] == parts@[i as int].demand());
        }
        if let Cond::Lit(lit) = &parts[i] {
            if !lit.negated && is_named(lit.term, what) {
                assert(every[i as int] == Demand::Lit(lit@));
                return true;
            }
        }
        i += 1;
    }
    false
}

// ---------------------------------------------------------------------
// What is named, and where
// ---------------------------------------------------------------------
/// The bin is the spam folder and the trash, asked for by their roles; no
/// other term asks for it, and none but `is:snoozed` asks for snoozed mail.
pub proof fn the_bin_is_spam_and_trash(term: Ask)
    ensures
        names(Ask::In("spam"@), Named::Bin),
        names(Ask::In("trash"@), Named::Bin),
        names(term, Named::Bin) ==> term == Ask::In("spam"@) || term == Ask::In("trash"@),
        names(term, Named::Snoozed) <==> term == Ask::Is(State::Snoozed),
{
}

/// A thing is asked for where any of the conditions asks for it, and not
/// where it is only asked to be left out.
pub proof fn a_thing_is_asked_for_where_any_asks(
    before: Seq<Demand>,
    one: Demand,
    fact: super::plan::Fact,
    what: Named,
)
    ensures
        any_asks_for(before.push(one), what) == (any_asks_for(before, what) || asks_for(one, what)),
        !any_asks_for(Seq::empty(), what),
        asks_for(Demand::Lit(fact), what) == (names(fact.term, what) && !fact.negated),
        any_looks_up(before.push(one)) == (any_looks_up(before) || looks_up(one)),
        !looks_up(Demand::Lit(fact)),
{
    assert(before.push(one).drop_last() =~= before);
}

} // verus!
