//! What the statements of a query find, against what the query asks.
//!
//! A message answers each thing that can be asked of it, yes or no. A word
//! made of punctuation asks nothing, wanted or not, so an expression says yes,
//! no, or nothing at all.

use super::plan::{
    all_wordy, conditions_alone, idle_left_out, is_conditions, is_indexable, is_wordy, looked_up,
    looked_up_each, pushed, pushed_each, spread, without_idle, words_asked, words_of_one_script,
    worded, worded_each, any_asks_any, Column, Demand, Fact, Shape, Wording,
};
use super::statements::{
    all_statements, any_conditions, any_words, asked_as, multiplied, sides_of, statements_of,
    with_each, Sides, Statement,
};
use crate::search_query::round_trip::clauses_in;
use crate::search_query::{Ask, Phrase, Tree};
use vstd::prelude::*;

verus! {

/// How one message answers each thing that can be asked of it.
pub type Answers = spec_fn(Ask) -> bool;

/// Both, where both say something.
pub open spec fn both(a: Option<bool>, b: Option<bool>) -> Option<bool> {
    match (a, b) {
        (Some(p), Some(q)) => Some(p && q),
        (Some(p), None) => Some(p),
        (None, other) => other,
    }
}

/// Either, where both say something.
pub open spec fn either(a: Option<bool>, b: Option<bool>) -> Option<bool> {
    match (a, b) {
        (Some(p), Some(q)) => Some(p || q),
        (Some(p), None) => Some(p),
        (None, other) => other,
    }
}

pub open spec fn flipped(a: Option<bool>, flip: bool) -> Option<bool> {
    match a {
        Some(p) => Some(p != flip),
        None => None,
    }
}

/// What a message says to one term.
pub open spec fn term_says(term: Ask, negated: bool, message: Answers) -> Option<bool> {
    match words_asked(term) {
        Some((_, text)) if !is_indexable(text) => None,
        _ => Some(message(term) != negated),
    }
}

// ---------------------------------------------------------------------
// Queries
// ---------------------------------------------------------------------
/// What a message says to a query.
pub open spec fn tree_says(tree: Tree, message: Answers) -> Option<bool>
    decreases tree,
{
    match tree {
        Tree::Clause(point) => term_says(point.term, point.negated, message),
        Tree::Not(inner) => flipped(tree_says(*inner, message), true),
        Tree::All(parts) => all_trees_say(parts, message),
        Tree::Any(parts) => any_trees_say(parts, message),
    }
}

pub open spec fn all_trees_say(parts: Seq<Tree>, message: Answers) -> Option<bool>
    decreases parts,
{
    if parts.len() == 0 {
        None
    } else {
        both(all_trees_say(parts.drop_last(), message), tree_says(parts.last(), message))
    }
}

pub open spec fn any_trees_say(parts: Seq<Tree>, message: Answers) -> Option<bool>
    decreases parts,
{
    if parts.len() == 0 {
        None
    } else {
        either(any_trees_say(parts.drop_last(), message), tree_says(parts.last(), message))
    }
}

/// What a message says to a query with its NOTs pushed down.
pub open spec fn shape_says(shape: Shape, message: Answers) -> Option<bool>
    decreases shape,
{
    match shape {
        Shape::Lit(fact) => term_says(fact.term, fact.negated, message),
        Shape::All(parts) => all_shapes_say(parts, message),
        Shape::Any(parts) => any_shapes_say(parts, message),
    }
}

pub open spec fn all_shapes_say(parts: Seq<Shape>, message: Answers) -> Option<bool>
    decreases parts,
{
    if parts.len() == 0 {
        None
    } else {
        both(all_shapes_say(parts.drop_last(), message), shape_says(parts.last(), message))
    }
}

pub open spec fn any_shapes_say(parts: Seq<Shape>, message: Answers) -> Option<bool>
    decreases parts,
{
    if parts.len() == 0 {
        None
    } else {
        either(any_shapes_say(parts.drop_last(), message), shape_says(parts.last(), message))
    }
}

proof fn all_shapes_together(a: Seq<Shape>, b: Seq<Shape>, message: Answers)
    ensures
        all_shapes_say(a + b, message) == both(
            all_shapes_say(a, message),
            all_shapes_say(b, message),
        ),
        any_shapes_say(a + b, message) == either(
            any_shapes_say(a, message),
            any_shapes_say(b, message),
        ),
    decreases b.len(),
{
    if b.len() == 0 {
        assert(a + b =~= a);
    } else {
        all_shapes_together(a, b.drop_last(), message);
        assert((a + b).drop_last() =~= a + b.drop_last());
    }
}

proof fn one_shape(shape: Shape, message: Answers)
    ensures
        all_shapes_say(seq![shape], message) == shape_says(shape, message),
        any_shapes_say(seq![shape], message) == shape_says(shape, message),
{
    let alone = seq![shape];
    assert(alone.drop_last() =~= Seq::<Shape>::empty());
    assert(all_shapes_say(alone.drop_last(), message) is None);
    assert(any_shapes_say(alone.drop_last(), message) is None);
}

proof fn spread_says(shape: Shape, all: bool, message: Answers)
    ensures
        all ==> all_shapes_say(spread(shape, all), message) == shape_says(shape, message),
        !all ==> any_shapes_say(spread(shape, all), message) == shape_says(shape, message),
{
    one_shape(shape, message);
}

/// Pushing the NOTs down to the terms changes nothing that is asked: not (a
/// and b) is (not a) or (not b), and the other way about.
pub proof fn pushing_nots_down_keeps_the_question(
    tree: Tree,
    flip: bool,
    first: nat,
    message: Answers,
)
    ensures
        shape_says(pushed(tree, flip, first), message) == flipped(tree_says(tree, message), flip),
    decreases tree,
{
    match tree {
        Tree::Clause(_) => {},
        Tree::Not(inner) => {
            pushing_nots_down_keeps_the_question(*inner, !flip, first, message);
        },
        Tree::All(parts) => {
            pushing_each(parts, flip, first, !flip, message);
        },
        Tree::Any(parts) => {
            pushing_each(parts, flip, first, flip, message);
        },
    }
}

proof fn pushing_each(parts: Seq<Tree>, flip: bool, first: nat, all: bool, message: Answers)
    ensures
        ({
            let flat = pushed_each(parts, flip, first, all);
            &&& all && !flip ==> all_shapes_say(flat, message) == all_trees_say(parts, message)
            &&& all && flip ==> all_shapes_say(flat, message) == flipped(
                any_trees_say(parts, message),
                true,
            )
            &&& !all && !flip ==> any_shapes_say(flat, message) == any_trees_say(parts, message)
            &&& !all && flip ==> any_shapes_say(flat, message) == flipped(
                all_trees_say(parts, message),
                true,
            )
        }),
    decreases parts,
{
    if parts.len() > 0 {
        let front = parts.drop_last();
        let next = first + clauses_in(front);
        pushing_each(front, flip, first, all, message);
        pushing_nots_down_keeps_the_question(parts.last(), flip, next, message);
        let last = pushed(parts.last(), flip, next);
        spread_says(last, all, message);
        all_shapes_together(pushed_each(front, flip, first, all), spread(last, all), message);
    }
}

// ---------------------------------------------------------------------
// Words and conditions
// ---------------------------------------------------------------------
pub open spec fn ask_for(column: Column, text: Phrase) -> Ask {
    match column {
        Column::Anywhere => Ask::Text(text),
        Column::Subject => Ask::Subject(text),
    }
}

pub open spec fn phrase_says(
    column: Column,
    text: Phrase,
    negated: bool,
    message: Answers,
) -> Option<bool> {
    term_says(ask_for(column, text), negated, message)
}

pub open spec fn wording_says(words: Wording, message: Answers) -> Option<bool>
    decreases words,
{
    match words {
        Wording::Leaf(column, text, _) => phrase_says(column, text, false, message),
        Wording::All(parts) => all_wordings_say(parts, message),
        Wording::Any(parts) => any_wordings_say(parts, message),
    }
}

pub open spec fn all_wordings_say(parts: Seq<Wording>, message: Answers) -> Option<bool>
    decreases parts,
{
    if parts.len() == 0 {
        None
    } else {
        both(all_wordings_say(parts.drop_last(), message), wording_says(parts.last(), message))
    }
}

pub open spec fn any_wordings_say(parts: Seq<Wording>, message: Answers) -> Option<bool>
    decreases parts,
{
    if parts.len() == 0 {
        None
    } else {
        either(any_wordings_say(parts.drop_last(), message), wording_says(parts.last(), message))
    }
}

pub open spec fn demand_says(demand: Demand, message: Answers) -> Option<bool>
    decreases demand,
{
    match demand {
        Demand::Lit(fact) => Some(message(fact.term) != fact.negated),
        Demand::With(column, text, _) => phrase_says(column, text, false, message),
        Demand::Without(column, text) => phrase_says(column, text, true, message),
        Demand::All(parts) => all_demands_say(parts, message),
        Demand::Any(parts) => any_demands_say(parts, message),
    }
}

pub open spec fn all_demands_say(parts: Seq<Demand>, message: Answers) -> Option<bool>
    decreases parts,
{
    if parts.len() == 0 {
        None
    } else {
        both(all_demands_say(parts.drop_last(), message), demand_says(parts.last(), message))
    }
}

pub open spec fn any_demands_say(parts: Seq<Demand>, message: Answers) -> Option<bool>
    decreases parts,
{
    if parts.len() == 0 {
        None
    } else {
        either(any_demands_say(parts.drop_last(), message), demand_says(parts.last(), message))
    }
}

pub open spec fn all_refusals_say(unwanted: Seq<(Column, Phrase)>, message: Answers) -> Option<bool>
    decreases unwanted.len(),
{
    if unwanted.len() == 0 {
        None
    } else {
        both(
            all_refusals_say(unwanted.drop_last(), message),
            phrase_says(unwanted.last().0, unwanted.last().1, true, message),
        )
    }
}

/// What a message says to one statement.
pub open spec fn statement_says(statement: Statement, message: Answers) -> Option<bool> {
    both(
        both(
            all_wordings_say(statement.wanted, message),
            all_refusals_say(statement.unwanted, message),
        ),
        all_demands_say(statement.conds, message),
    )
}

/// What a message says to statements any of which may match.
pub open spec fn statements_say(statements: Seq<Statement>, message: Answers) -> Option<bool>
    decreases statements.len(),
{
    if statements.len() == 0 {
        None
    } else {
        either(
            statements_say(statements.drop_last(), message),
            statement_says(statements.last(), message),
        )
    }
}

proof fn worded_says(shape: Shape, message: Answers)
    requires
        is_wordy(shape),
    ensures
        wording_says(worded(shape), message) == shape_says(shape, message),
    decreases shape,
{
    match shape {
        Shape::Lit(_) => {},
        Shape::All(parts) => worded_each_says(parts, message),
        Shape::Any(parts) => worded_each_says(parts, message),
    }
}

proof fn worded_each_says(parts: Seq<Shape>, message: Answers)
    requires
        all_wordy(parts),
    ensures
        all_wordings_say(worded_each(parts), message) == all_shapes_say(parts, message),
        any_wordings_say(worded_each(parts), message) == any_shapes_say(parts, message),
    decreases parts,
{
    if parts.len() > 0 {
        worded_each_says(parts.drop_last(), message);
        worded_says(parts.last(), message);
        let all = worded_each(parts);
        assert(all.drop_last() =~= worded_each(parts.drop_last()));
    }
}

/// A query asked whole, as lookups, asks what the query asks: every leaf is a
/// set of messages and the algebra is the same.
pub proof fn lookups_ask_what_the_query_asks(shape: Shape, message: Answers)
    ensures
        demand_says(looked_up(shape), message) == shape_says(shape, message),
    decreases shape,
{
    match shape {
        Shape::Lit(_) => {},
        Shape::All(parts) => lookups_each(parts, message),
        Shape::Any(parts) => lookups_each(parts, message),
    }
}

proof fn lookups_each(parts: Seq<Shape>, message: Answers)
    ensures
        all_demands_say(looked_up_each(parts), message) == all_shapes_say(parts, message),
        any_demands_say(looked_up_each(parts), message) == any_shapes_say(parts, message),
    decreases parts,
{
    if parts.len() > 0 {
        lookups_each(parts.drop_last(), message);
        lookups_ask_what_the_query_asks(parts.last(), message);
        let all = looked_up_each(parts);
        assert(all.drop_last() =~= looked_up_each(parts.drop_last()));
    }
}

/// Taking out the parts that ask nothing changes nothing that is asked, and
/// what is left asks something.
pub proof fn pruning_keeps_the_question(demand: Demand, message: Answers)
    ensures
        match without_idle(demand) {
            Some(kept) => demand_says(kept, message) == demand_says(demand, message)
                && demand_says(kept, message) is Some,
            None => demand_says(demand, message) is None,
        },
    decreases demand,
{
    match demand {
        Demand::All(parts) => {
            pruning_each(parts, message);
            one_demand(idle_left_out(parts), message);
        },
        Demand::Any(parts) => {
            pruning_each(parts, message);
            one_demand(idle_left_out(parts), message);
        },
        _ => {},
    }
}

proof fn one_demand(parts: Seq<Demand>, message: Answers)
    ensures
        parts.len() == 1 ==> all_demands_say(parts, message) == demand_says(parts[0], message),
        parts.len() == 1 ==> any_demands_say(parts, message) == demand_says(parts[0], message),
{
    if parts.len() == 1 {
        assert(parts.drop_last() =~= Seq::<Demand>::empty());
        assert(all_demands_say(parts.drop_last(), message) is None);
        assert(any_demands_say(parts.drop_last(), message) is None);
    }
}

proof fn pruning_each(parts: Seq<Demand>, message: Answers)
    ensures
        all_demands_say(idle_left_out(parts), message) == all_demands_say(parts, message),
        any_demands_say(idle_left_out(parts), message) == any_demands_say(parts, message),
        (idle_left_out(parts).len() > 0) == all_demands_say(parts, message) is Some,
        (idle_left_out(parts).len() > 0) == any_demands_say(parts, message) is Some,
    decreases parts,
{
    if parts.len() > 0 {
        pruning_each(parts.drop_last(), message);
        pruning_keeps_the_question(parts.last(), message);
        if let Some(kept) = without_idle(parts.last()) {
            assert(idle_left_out(parts).drop_last() =~= idle_left_out(parts.drop_last()));
        }
    }
}

proof fn asking_words_say(words: Wording, message: Answers)
    ensures
        words.asks_any() == wording_says(words, message) is Some,
    decreases words,
{
    match words {
        Wording::Leaf(_, _, _) => {},
        Wording::All(parts) => asking_each_say(parts, message),
        Wording::Any(parts) => asking_each_say(parts, message),
    }
}

proof fn asking_each_say(parts: Seq<Wording>, message: Answers)
    ensures
        any_asks_any(parts) == all_wordings_say(parts, message) is Some,
        any_asks_any(parts) == any_wordings_say(parts, message) is Some,
    decreases parts,
{
    if parts.len() > 0 {
        asking_each_say(parts.drop_last(), message);
        asking_words_say(parts.last(), message);
    }
}

// ---------------------------------------------------------------------
// Statements
// ---------------------------------------------------------------------
/// Whether anything at all is asked: some condition, or a word the index
/// keeps.
pub open spec fn speaks(shape: Shape) -> bool
    decreases shape,
{
    match shape {
        Shape::Lit(fact) => match words_asked(fact.term) {
            Some((_, text)) => is_indexable(text),
            None => true,
        },
        Shape::All(parts) => any_speaks(parts),
        Shape::Any(parts) => any_speaks(parts),
    }
}

pub open spec fn any_speaks(parts: Seq<Shape>) -> bool
    decreases parts,
{
    parts.len() > 0 && (any_speaks(parts.drop_last()) || speaks(parts.last()))
}

proof fn speaking_says(shape: Shape, message: Answers)
    ensures
        speaks(shape) == shape_says(shape, message) is Some,
    decreases shape,
{
    match shape {
        Shape::Lit(_) => {},
        Shape::All(parts) => speaking_each(parts, message),
        Shape::Any(parts) => speaking_each(parts, message),
    }
}

proof fn speaking_each(parts: Seq<Shape>, message: Answers)
    ensures
        any_speaks(parts) == all_shapes_say(parts, message) is Some,
        any_speaks(parts) == any_shapes_say(parts, message) is Some,
    decreases parts,
{
    if parts.len() > 0 {
        speaking_each(parts.drop_last(), message);
        speaking_says(parts.last(), message);
    }
}

/// A side of a choice that is asked as statements of its own asks something.
pub open spec fn is_side(shape: Shape) -> bool {
    words_of_one_script(shape) is Some || is_conditions(shape) || speaks(shape)
}

/// Whether every side of every choice is one. A group of wanted and unwanted
/// punctuation, as in `x OR (& -%)`, is none.
pub open spec fn is_askable(shape: Shape) -> bool
    decreases shape,
{
    match shape {
        Shape::Lit(_) => true,
        Shape::All(parts) => all_askable(parts),
        Shape::Any(parts) => all_askable(parts) && all_sides(parts),
    }
}

pub open spec fn all_askable(parts: Seq<Shape>) -> bool
    decreases parts,
{
    parts.len() == 0 || (all_askable(parts.drop_last()) && is_askable(parts.last()))
}

pub open spec fn all_sides(parts: Seq<Shape>) -> bool
    decreases parts.len(),
{
    parts.len() == 0 || (all_sides(parts.drop_last()) && is_side(parts.last()))
}

/// Whether each of some statements asks something, or none does.
pub open spec fn all_ask(statements: Seq<Statement>, some: bool, message: Answers) -> bool {
    forall|i: int|
        0 <= i < statements.len() ==> (statement_says(#[trigger] statements[i], message) is Some)
            == some
}

proof fn wordings_together(a: Seq<Wording>, b: Seq<Wording>, message: Answers)
    ensures
        all_wordings_say(a + b, message) == both(
            all_wordings_say(a, message),
            all_wordings_say(b, message),
        ),
    decreases b.len(),
{
    if b.len() == 0 {
        assert(a + b =~= a);
    } else {
        wordings_together(a, b.drop_last(), message);
        assert((a + b).drop_last() =~= a + b.drop_last());
    }
}

proof fn refusals_together(a: Seq<(Column, Phrase)>, b: Seq<(Column, Phrase)>, message: Answers)
    ensures
        all_refusals_say(a + b, message) == both(
            all_refusals_say(a, message),
            all_refusals_say(b, message),
        ),
    decreases b.len(),
{
    if b.len() == 0 {
        assert(a + b =~= a);
    } else {
        refusals_together(a, b.drop_last(), message);
        assert((a + b).drop_last() =~= a + b.drop_last());
    }
}

proof fn demands_together(a: Seq<Demand>, b: Seq<Demand>, message: Answers)
    ensures
        all_demands_say(a + b, message) == both(
            all_demands_say(a, message),
            all_demands_say(b, message),
        ),
    decreases b.len(),
{
    if b.len() == 0 {
        assert(a + b =~= a);
    } else {
        demands_together(a, b.drop_last(), message);
        assert((a + b).drop_last() =~= a + b.drop_last());
    }
}

proof fn statements_both(a: Statement, b: Statement, message: Answers)
    ensures
        statement_says(a.and(b), message) == both(
            statement_says(a, message),
            statement_says(b, message),
        ),
{
    wordings_together(a.wanted, b.wanted, message);
    refusals_together(a.unwanted, b.unwanted, message);
    demands_together(a.conds, b.conds, message);
}

proof fn statements_either(a: Seq<Statement>, b: Seq<Statement>, message: Answers)
    ensures
        statements_say(a + b, message) == either(
            statements_say(a, message),
            statements_say(b, message),
        ),
    decreases b.len(),
{
    if b.len() == 0 {
        assert(a + b =~= a);
    } else {
        statements_either(a, b.drop_last(), message);
        assert((a + b).drop_last() =~= a + b.drop_last());
    }
}

proof fn saying_follows(statements: Seq<Statement>, some: bool, message: Answers)
    requires
        all_ask(statements, some, message),
    ensures
        statements.len() > 0 ==> (statements_say(statements, message) is Some) == some,
        statements.len() == 0 ==> statements_say(statements, message) is None,
    decreases statements.len(),
{
    if statements.len() > 0 {
        let front = statements.drop_last();
        assert forall|i: int| 0 <= i < front.len() implies (statement_says(
            #[trigger] front[i],
            message,
        ) is Some) == some by {
            assert(front[i] == statements[i]);
        }
        saying_follows(front, some, message);
        assert((statement_says(statements[statements.len() - 1], message) is Some) == some);
    }
}

proof fn with_each_says(left: Statement, options: Seq<Statement>, some: bool, message: Answers)
    requires
        options.len() > 0,
        all_ask(options, some, message),
    ensures
        statements_say(with_each(left, options), message) == both(
            statement_says(left, message),
            statements_say(options, message),
        ),
        forall|i: int|
            0 <= i < options.len() ==> statement_says(
                #[trigger] with_each(left, options)[i],
                message,
            ) == both(statement_says(left, message), statement_says(options[i], message)),
    decreases options.len(),
{
    let all = with_each(left, options);
    assert forall|i: int| 0 <= i < options.len() implies statement_says(#[trigger] all[i], message)
        == both(statement_says(left, message), statement_says(options[i], message)) by {
        statements_both(left, options[i], message);
    }
    let front = options.drop_last();
    assert(all.drop_last() =~= with_each(left, front));
    assert(all.last() == left.and(options.last()));
    statements_both(left, options.last(), message);
    assert((statement_says(options[options.len() - 1], message) is Some) == some);
    if front.len() > 0 {
        assert forall|i: int| 0 <= i < front.len() implies (statement_says(
            #[trigger] front[i],
            message,
        ) is Some) == some by {
            assert(front[i] == options[i]);
        }
        with_each_says(left, front, some, message);
        saying_follows(front, some, message);
    } else {
        assert(front =~= Seq::<Statement>::empty());
        assert(statements_say(front, message) is None);
        assert(with_each(left, front) =~= Seq::<Statement>::empty());
    }
}

proof fn multiplied_says(
    left: Seq<Statement>,
    options: Seq<Statement>,
    some_left: bool,
    some: bool,
    message: Answers,
)
    requires
        options.len() > 0,
        all_ask(left, some_left, message),
        all_ask(options, some, message),
    ensures
        left.len() > 0 ==> statements_say(multiplied(left, options), message) == both(
            statements_say(left, message),
            statements_say(options, message),
        ),
        all_ask(multiplied(left, options), some_left || some, message),
    decreases left.len(),
{
    if left.len() > 0 {
        let front = left.drop_last();
        assert forall|i: int| 0 <= i < front.len() implies (statement_says(
            #[trigger] front[i],
            message,
        ) is Some) == some_left by {
            assert(front[i] == left[i]);
        }
        assert((statement_says(left[left.len() - 1], message) is Some) == some_left);
        multiplied_says(front, options, some_left, some, message);
        with_each_says(left.last(), options, some, message);
        let done = multiplied(front, options);
        let more = with_each(left.last(), options);
        statements_either(done, more, message);
        saying_follows(options, some, message);
        saying_follows(front, some_left, message);
        if front.len() == 0 {
            assert(front =~= Seq::<Statement>::empty());
            assert(done =~= Seq::<Statement>::empty());
            assert(statements_say(done, message) is None);
        }
        assert forall|i: int| 0 <= i < (done + more).len() implies (statement_says(
            #[trigger] (done + more)[i],
            message,
        ) is Some) == (some_left || some) by {
            if i < done.len() {
                assert((done + more)[i] == done[i]);
            } else {
                assert((done + more)[i] == more[i - done.len()]);
                assert((statement_says(options[i - done.len()], message) is Some) == some);
            }
        }
    }
}

proof fn statement_of_words_says(words: Wording, message: Answers)
    ensures
        statement_says(Statement::of_words(words), message) == wording_says(words, message),
{
    let alone = seq![words];
    assert(alone.drop_last() =~= Seq::<Wording>::empty());
    assert(all_wordings_say(alone.drop_last(), message) is None);
}

proof fn statement_of_condition_says(demand: Demand, message: Answers)
    ensures
        statement_says(Statement::of_condition(demand), message) == demand_says(demand, message),
{
    one_demand(seq![demand], message);
}

proof fn statement_of_refusal_says(column: Column, text: Phrase, message: Answers)
    ensures
        statement_says(Statement::of_refusal((column, text)), message) == phrase_says(
            column,
            text,
            true,
            message,
        ),
{
    let alone = seq![(column, text)];
    assert(alone.drop_last() =~= Seq::<(Column, Phrase)>::empty());
    assert(all_refusals_say(alone.drop_last(), message) is None);
}

proof fn one_statement(statement: Statement, message: Answers)
    ensures
        statements_say(seq![statement], message) == statement_says(statement, message),
{
    assert(seq![statement].drop_last() =~= Seq::<Statement>::empty());
    assert(statements_say(seq![statement].drop_last(), message) is None);
}

pub open spec fn all_words_ask(words: Seq<Wording>) -> bool {
    forall|i: int| 0 <= i < words.len() ==> (#[trigger] words[i]).asks_any()
}

pub open spec fn all_demands_ask(demands: Seq<Demand>, message: Answers) -> bool {
    forall|i: int|
        0 <= i < demands.len() ==> demand_says(#[trigger] demands[i], message) is Some
}

proof fn one_wording(words: Seq<Wording>, message: Answers)
    ensures
        words.len() == 1 ==> any_wordings_say(words, message) == wording_says(words[0], message),
{
    if words.len() == 1 {
        assert(words.drop_last() =~= Seq::<Wording>::empty());
        assert(any_wordings_say(words.drop_last(), message) is None);
    }
}

proof fn any_words_say(words: Seq<Wording>, message: Answers)
    requires
        all_words_ask(words),
    ensures
        statements_say(any_words(words), message) == any_wordings_say(words, message),
        all_ask(any_words(words), true, message),
{
    if words.len() == 1 {
        one_wording(words, message);
        statement_of_words_says(words[0], message);
        one_statement(Statement::of_words(words[0]), message);
        asking_words_say(words[0], message);
        assert(words[0].asks_any());
    } else if words.len() > 1 {
        let joint = Wording::Any(words);
        statement_of_words_says(joint, message);
        one_statement(Statement::of_words(joint), message);
        asking_words_say(joint, message);
        assert(words[words.len() - 1].asks_any());
        assert(joint.asks_any());
    }
}

proof fn demands_ask(demands: Seq<Demand>, message: Answers)
    requires
        all_demands_ask(demands, message),
        demands.len() > 0,
    ensures
        any_demands_say(demands, message) is Some,
{
    assert(demand_says(demands[demands.len() - 1], message) is Some);
}

proof fn any_conditions_say(demands: Seq<Demand>, message: Answers)
    requires
        all_demands_ask(demands, message),
    ensures
        statements_say(any_conditions(demands), message) == any_demands_say(demands, message),
        all_ask(any_conditions(demands), true, message),
{
    if demands.len() == 1 {
        one_demand(demands, message);
        statement_of_condition_says(demands[0], message);
        one_statement(Statement::of_condition(demands[0]), message);
        assert(demand_says(demands[0], message) is Some);
    } else if demands.len() > 1 {
        let joint = Demand::Any(demands);
        statement_of_condition_says(joint, message);
        one_statement(Statement::of_condition(joint), message);
        demands_ask(demands, message);
    }
}

/// What a message says to the sides of a choice.
pub open spec fn sides_say(sides: Sides, message: Answers) -> Option<bool> {
    either(
        either(
            either(any_wordings_say(sides.latin, message), any_wordings_say(sides.cjk, message)),
            any_demands_say(sides.conds, message),
        ),
        statements_say(sides.rest, message),
    )
}

pub open spec fn sides_ask(sides: Sides, message: Answers) -> bool {
    &&& all_words_ask(sides.latin)
    &&& all_words_ask(sides.cjk)
    &&& all_demands_ask(sides.conds, message)
    &&& all_ask(sides.rest, true, message)
}

pub open spec fn no_sides(sides: Sides) -> bool {
    sides.latin.len() == 0 && sides.cjk.len() == 0 && sides.conds.len() == 0 && sides.rest.len()
        == 0
}

proof fn pushed_words_ask(words: Seq<Wording>, more: Wording)
    requires
        all_words_ask(words),
        more.asks_any(),
    ensures
        all_words_ask(words.push(more)),
{
}

/// The statements of a query ask what the query asks.
proof fn statements_ask(shape: Shape, message: Answers)
    requires
        is_askable(shape),
        statements_of(shape) is Some,
    ensures
        statements_say(statements_of(shape)->0, message) == shape_says(shape, message),
        all_ask(statements_of(shape)->0, speaks(shape), message),
        speaks(shape) ==> statements_of(shape)->0.len() > 0,
    decreases shape,
{
    speaking_says(shape, message);
    match words_of_one_script(shape) {
        Some(words) => {
            worded_says(shape, message);
            statement_of_words_says(words, message);
            one_statement(Statement::of_words(words), message);
        },
        None => match shape {
            Shape::Lit(fact) => {
                match words_asked(fact.term) {
                    Some((column, text)) => {
                        assert(fact.negated) by {
                            if !fact.negated {
                                one_leaf_is_one_script(fact);
                            }
                        }
                        statement_of_refusal_says(column, text, message);
                        one_statement(Statement::of_refusal((column, text)), message);
                    },
                    None => {
                        statement_of_condition_says(Demand::Lit(fact), message);
                        one_statement(Statement::of_condition(Demand::Lit(fact)), message);
                    },
                }
            },
            Shape::All(parts) => {
                all_statements_ask(parts, message);
            },
            Shape::Any(parts) => {
                sides_of_choice_ask(parts, message);
                let sides = sides_of(parts)->0;
                any_words_say(sides.latin, message);
                any_words_say(sides.cjk, message);
                any_conditions_say(sides.conds, message);
                let latin = any_words(sides.latin);
                let cjk = any_words(sides.cjk);
                let conds = any_conditions(sides.conds);
                statements_either(latin, cjk, message);
                statements_either(latin + cjk, conds, message);
                statements_either(latin + cjk + conds, sides.rest, message);
                let out = latin + cjk + conds + sides.rest;
                assert forall|i: int| 0 <= i < out.len() implies (statement_says(
                    #[trigger] out[i],
                    message,
                ) is Some) == speaks(shape) by {
                    assert(!no_sides(sides));
                    let n1 = latin.len() as int;
                    let n2 = n1 + cjk.len();
                    let n3 = n2 + conds.len();
                    if i < n1 {
                        assert(out[i] == latin[i]);
                    } else if i < n2 {
                        assert(out[i] == cjk[i - n1]);
                    } else if i < n3 {
                        assert(out[i] == conds[i - n2]);
                    } else {
                        assert(out[i] == sides.rest[i - n3]);
                    }
                }
            },
        },
    }
}

proof fn one_leaf_is_one_script(fact: Fact)
    requires
        !fact.negated,
        words_asked(fact.term) is Some,
    ensures
        words_of_one_script(Shape::Lit(fact)) is Some,
{
    let words = worded(Shape::Lit(fact));
    assert(words.leaves().len() == 1);
    assert(words.is_one_script());
}

proof fn all_statements_ask(parts: Seq<Shape>, message: Answers)
    requires
        all_askable(parts),
        all_statements(parts) is Some,
    ensures
        statements_say(all_statements(parts)->0, message) == all_shapes_say(parts, message),
        all_ask(all_statements(parts)->0, any_speaks(parts), message),
        all_statements(parts)->0.len() > 0,
    decreases parts,
{
    if parts.len() == 0 {
        one_statement(Statement::empty(), message);
    } else {
        let front = parts.drop_last();
        all_statements_ask(front, message);
        statements_ask(parts.last(), message);
        let out = all_statements(front)->0;
        let options = statements_of(parts.last())->0;
        speaking_says(parts.last(), message);
        if options.len() > 0 {
            multiplied_says(out, options, any_speaks(front), speaks(parts.last()), message);
            super::statements::multiplied_length(out, options);
            assert(out.len() * options.len() > 0) by (nonlinear_arith)
                requires
                    out.len() > 0,
                    options.len() > 0,
            ;
        }
    }
}

proof fn sides_of_choice_ask(parts: Seq<Shape>, message: Answers)
    requires
        all_askable(parts),
        all_sides(parts),
        sides_of(parts) is Some,
    ensures
        sides_say(sides_of(parts)->0, message) == any_shapes_say(parts, message),
        sides_ask(sides_of(parts)->0, message),
        any_speaks(parts) == !no_sides(sides_of(parts)->0),
    decreases parts,
{
    if parts.len() > 0 {
        let front = parts.drop_last();
        let last = parts.last();
        sides_of_choice_ask(front, message);
        speaking_says(last, message);
        let sides = sides_of(front)->0;
        match words_of_one_script(last) {
            Some(words) => {
                worded_says(last, message);
                asking_words_say(words, message);
                if words.asks_any() {
                    if words.asks_cjk() {
                        assert(sides.cjk.push(words).drop_last() =~= sides.cjk);
                        pushed_words_ask(sides.cjk, words);
                    } else {
                        assert(sides.latin.push(words).drop_last() =~= sides.latin);
                        pushed_words_ask(sides.latin, words);
                    }
                }
            },
            None => match conditions_alone(last) {
                Some(demand) => {
                    lookups_ask_what_the_query_asks(last, message);
                    pruning_keeps_the_question(demand, message);
                    if let Some(kept) = without_idle(demand) {
                        assert(sides.conds.push(kept).drop_last() =~= sides.conds);
                    }
                },
                None => {
                    statements_ask(last, message);
                    let more = statements_of(last)->0;
                    statements_either(sides.rest, more, message);
                    let rest = sides.rest + more;
                    assert forall|i: int| 0 <= i < rest.len() implies (statement_says(
                        #[trigger] rest[i],
                        message,
                    ) is Some) == true by {
                        if i < sides.rest.len() {
                            assert(rest[i] == sides.rest[i]);
                        } else {
                            assert(rest[i] == more[i - sides.rest.len()]);
                        }
                    }
                },
            },
        }
    }
}

/// Everything a query is asked as finds exactly what the query asks for, for
/// every message there could be: `None` on both sides where nothing is asked.
pub proof fn a_query_is_asked_as_it_was_meant(tree: Tree, message: Answers)
    requires
        is_askable(pushed(tree, false, 0)),
    ensures
        statements_say(asked_as(pushed(tree, false, 0)), message) == tree_says(tree, message),
{
    let shape = pushed(tree, false, 0);
    pushing_nots_down_keeps_the_question(tree, false, 0, message);
    match statements_of(shape) {
        Some(_) => statements_ask(shape, message),
        None => {
            lookups_ask_what_the_query_asks(shape, message);
            pruning_keeps_the_question(looked_up(shape), message);
            match without_idle(looked_up(shape)) {
                Some(demand) => {
                    statement_of_condition_says(demand, message);
                    one_statement(Statement::of_condition(demand), message);
                },
                None => {
                    one_statement(Statement::empty(), message);
                },
            }
        },
    }
}

} // verus!
