//! What the words between the terms mean.
//!
//! A query is read in the order brackets, NOT, AND, OR. Here that is said of
//! queries as they are written, apart from how they are read: how each form
//! is written, and which messages it asks for.

use super::reader::{
    all_flat, all_held, any_flat, any_held, asked, closed_up, one, opposite, progress, shared_with,
    shared_with_each, tokens_ask, Bracket, Keyword, Progress, Sign,
};
use super::rebuilding::{fed, fed_in_two, fed_one, progress_is_fed};
use super::{Ask, Point, Tree};
use vstd::prelude::*;

verus! {

/// Whether a message meets each thing that can be asked of it.
pub type Answers = spec_fn(Ask) -> bool;

/// Whether a message meets a query.
pub open spec fn truth(tree: Tree, message: Answers) -> bool
    decreases tree,
{
    match tree {
        Tree::Clause(point) => message(point.term) != point.negated,
        Tree::Not(inner) => !truth(*inner, message),
        Tree::All(parts) => forall|i: int|
            0 <= i < parts.len() ==> truth(#[trigger] parts[i], message),
        Tree::Any(parts) => exists|i: int|
            0 <= i < parts.len() && truth(#[trigger] parts[i], message),
    }
}

pub open spec fn all_true(parts: Seq<Tree>, message: Answers) -> bool {
    forall|i: int| 0 <= i < parts.len() ==> truth(#[trigger] parts[i], message)
}

pub open spec fn any_true(parts: Seq<Tree>, message: Answers) -> bool {
    exists|i: int| 0 <= i < parts.len() && truth(#[trigger] parts[i], message)
}

// ---------------------------------------------------------------------
// Queries as they are written
// ---------------------------------------------------------------------
/// A query as it is written.
pub enum Written {
    Word(Point),
    /// `( .. )`, with an operator in front or none: `from:( .. )`.
    Bracket(Option<Seq<char>>, Box<Written>),
    /// `NOT x`, or with a dash `-x`.
    Not(bool, Box<Written>),
    /// `x y`, or with the word between them `x AND y`.
    Both(Box<Written>, bool, Box<Written>),
    /// `x OR y`.
    Either(Box<Written>, Box<Written>),
}

/// How tightly a form binds: the lower, the tighter.
pub open spec fn level(w: Written) -> int {
    match w {
        Written::Word(_) => 0,
        Written::Bracket(_, _) => 0,
        Written::Not(_, _) => 1,
        Written::Both(_, _, _) => 2,
        Written::Either(_, _) => 3,
    }
}

/// Whether brackets stand wherever a form holds one that binds less tightly.
pub open spec fn is_bracketed(w: Written) -> bool
    decreases w,
{
    match w {
        Written::Word(_) => true,
        Written::Bracket(_, inner) => is_bracketed(*inner),
        Written::Not(_, inner) => is_bracketed(*inner) && level(*inner) <= 1,
        Written::Both(a, _, b) => is_bracketed(*a) && is_bracketed(*b) && level(*a) <= 2 && level(
            *b,
        ) <= 1,
        Written::Either(a, b) => is_bracketed(*a) && is_bracketed(*b) && level(*b) <= 2,
    }
}

/// The tokens a query is written with.
pub open spec fn written_as(w: Written) -> Seq<Sign>
    decreases w,
{
    match w {
        Written::Word(point) => seq![Sign::Clause(point)],
        Written::Bracket(key, inner) => (match key {
            Some(k) => seq![Sign::Shared(k), Sign::Open],
            None => seq![Sign::Open],
        }) + written_as(*inner) + seq![Sign::Close],
        Written::Not(dash, inner) => seq![
            if dash {
                Sign::Minus
            } else {
                Sign::Keyword(Keyword::Not)
            },
        ] + written_as(*inner),
        Written::Both(a, word, b) => written_as(*a) + (if word {
            seq![Sign::Keyword(Keyword::And)]
        } else {
            Seq::empty()
        }) + written_as(*b),
        Written::Either(a, b) => written_as(*a) + seq![Sign::Keyword(Keyword::Or)] + written_as(*b),
    }
}

/// A message as a bracket with an operator in front sees it: a word inside
/// asks what the operator makes of it, where it makes anything of it.
pub open spec fn through(key: Seq<char>, message: Answers) -> Answers {
    |ask: Ask|
        match ask {
            Ask::Text(text) => match asked(key, text.value, text.exact) {
                Some(term) => message(term),
                None => message(ask),
            },
            _ => message(ask),
        }
}

/// Whether a message is one that a query, as it is written, asks for.
pub open spec fn means(w: Written, message: Answers) -> bool
    decreases w,
{
    match w {
        Written::Word(point) => message(point.term) != point.negated,
        Written::Bracket(Some(key), inner) => means(*inner, through(key, message)),
        Written::Bracket(None, inner) => means(*inner, message),
        Written::Not(_, inner) => !means(*inner, message),
        Written::Both(a, _, b) => means(*a, message) && means(*b, message),
        Written::Either(a, b) => means(*a, message) || means(*b, message),
    }
}

// ---------------------------------------------------------------------
// Trees
// ---------------------------------------------------------------------
/// Whether no group in a tree is empty.
pub open spec fn is_solid(tree: Tree) -> bool
    decreases tree,
{
    match tree {
        Tree::Clause(_) => true,
        Tree::Not(inner) => is_solid(*inner),
        Tree::All(parts) => parts.len() > 0 && forall|i: int|
            0 <= i < parts.len() ==> is_solid(#[trigger] parts[i]),
        Tree::Any(parts) => parts.len() > 0 && forall|i: int|
            0 <= i < parts.len() ==> is_solid(#[trigger] parts[i]),
    }
}

pub open spec fn all_solid(parts: Seq<Tree>) -> bool {
    forall|i: int| 0 <= i < parts.len() ==> is_solid(#[trigger] parts[i])
}

proof fn a_group_is_its_parts(tree: Tree, m: Answers)
    ensures
        match tree {
            Tree::All(parts) => truth(tree, m) == all_true(parts, m),
            Tree::Any(parts) => truth(tree, m) == any_true(parts, m),
            _ => true,
        },
{
}

proof fn together(a: Seq<Tree>, b: Seq<Tree>)
    ensures
        all_solid(a) && all_solid(b) ==> all_solid(a + b),
        forall|m: Answers| #[trigger]
            all_true(a + b, m) == (all_true(a, m) && all_true(b, m)),
        forall|m: Answers| #[trigger]
            any_true(a + b, m) == (any_true(a, m) || any_true(b, m)),
{
    let ab = a + b;
    assert forall|i: int| 0 <= i < ab.len() implies #[trigger] ab[i] == if i < a.len() {
        a[i]
    } else {
        b[i - a.len()]
    } by {}
    assert forall|i: int| 0 <= i < a.len() implies #[trigger] a[i] == ab[i] by {}
    assert forall|i: int| 0 <= i < b.len() implies #[trigger] b[i] == ab[i + a.len()] by {}
    assert forall|m: Answers| #[trigger] all_true(ab, m) == (all_true(a, m) && all_true(b, m)) by {
        if all_true(ab, m) {
            assert forall|i: int| 0 <= i < a.len() implies truth(#[trigger] a[i], m) by {
                assert(truth(ab[i], m));
            }
            assert forall|i: int| 0 <= i < b.len() implies truth(#[trigger] b[i], m) by {
                assert(truth(ab[i + a.len()], m));
            }
        }
    }
    assert forall|m: Answers| #[trigger] any_true(ab, m) == (any_true(a, m) || any_true(b, m)) by {
        if any_true(a, m) {
            let i = choose|i: int| 0 <= i < a.len() && truth(#[trigger] a[i], m);
            assert(truth(ab[i], m));
        }
        if any_true(b, m) {
            let i = choose|i: int| 0 <= i < b.len() && truth(#[trigger] b[i], m);
            assert(truth(ab[i + a.len()], m));
        }
        if any_true(ab, m) {
            let i = choose|i: int| 0 <= i < ab.len() && truth(#[trigger] ab[i], m);
            if i < a.len() {
                assert(truth(a[i], m));
            } else {
                assert(truth(b[i - a.len()], m));
            }
        }
    }
}

proof fn alone(tree: Tree)
    ensures
        forall|m: Answers| #[trigger] all_true(seq![tree], m) == truth(tree, m),
        forall|m: Answers| #[trigger] any_true(seq![tree], m) == truth(tree, m),
        is_solid(tree) ==> all_solid(seq![tree]),
{
    assert(seq![tree][0] == tree);
    assert forall|m: Answers| #[trigger] all_true(seq![tree], m) == truth(tree, m) by {
        assert(all_true(seq![tree], m) ==> truth(seq![tree][0], m));
    }
    assert forall|m: Answers| #[trigger] any_true(seq![tree], m) == truth(tree, m) by {
        if truth(tree, m) {
            assert(truth(seq![tree][0], m));
        }
    }
}

proof fn flattening_all(parts: Seq<Tree>)
    requires
        all_solid(parts),
    ensures
        all_solid(all_flat(parts)),
        parts.len() > 0 ==> all_flat(parts).len() > 0,
        forall|m: Answers| #[trigger] all_true(all_flat(parts), m) == all_true(parts, m),
    decreases parts.len(),
{
    if parts.len() > 0 {
        let front = parts.drop_last();
        assert forall|i: int| 0 <= i < front.len() implies is_solid(#[trigger] front[i]) by {
            assert(front[i] == parts[i]);
        }
        flattening_all(front);
        let last = parts.last();
        assert(is_solid(parts[parts.len() - 1]));
        let more = match last {
            Tree::All(inner) => inner,
            other => seq![other],
        };
        alone(last);
        together(all_flat(front), more);
        together(front, seq![last]);
        assert(front + seq![last] =~= parts);
        assert forall|m: Answers| #[trigger]
            all_true(all_flat(parts), m) == all_true(parts, m) by {
            assert(all_true(more, m) == truth(last, m)) by {
                assert(all_true(seq![last], m) == truth(last, m));
            }
            assert(all_true(all_flat(front) + more, m) == (all_true(all_flat(front), m)
                && all_true(more, m)));
            assert(all_true(front + seq![last], m) == (all_true(front, m) && all_true(
                seq![last],
                m,
            )));
        }
    }
}

proof fn flattening_any(parts: Seq<Tree>)
    requires
        all_solid(parts),
    ensures
        all_solid(any_flat(parts)),
        parts.len() > 0 ==> any_flat(parts).len() > 0,
        forall|m: Answers| #[trigger] any_true(any_flat(parts), m) == any_true(parts, m),
    decreases parts.len(),
{
    if parts.len() > 0 {
        let front = parts.drop_last();
        assert forall|i: int| 0 <= i < front.len() implies is_solid(#[trigger] front[i]) by {
            assert(front[i] == parts[i]);
        }
        flattening_any(front);
        let last = parts.last();
        assert(is_solid(parts[parts.len() - 1]));
        let more = match last {
            Tree::Any(inner) => inner,
            other => seq![other],
        };
        alone(last);
        together(any_flat(front), more);
        together(front, seq![last]);
        assert(front + seq![last] =~= parts);
        assert forall|m: Answers| #[trigger]
            any_true(any_flat(parts), m) == any_true(parts, m) by {
            assert(any_true(more, m) == truth(last, m)) by {
                assert(any_true(seq![last], m) == truth(last, m));
            }
            assert(any_true(any_flat(front) + more, m) == (any_true(any_flat(front), m)
                || any_true(more, m)));
            assert(any_true(front + seq![last], m) == (any_true(front, m) || any_true(
                seq![last],
                m,
            )));
        }
    }
}

/// Parts that all have to hold ask for what meets every one of them, and parts
/// any of which may hold for what meets one.
pub proof fn tidying_keeps_the_question(parts: Seq<Tree>)
    requires
        all_solid(parts),
        parts.len() > 0,
    ensures
        all_held(parts) is Some && any_held(parts) is Some,
        is_solid(all_held(parts)->0) && is_solid(any_held(parts)->0),
        forall|m: Answers| #[trigger] truth(all_held(parts)->0, m) == all_true(parts, m),
        forall|m: Answers| #[trigger] truth(any_held(parts)->0, m) == any_true(parts, m),
{
    flattening_all(parts);
    flattening_any(parts);
    let all = all_flat(parts);
    let any = any_flat(parts);
    if all.len() == 1 {
        assert(all =~= seq![all[0]]);
        alone(all[0]);
    }
    if any.len() == 1 {
        assert(any =~= seq![any[0]]);
        alone(any[0]);
    }
    assert forall|m: Answers| #[trigger] truth(all_held(parts)->0, m) == all_true(parts, m) by {
        assert(all_true(all, m) == all_true(parts, m));
        if all.len() == 1 {
            assert(all_true(seq![all[0]], m) == truth(all[0], m));
        } else {
            a_group_is_its_parts(Tree::All(all), m);
        }
    }
    assert forall|m: Answers| #[trigger] truth(any_held(parts)->0, m) == any_true(parts, m) by {
        assert(any_true(any, m) == any_true(parts, m));
        if any.len() == 1 {
            assert(any_true(seq![any[0]], m) == truth(any[0], m));
        } else {
            a_group_is_its_parts(Tree::Any(any), m);
        }
    }
}

/// The opposite of a query asks for exactly the messages that it does not.
pub proof fn the_opposite_is_the_rest(tree: Tree, message: Answers)
    ensures
        truth(opposite(tree), message) == !truth(tree, message),
        is_solid(tree) ==> is_solid(opposite(tree)),
{
}

proof fn shared_is_each(key: Seq<char>, parts: Seq<Tree>)
    ensures
        shared_with_each(key, parts).len() == parts.len(),
        forall|i: int|
            0 <= i < parts.len() ==> #[trigger] shared_with_each(key, parts)[i] == shared_with(
                key,
                parts[i],
            ),
    decreases parts.len(),
{
    if parts.len() > 0 {
        let front = parts.drop_last();
        shared_is_each(key, front);
        assert forall|i: int| 0 <= i < parts.len() implies #[trigger] shared_with_each(
            key,
            parts,
        )[i] == shared_with(key, parts[i]) by {
            if i < front.len() {
                assert(shared_with_each(key, front)[i] == shared_with(key, front[i]));
            }
        }
    }
}

/// An operator shared by a bracket asks every word in it what it would ask the
/// word alone, and changes nothing of what is an operator already.
pub proof fn sharing_asks_each_word(key: Seq<char>, tree: Tree, message: Answers)
    ensures
        truth(shared_with(key, tree), message) == truth(tree, through(key, message)),
        is_solid(tree) ==> is_solid(shared_with(key, tree)),
    decreases tree,
{
    match tree {
        Tree::Clause(point) => {
            let seen = through(key, message);
            assert(seen(point.term) == match point.term {
                Ask::Text(text) => match asked(key, text.value, text.exact) {
                    Some(term) => message(term),
                    None => message(point.term),
                },
                _ => message(point.term),
            });
        },
        Tree::Not(inner) => sharing_asks_each_word(key, *inner, message),
        Tree::All(parts) => {
            shared_is_each(key, parts);
            let out = shared_with_each(key, parts);
            a_group_is_its_parts(shared_with(key, tree), message);
            a_group_is_its_parts(tree, through(key, message));
            assert forall|i: int| 0 <= i < parts.len() implies truth(#[trigger] out[i], message)
                == truth(parts[i], through(key, message)) && (is_solid(parts[i]) ==> is_solid(
                out[i],
            )) by {
                sharing_asks_each_word(key, parts[i], message);
            }
            if truth(tree, through(key, message)) {
                assert forall|i: int| 0 <= i < out.len() implies truth(
                    #[trigger] out[i],
                    message,
                ) by {
                    assert(truth(parts[i], through(key, message)));
                }
            }
            if all_true(out, message) {
                assert forall|i: int| 0 <= i < parts.len() implies truth(
                    #[trigger] parts[i],
                    through(key, message),
                ) by {
                    assert(truth(out[i], message));
                }
            }
        },
        Tree::Any(parts) => {
            shared_is_each(key, parts);
            let out = shared_with_each(key, parts);
            a_group_is_its_parts(shared_with(key, tree), message);
            a_group_is_its_parts(tree, through(key, message));
            assert forall|i: int| 0 <= i < parts.len() implies truth(#[trigger] out[i], message)
                == truth(parts[i], through(key, message)) && (is_solid(parts[i]) ==> is_solid(
                out[i],
            )) by {
                sharing_asks_each_word(key, parts[i], message);
            }
            if truth(tree, through(key, message)) {
                let i = choose|i: int|
                    0 <= i < parts.len() && truth(#[trigger] parts[i], through(key, message));
                assert(truth(out[i], message));
            }
            if any_true(out, message) {
                let i = choose|i: int| 0 <= i < out.len() && truth(#[trigger] out[i], message);
                assert(truth(parts[i], through(key, message)));
            }
        },
    }
}

// ---------------------------------------------------------------------
// Reading what is written
// ---------------------------------------------------------------------
/// One term, a bracket or the exclusion of one, read: one part more.
#[verifier::rlimit(40)]
proof fn one_term(w: Written, q: Progress) -> (t: Tree)
    requires
        is_bracketed(w),
        level(w) <= 1,
        q.open.len() > 0,
        q.sharing is None,
    ensures
        ({
            let r = fed(q, written_as(w));
            &&& r.open == q.open.drop_last().push(q.open.last().with(Some(t)))
            &&& !r.excluding
            &&& r.sharing is None
        }),
        is_solid(t),
        forall|m: Answers| #[trigger] truth(t, m) == (means(w, m) != q.excluding),
    decreases w, 0nat,
{
    match w {
        Written::Word(point) => {
            fed_one(q, Sign::Clause(point));
            let tree = Tree::Clause(point);
            let t = if q.excluding {
                opposite(tree)
            } else {
                tree
            };
            t
        },
        Written::Not(dash, inner) => {
            let sign = if dash {
                Sign::Minus
            } else {
                Sign::Keyword(Keyword::Not)
            };
            fed_in_two(q, seq![sign], written_as(*inner));
            fed_one(q, sign);
            let next = q.next(sign);
            let t = one_term(*inner, next);
            assert forall|m: Answers| #[trigger] truth(t, m) == (means(w, m) != q.excluding) by {
                assert(truth(t, m) == (means(*inner, m) != next.excluding));
            }
            t
        },
        Written::Bracket(key, inner) => {
            let front = match key {
                Some(k) => seq![Sign::Shared(k), Sign::Open],
                None => seq![Sign::Open],
            };
            let inside = written_as(*inner);
            fed_in_two(q, front + inside, seq![Sign::Close]);
            fed_in_two(q, front, inside);
            let fresh = Bracket::opened(q.excluding, key);
            let q2 = fed(q, front);
            match key {
                Some(k) => {
                    fed_in_two(q, seq![Sign::Shared(k)], seq![Sign::Open]);
                    assert(front =~= seq![Sign::Shared(k)] + seq![Sign::Open]);
                    fed_one(q, Sign::Shared(k));
                    fed_one(q.next(Sign::Shared(k)), Sign::Open);
                },
                None => {
                    fed_one(q, Sign::Open);
                },
            }
            assert(q2.open == q.open.push(fresh) && !q2.excluding && q2.sharing is None);
            let (alternatives, parts) = one_choice(*inner, q2);
            let q3 = fed(q2, inside);
            let done = Bracket { alternatives: fresh.alternatives + alternatives, parts, ..fresh };
            assert(q2.open.drop_last() =~= q.open);
            assert(q3.open == q.open.push(done));
            fed_one(q3, Sign::Close);
            closing(done, alternatives, parts);
            let inner_tree = done.inside()->0;
            let t = done.closed()->0;
            assert(q3.open.drop_last() =~= q.open);
            assert forall|m: Answers| #[trigger] truth(t, m) == (means(w, m) != q.excluding) by {
                match key {
                    Some(k) => {
                        sharing_asks_each_word(k, inner_tree, m);
                        the_opposite_is_the_rest(shared_with(k, inner_tree), m);
                        let n = through(k, m);
                        assert(truth(inner_tree, n) == (any_true(alternatives, n) || all_true(
                            parts,
                            n,
                        )));
                        assert((any_true(alternatives, n) || all_true(parts, n)) == means(
                            *inner,
                            n,
                        ));
                    },
                    None => {
                        the_opposite_is_the_rest(inner_tree, m);
                        assert(truth(inner_tree, m) == (any_true(alternatives, m) || all_true(
                            parts,
                            m,
                        )));
                        assert((any_true(alternatives, m) || all_true(parts, m)) == means(
                            *inner,
                            m,
                        ));
                    },
                }
            }
            assert(is_solid(t)) by {
                let m: Answers = |a: Ask| true;
                if let Some(k) = key {
                    sharing_asks_each_word(k, inner_tree, m);
                    the_opposite_is_the_rest(shared_with(k, inner_tree), m);
                }
                the_opposite_is_the_rest(inner_tree, m);
            }
            t
        },
        _ => Tree::Clause(arbitrary()),
    }
}

/// What a bracket asks once it is closed, before it is excluded or shared.
proof fn closing(done: Bracket, alternatives: Seq<Tree>, parts: Seq<Tree>)
    requires
        done.alternatives == alternatives,
        done.parts == parts,
        parts.len() > 0,
        all_solid(parts),
        all_solid(alternatives),
    ensures
        done.inside() is Some,
        done.closed() is Some,
        is_solid(done.inside()->0),
        forall|m: Answers| #[trigger]
            truth(done.inside()->0, m) == (any_true(alternatives, m) || all_true(parts, m)),
{
    tidying_keeps_the_question(parts);
    let last = all_held(parts)->0;
    alone(last);
    together(alternatives, seq![last]);
    let all = alternatives + seq![last];
    assert(done.after_or().alternatives == all);
    tidying_keeps_the_question(all);
    assert forall|m: Answers| #[trigger] truth(done.inside()->0, m) == (any_true(alternatives, m)
        || all_true(parts, m)) by {
        assert(any_true(all, m) == (any_true(alternatives, m) || any_true(seq![last], m)));
        assert(any_true(seq![last], m) == truth(last, m));
        assert(truth(any_held(all)->0, m) == any_true(all, m));
        assert(truth(all_held(parts)->0, m) == all_true(parts, m));
    }
}

/// Terms side by side, read: as many parts more, all of which have to hold.
proof fn one_run(w: Written, q: Progress) -> (ts: Seq<Tree>)
    requires
        is_bracketed(w),
        level(w) <= 2,
        q.open.len() > 0,
        q.sharing is None,
        !q.excluding,
    ensures
        ({
            let r = fed(q, written_as(w));
            let last = q.open.last();
            &&& r.open == q.open.drop_last().push(Bracket { parts: last.parts + ts, ..last })
            &&& !r.excluding
            &&& r.sharing is None
        }),
        ts.len() > 0,
        all_solid(ts),
        forall|m: Answers| #[trigger] all_true(ts, m) == means(w, m),
    decreases w, 1nat,
{
    match w {
        Written::Both(a, word, b) => {
            let ts = one_run(*a, q);
            let q1 = fed(q, written_as(*a));
            let and = Sign::Keyword(Keyword::And);
            let between = if word {
                seq![and]
            } else {
                Seq::empty()
            };
            fed_in_two(q, written_as(*a) + between, written_as(*b));
            fed_in_two(q, written_as(*a), between);
            if word {
                fed_one(q1, and);
            }
            let q2 = fed(q1, between);
            assert(q2.open == q1.open && !q2.excluding && q2.sharing is None);
            let t = one_term(*b, q2);
            let all = ts + seq![t];
            alone(t);
            together(ts, seq![t]);
            assert forall|m: Answers| #[trigger] all_true(all, m) == means(w, m) by {
                assert(all_true(ts, m) == means(*a, m));
                assert(all_true(seq![t], m) == truth(t, m));
                assert(truth(t, m) == (means(*b, m) != false));
            }
            let last = q.open.last();
            assert(q1.open.drop_last() =~= q.open.drop_last());
            assert(last.parts + ts + seq![t] =~= last.parts + all);
            all
        },
        _ => {
            let t = one_term(w, q);
            alone(t);
            assert forall|m: Answers| #[trigger] all_true(seq![t], m) == means(w, m) by {
                assert(truth(t, m) == (means(w, m) != q.excluding));
            }
            seq![t]
        },
    }
}

/// Alternatives, read into a bracket that nothing is under way in.
proof fn one_choice(w: Written, q: Progress) -> (r: (Seq<Tree>, Seq<Tree>))
    requires
        is_bracketed(w),
        q.open.len() > 0,
        q.sharing is None,
        !q.excluding,
        q.open.last().parts.len() == 0,
    ensures
        ({
            let now = fed(q, written_as(w));
            let last = q.open.last();
            &&& now.open == q.open.drop_last().push(
                Bracket { alternatives: last.alternatives + r.0, parts: r.1, ..last },
            )
            &&& !now.excluding
            &&& now.sharing is None
        }),
        r.1.len() > 0,
        all_solid(r.0),
        all_solid(r.1),
        forall|m: Answers| (#[trigger] any_true(r.0, m) || all_true(r.1, m)) == means(w, m),
    decreases w, 2nat,
{
    let last = q.open.last();
    match w {
        Written::Either(a, b) => {
            let (alternatives, parts) = one_choice(*a, q);
            let q1 = fed(q, written_as(*a));
            let or = Sign::Keyword(Keyword::Or);
            fed_in_two(q, written_as(*a) + seq![or], written_as(*b));
            fed_in_two(q, written_as(*a), seq![or]);
            fed_one(q1, or);
            let q2 = q1.next(or);
            tidying_keeps_the_question(parts);
            let side = all_held(parts)->0;
            let more = alternatives + seq![side];
            alone(side);
            together(alternatives, seq![side]);
            assert(q1.open.drop_last() =~= q.open.drop_last());
            let left = q1.open.last().after_or();
            assert(q2.open == q.open.drop_last().push(left));
            let ts = one_run(*b, q2);
            assert(q2.open.drop_last() =~= q.open.drop_last());
            assert(left.parts + ts =~= ts);
            assert(left.alternatives =~= last.alternatives + more);
            assert forall|m: Answers| (#[trigger] any_true(more, m) || all_true(ts, m)) == means(
                w,
                m,
            ) by {
                assert((any_true(alternatives, m) || all_true(parts, m)) == means(*a, m));
                assert(any_true(more, m) == (any_true(alternatives, m) || any_true(
                    seq![side],
                    m,
                )));
                assert(any_true(seq![side], m) == truth(side, m));
                assert(truth(all_held(parts)->0, m) == all_true(parts, m));
                assert(all_true(ts, m) == means(*b, m));
            }
            (more, ts)
        },
        _ => {
            let ts = one_run(w, q);
            let none = Seq::<Tree>::empty();
            assert(last.parts + ts =~= ts);
            assert(last.alternatives + none =~= last.alternatives);
            assert forall|m: Answers| (#[trigger] any_true(none, m) || all_true(ts, m)) == means(
                w,
                m,
            ) by {
                assert(all_true(ts, m) == means(w, m));
            }
            (none, ts)
        },
    }
}

/// A query asks for the messages it says, however it is written: both where
/// two terms stand side by side, with the word AND between them or without;
/// either where OR stands between them; all but those that a term asks for
/// where NOT or a dash stands before it; brackets first, then NOT, then AND,
/// then OR; and an operator before a bracket asks each word inside.
pub proof fn a_query_asks_for_what_it_says(w: Written, message: Answers)
    requires
        is_bracketed(w),
    ensures
        tokens_ask(written_as(w)) matches Some(tree) && truth(tree, message) == means(w, message),
{
    let start = Progress::start();
    let tokens = written_as(w);
    progress_is_fed(tokens);
    let (alternatives, parts) = one_choice(w, start);
    let fresh = Bracket::opened(false, None);
    let done = Bracket { alternatives: fresh.alternatives + alternatives, parts, ..fresh };
    assert(fresh.alternatives + alternatives =~= alternatives);
    closing(done, alternatives, parts);
    let open = progress(tokens).open;
    assert(open =~= seq![done]);
    assert(done.with(None) =~= done);
    assert(open.drop_last() =~= Seq::<Bracket>::empty());
    reveal_with_fuel(closed_up, 2);
    assert(truth(done.inside()->0, message) == (any_true(alternatives, message) || all_true(
        parts,
        message,
    )));
    assert((any_true(alternatives, message) || all_true(parts, message)) == means(w, message));
}

/// The word AND between two terms says what a space says: wherever it does not
/// stand right behind a NOT or a dash, taking it out changes nothing.
pub proof fn and_says_what_a_space_says(before: Seq<Sign>, after: Seq<Sign>)
    requires
        before.len() > 0 ==> !(before.last() is Minus) && before.last() != Sign::Keyword(
            Keyword::Not,
        ) && !(before.last() is Shared),
    ensures
        tokens_ask(before + seq![Sign::Keyword(Keyword::And)] + after) == tokens_ask(
            before + after,
        ),
{
    let and = Sign::Keyword(Keyword::And);
    progress_is_fed(before + seq![and] + after);
    progress_is_fed(before + after);
    let start = Progress::start();
    fed_in_two(start, before + seq![and], after);
    fed_in_two(start, before, seq![and]);
    fed_in_two(start, before, after);
    let now = fed(start, before);
    fed_one(now, and);
    assert(!now.excluding);
    assert(now.next(and) =~= now);
}

/// A keyword with nothing after it yet changes nothing: the results do not
/// flash empty while the next word is being typed. Nor does one with nothing
/// before it.
pub proof fn a_dangling_keyword_says_nothing(tokens: Seq<Sign>, keyword: Keyword)
    ensures
        tokens_ask(tokens.push(Sign::Keyword(keyword))) == tokens_ask(tokens),
        keyword != Keyword::Not ==> tokens_ask(seq![Sign::Keyword(keyword)] + tokens) == tokens_ask(
            tokens,
        ),
{
    let sign = Sign::Keyword(keyword);
    let more = tokens.push(sign);
    assert(more.drop_last() =~= tokens);
    let now = progress(tokens);
    open_brackets_stay_open(tokens);
    let last = now.open.last();
    if keyword == Keyword::Or {
        let after = last.after_or();
        assert(now.next(sign).open == now.open.drop_last().push(after));
        assert(now.next(sign).open.drop_last() =~= now.open.drop_last());
        assert(last.with(None) =~= last);
        assert(after.with(None) =~= after);
        assert(all_flat(after.parts) =~= Seq::<Tree>::empty());
        assert(after.after_or().alternatives =~= after.alternatives);
        assert(after.closed() == last.closed());
    } else {
        assert(now.next(sign).open == now.open);
    }
    if keyword != Keyword::Not {
        progress_is_fed(seq![sign] + tokens);
        progress_is_fed(tokens);
        let start = Progress::start();
        fed_in_two(start, seq![sign], tokens);
        fed_one(start, sign);
        let fresh = Bracket::opened(false, None);
        assert(all_flat(fresh.parts) =~= Seq::<Tree>::empty());
        assert(fresh.after_or() =~= fresh);
        assert(start.open.drop_last().push(fresh) =~= start.open);
        assert(start.next(sign) =~= start);
    }
}

proof fn open_brackets_stay_open(tokens: Seq<Sign>)
    ensures
        progress(tokens).open.len() > 0,
    decreases tokens.len(),
{
    if tokens.len() > 0 {
        open_brackets_stay_open(tokens.drop_last());
    }
}

/// A bracket that was never closed closes at the end.
pub proof fn an_open_bracket_closes_at_the_end(tokens: Seq<Sign>)
    requires
        progress(tokens).open.len() > 1,
    ensures
        tokens_ask(tokens.push(Sign::Close)) == tokens_ask(tokens),
{
    let more = tokens.push(Sign::Close);
    assert(more.drop_last() =~= tokens);
    let now = progress(tokens);
    let done = now.open.last();
    let outer = now.open.drop_last();
    assert(done.with(None) =~= done);
    let next = now.next(Sign::Close);
    assert(next.open == outer.drop_last().push(outer.last().with(done.closed())));
    assert(next.open.drop_last() =~= outer.drop_last());
    let after = outer.last().with(done.closed());
    assert(after.with(None) =~= after);
    reveal_with_fuel(closed_up, 3);
}

/// Excluding twice is not excluding at all.
pub proof fn two_nots_are_none(before: Seq<Sign>, first: bool, second: bool, after: Seq<Sign>)
    ensures
        ({
            let not = |dash: bool|
                if dash {
                    Sign::Minus
                } else {
                    Sign::Keyword(Keyword::Not)
                };
            tokens_ask(before + seq![not(first), not(second)] + after) == tokens_ask(before + after)
        }),
{
    let not = |dash: bool|
        if dash {
            Sign::Minus
        } else {
            Sign::Keyword(Keyword::Not)
        };
    let two = seq![not(first), not(second)];
    progress_is_fed(before + two + after);
    progress_is_fed(before + after);
    let start = Progress::start();
    fed_in_two(start, before + two, after);
    fed_in_two(start, before, two);
    fed_in_two(start, before, after);
    let now = fed(start, before);
    assert(two =~= seq![not(first)] + seq![not(second)]);
    fed_in_two(now, seq![not(first)], seq![not(second)]);
    fed_one(now, not(first));
    fed_one(now.next(not(first)), not(second));
    assert(now.next(not(first)).next(not(second)) =~= now);
}

} // verus!
