//! Putting things in order.
//!
//! An order is the positions of the things, first to last. Every order here
//! is stable: things that compare alike keep the order they came in.

use vstd::prelude::*;

verus! {

/// Whether every position below `n` is in an order, once.
pub open spec fn is_all_positions(order: Seq<int>, n: int) -> bool {
    &&& order.len() == n
    &&& forall|a: int| 0 <= a < order.len() ==> 0 <= #[trigger] order[a] < n
    &&& forall|a: int, b: int|
        0 <= a < b < order.len() ==> #[trigger] order[a] != #[trigger] order[b]
}

/// Whether an order puts what comes before first, and things that compare
/// alike in the order they came.
pub open spec fn is_in_order(order: Seq<int>, before: spec_fn(int, int) -> bool) -> bool {
    forall|a: int, b: int|
        0 <= a < b < order.len() ==> before(#[trigger] order[a], #[trigger] order[b]) || (!before(
            order[b],
            order[a],
        ) && order[a] < order[b])
}

pub open spec fn positions(order: Seq<usize>) -> Seq<int> {
    order.map_values(|i: usize| i as int)
}

/// The stable order of some things.
pub open spec fn is_stable_order(
    order: Seq<usize>,
    n: int,
    before: spec_fn(int, int) -> bool,
) -> bool {
    is_all_positions(positions(order), n) && is_in_order(positions(order), before)
}

/// A comparison that can be sorted by: nothing comes before itself, and where
/// neither a before b nor b before c, not a before c.
pub open spec fn is_weak_order(before: spec_fn(int, int) -> bool) -> bool {
    &&& forall|a: int| !#[trigger] before(a, a)
    &&& forall|a: int, b: int, c: int|
        !#[trigger] before(a, b) && !#[trigger] before(b, c) ==> !before(a, c)
    &&& forall|a: int, b: int| #[trigger] before(a, b) ==> !before(b, a)
}

/// A position added where it belongs.
pub proof fn inserted_in_order(
    order: Seq<int>,
    at: int,
    i: int,
    before: spec_fn(int, int) -> bool,
)
    requires
        is_all_positions(order, i),
        is_in_order(order, before),
        is_weak_order(before),
        0 <= at <= order.len(),
        forall|k: int| at <= k < order.len() ==> before(i, #[trigger] order[k]),
        at > 0 ==> !before(i, order[at - 1]),
    ensures
        is_all_positions(order.insert(at, i), i + 1),
        is_in_order(order.insert(at, i), before),
{
    let more = order.insert(at, i);
    assert forall|a: int| 0 <= a < more.len() implies 0 <= #[trigger] more[a] < i + 1 by {
        if a < at {
            assert(more[a] == order[a]);
        } else if a > at {
            assert(more[a] == order[a - 1]);
        }
    }
    assert forall|a: int, b: int| 0 <= a < b < more.len() implies #[trigger] more[a]
        != #[trigger] more[b] by {
        let x = if a < at {
            a
        } else {
            a - 1
        };
        let y = if b < at {
            b
        } else {
            b - 1
        };
        if a != at {
            assert(more[a] == order[x]);
        }
        if b != at {
            assert(more[b] == order[y]);
        }
    }
    assert forall|a: int, b: int| 0 <= a < b < more.len() implies before(
        #[trigger] more[a],
        #[trigger] more[b],
    ) || (!before(more[b], more[a]) && more[a] < more[b]) by {
        if a == at {
            assert(more[b] == order[b - 1]);
        } else if b == at {
            assert(more[a] == order[a]);
            if a < at - 1 {
                assert(before(order[a], order[at - 1]) || !before(order[at - 1], order[a]));
                assert(!before(i, order[at - 1]));
                assert(!before(order[at - 1], order[a]));
            }
            assert(!before(i, order[a]));
        } else {
            let x = if a < at {
                a
            } else {
                a - 1
            };
            let y = if b < at {
                b
            } else {
                b - 1
            };
            assert(more[a] == order[x]);
            assert(more[b] == order[y]);
        }
    }
}

pub open spec fn smaller(keys: Seq<i64>) -> spec_fn(int, int) -> bool {
    |a: int, b: int| keys[a] < keys[b]
}

/// The order of some numbers, smallest first.
pub fn order_of_numbers(keys: &Vec<i64>) -> (order: Vec<usize>)
    ensures
        is_stable_order(order@, keys@.len() as int, smaller(keys@)),
{
    let ghost before = smaller(keys@);
    let mut order: Vec<usize> = Vec::new();
    let mut i: usize = 0;
    while i < keys.len()
        invariant
            i <= keys@.len(),
            before == smaller(keys@),
            is_stable_order(order@, i as int, before),
        decreases keys@.len() - i,
    {
        let ghost so_far = positions(order@);
        let mut at: usize = order.len();
        assert forall|k: int| 0 <= k < order@.len() implies (#[trigger] order@[k]) < i by {
            assert(so_far[k] == order@[k]);
        }
        while at > 0 && keys[i] < keys[order[at - 1]]
            invariant
                i < keys@.len(),
                at <= order@.len(),
                before == smaller(keys@),
                so_far == positions(order@),
                is_all_positions(so_far, i as int),
                forall|k: int| at <= k < order@.len() ==> before(i as int, #[trigger] so_far[k]),
                forall|k: int| 0 <= k < order@.len() ==> order@[k] == #[trigger] so_far[k],
                forall|k: int| 0 <= k < order@.len() ==> (#[trigger] order@[k]) < i,
            decreases at,
        {
            assert(so_far[at - 1] == order@[at - 1]);
            at -= 1;
        }
        proof {
            if at > 0 {
                assert(so_far[at - 1] == order@[at - 1]);
            }
            inserted_in_order(so_far, at as int, i as int, before);
        }
        order.insert(at, i);
        assert(positions(order@) =~= so_far.insert(at as int, i as int));
        i += 1;
    }
    order
}

// ---------------------------------------------------------------------
// Texts
// ---------------------------------------------------------------------
/// Whether a text comes before another, character by character.
pub open spec fn text_before(a: Seq<char>, b: Seq<char>) -> bool
    decreases a.len(),
{
    if b.len() == 0 {
        false
    } else if a.len() == 0 {
        true
    } else if a[0] == b[0] {
        text_before(a.skip(1), b.skip(1))
    } else {
        a[0] < b[0]
    }
}

pub proof fn texts_are_ordered(a: Seq<char>, b: Seq<char>, c: Seq<char>)
    ensures
        !text_before(a, a),
        text_before(a, b) ==> !text_before(b, a),
        !text_before(a, b) && !text_before(b, c) ==> !text_before(a, c),
    decreases a.len() + b.len() + c.len(),
{
    if a.len() > 0 {
        texts_are_ordered(
            a.skip(1),
            if b.len() > 0 {
                b.skip(1)
            } else {
                b
            },
            if c.len() > 0 {
                c.skip(1)
            } else {
                c
            },
        );
    } else if b.len() > 0 && c.len() > 0 {
        texts_are_ordered(a, b.skip(1), c.skip(1));
    }
}

fn comes_before(a: &[char], b: &[char]) -> (r: bool)
    ensures
        r == text_before(a@, b@),
{
    let mut i: usize = 0;
    assert(a@.skip(0) =~= a@);
    assert(b@.skip(0) =~= b@);
    while i < a.len() && i < b.len()
        invariant
            i <= a@.len(),
            i <= b@.len(),
            text_before(a@, b@) == text_before(a@.skip(i as int), b@.skip(i as int)),
        decreases a@.len() - i,
    {
        assert(a@.skip(i as int).skip(1) =~= a@.skip(i + 1));
        assert(b@.skip(i as int).skip(1) =~= b@.skip(i + 1));
        if a[i] != b[i] {
            return a[i] < b[i];
        }
        i += 1;
    }
    i < b.len()
}

pub open spec fn sooner(keys: Seq<Seq<char>>) -> spec_fn(int, int) -> bool {
    |a: int, b: int| text_before(keys[a], keys[b])
}

proof fn sooner_is_an_order(keys: Seq<Seq<char>>)
    ensures
        is_weak_order(sooner(keys)),
{
    let before = sooner(keys);
    assert forall|a: int| !#[trigger] before(a, a) by {
        texts_are_ordered(keys[a], keys[a], keys[a]);
    }
    assert forall|a: int, b: int, c: int|
        !#[trigger] before(a, b) && !#[trigger] before(b, c) implies !before(a, c) by {
        texts_are_ordered(keys[a], keys[b], keys[c]);
    }
    assert forall|a: int, b: int| #[trigger] before(a, b) implies !before(b, a) by {
        texts_are_ordered(keys[a], keys[b], keys[b]);
    }
}

/// The order of some texts, A to Z.
pub fn order_of_texts(keys: &Vec<Vec<char>>) -> (order: Vec<usize>)
    ensures
        is_stable_order(order@, keys@.len() as int, sooner(crate::text::texts(keys@))),
{
    let ghost names = crate::text::texts(keys@);
    let ghost before = sooner(names);
    proof {
        sooner_is_an_order(names);
    }
    let mut order: Vec<usize> = Vec::new();
    let mut i: usize = 0;
    while i < keys.len()
        invariant
            i <= keys@.len(),
            names == crate::text::texts(keys@),
            before == sooner(names),
            is_weak_order(before),
            is_stable_order(order@, i as int, before),
        decreases keys@.len() - i,
    {
        let ghost so_far = positions(order@);
        let mut at: usize = order.len();
        assert forall|k: int| 0 <= k < order@.len() implies (#[trigger] order@[k]) < i by {
            assert(so_far[k] == order@[k]);
        }
        while at > 0 && comes_before(&keys[i], &keys[order[at - 1]])
            invariant
                i < keys@.len(),
                at <= order@.len(),
                names == crate::text::texts(keys@),
                before == sooner(names),
                so_far == positions(order@),
                is_all_positions(so_far, i as int),
                forall|k: int| at <= k < order@.len() ==> before(i as int, #[trigger] so_far[k]),
                forall|k: int| 0 <= k < order@.len() ==> order@[k] == #[trigger] so_far[k],
                forall|k: int| 0 <= k < order@.len() ==> (#[trigger] order@[k]) < i,
            decreases at,
        {
            assert(so_far[at - 1] == order@[at - 1]);
            at -= 1;
        }
        proof {
            if at > 0 {
                assert(so_far[at - 1] == order@[at - 1]);
            }
            inserted_in_order(so_far, at as int, i as int, before);
        }
        order.insert(at, i);
        assert(positions(order@) =~= so_far.insert(at as int, i as int));
        i += 1;
    }
    order
}

/// There is one stable order: two that put the same things in order agree.
pub proof fn stable_order_is_unique(
    a: Seq<int>,
    b: Seq<int>,
    n: int,
    before: spec_fn(int, int) -> bool,
)
    requires
        is_all_positions(a, n),
        is_all_positions(b, n),
        is_in_order(a, before),
        is_in_order(b, before),
        is_weak_order(before),
    ensures
        a == b,
{
    assert forall|k: int| 0 <= k < n implies a[k] == b[k] by {
        agrees_at(a, b, n, before, k);
    }
    assert(a =~= b);
}

proof fn agrees_at(a: Seq<int>, b: Seq<int>, n: int, before: spec_fn(int, int) -> bool, k: int)
    requires
        is_all_positions(a, n),
        is_all_positions(b, n),
        is_in_order(a, before),
        is_in_order(b, before),
        is_weak_order(before),
        0 <= k < n,
    ensures
        a[k] == b[k],
    decreases k,
{
    assert forall|j: int| 0 <= j < k implies a[j] == b[j] by {
        agrees_at(a, b, n, before, j);
    }
    if a[k] != b[k] {
        let p = every_position_is_there(b, n, a[k]);
        let q = every_position_is_there(a, n, b[k]);
        assert(p > k) by {
            if p < k {
                assert(a[p] == b[p]);
            }
        }
        assert(q > k) by {
            if q < k {
                assert(a[q] == b[q]);
            }
        }
        assert(before(b[k], b[p]) || (!before(b[p], b[k]) && b[k] < b[p]));
        assert(before(a[k], a[q]) || (!before(a[q], a[k]) && a[k] < a[q]));
    }
}

/// Distinct positions below `n`, as many as `n`, leave none out.
proof fn every_position_is_there(order: Seq<int>, n: int, x: int) -> (at: int)
    requires
        is_all_positions(order, n),
        0 <= x < n,
    ensures
        0 <= at < n,
        order[at] == x,
{
    let all = Set::new(|i: int| 0 <= i < n);
    let held = order.to_set();
    vstd::set_lib::lemma_int_range(0, n);
    assert(all =~= vstd::set_lib::set_int_range(0, n));
    assert(order.no_duplicates());
    order.unique_seq_to_set();
    assert(held.subset_of(all)) by {
        assert forall|v: int| held.contains(v) implies all.contains(v) by {
            let i = choose|i: int| 0 <= i < order.len() && order[i] == v;
            assert(0 <= order[i] < n);
        }
    }
    vstd::set_lib::lemma_subset_equality(held, all);
    assert(held.contains(x));
    choose|i: int| 0 <= i < order.len() && order[i] == x
}

/// Two texts come in the order of the first characters in which they differ,
/// and a text comes before what goes on from it.
pub proof fn texts_go_by_their_first_difference(
    common: Seq<char>,
    a: char,
    b: char,
    after_a: Seq<char>,
    after_b: Seq<char>,
)
    ensures
        a < b ==> text_before(common + seq![a] + after_a, common + seq![b] + after_b),
        a > b ==> !text_before(common + seq![a] + after_a, common + seq![b] + after_b),
        text_before(common, common + seq![b] + after_b),
        !text_before(common + seq![b] + after_b, common),
    decreases common.len(),
{
    let left = common + seq![a] + after_a;
    let right = common + seq![b] + after_b;
    if common.len() > 0 {
        let rest = common.skip(1);
        texts_go_by_their_first_difference(rest, a, b, after_a, after_b);
        assert(left.skip(1) =~= rest + seq![a] + after_a);
        assert(right.skip(1) =~= rest + seq![b] + after_b);
        assert(left[0] == right[0]);
        assert(common[0] == right[0]);
    } else {
        assert(left[0] == a);
        assert(right[0] == b);
    }
}

/// Numbers come smallest first and texts soonest first, and what compares
/// alike comes as it came; nothing is left out and nothing comes twice.
pub proof fn the_least_comes_first(
    order: Seq<usize>,
    numbers: Seq<i64>,
    texts: Seq<Seq<char>>,
    a: int,
    b: int,
)
    requires
        0 <= a < b < order.len(),
    ensures
        is_stable_order(order, numbers.len() as int, smaller(numbers)) ==> order.len()
            == numbers.len() && order[a] < numbers.len() && order[b] < numbers.len() && order[a]
            != order[b] && numbers[order[a] as int] <= numbers[order[b] as int] && (
        numbers[order[a] as int] == numbers[order[b] as int] ==> order[a] < order[b]),
        is_stable_order(order, texts.len() as int, sooner(texts)) ==> order.len() == texts.len()
            && order[a] < texts.len() && order[b] < texts.len() && order[a] != order[b]
            && !text_before(texts[order[b] as int], texts[order[a] as int]) && (
        texts[order[a] as int] == texts[order[b] as int] ==> order[a] < order[b]),
{
    let list = positions(order);
    assert(list[a] == order[a] as int);
    assert(list[b] == order[b] as int);
    let (x, y) = (texts[order[a] as int], texts[order[b] as int]);
    texts_are_ordered(x, y, x);
}

} // verus!
