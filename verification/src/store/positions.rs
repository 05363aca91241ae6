//! Orders that somebody arranged by hand.

use vstd::prelude::*;

verus! {

/// Where a row stands in its list.
#[derive(Debug, Clone, Copy, PartialEq, Eq, Structural)]
pub struct Standing {
    pub id: i64,
    pub position: i64,
}

/// Whether one position lies on the given side of another.
pub open spec fn is_beyond(position: int, from: int, up: bool) -> bool {
    if up {
        position < from
    } else {
        position > from
    }
}

/// Whether a row is the nearest on one side of a position: nothing on that
/// side is nearer, and of rows that share its position it is the first.
pub open spec fn is_neighbour(all: Seq<Standing>, at: int, from: int, up: bool) -> bool {
    &&& 0 <= at < all.len()
    &&& is_beyond(all[at].position as int, from, up)
    &&& forall|i: int|
        0 <= i < all.len() && is_beyond((#[trigger] all[i]).position as int, from, up)
            ==> !is_beyond(all[i].position as int, all[at].position as int, !up)
    &&& forall|i: int| 0 <= i < at ==> (#[trigger] all[i]).position != all[at].position
}

/// The nearest row on one side of a position, where there is one.
pub fn neighbour(all: &Vec<Standing>, from: i64, up: bool) -> (r: Option<Standing>)
    ensures
        match r {
            Some(s) => exists|at: int|
                is_neighbour(all@, at, from as int, up) && #[trigger] all@[at] == s,
            None => forall|i: int|
                0 <= i < all@.len() ==> !is_beyond(
                    (#[trigger] all@[i]).position as int,
                    from as int,
                    up,
                ),
        },
{
    let mut best: Option<usize> = None;
    let mut i: usize = 0;
    while i < all.len()
        invariant
            i <= all@.len(),
            match best {
                Some(at) => at < i && is_neighbour(all@.take(i as int), at as int, from as int, up),
                None => forall|j: int|
                    0 <= j < i ==> !is_beyond((#[trigger] all@[j]).position as int, from as int, up),
            },
        decreases all@.len() - i,
    {
        let ghost before = all@.take(i as int);
        let ghost after = all@.take(i + 1);
        proof {
            assert forall|j: int| 0 <= j < i implies after[j] == #[trigger] before[j] by {}
            assert(after[i as int] == all@[i as int]);
        }
        let here: i64 = all[i].position;
        let beyond = if up {
            here < from
        } else {
            here > from
        };
        if beyond {
            match best {
                None => {
                    best = Some(i);
                },
                Some(at) => {
                    let held: i64 = all[at].position;
                    let nearer = if up {
                        here > held
                    } else {
                        here < held
                    };
                    if nearer {
                        best = Some(i);
                    }
                },
            }
        }
        proof {
            match best {
                Some(at) => {
                    assert forall|j: int|
                        0 <= j < after.len() && is_beyond(
                            (#[trigger] after[j]).position as int,
                            from as int,
                            up,
                        ) implies !is_beyond(
                        after[j].position as int,
                        after[at as int].position as int,
                        !up,
                    ) by {
                        if j < i {
                            assert(before[j] == all@[j]);
                        }
                    }
                    assert forall|j: int| 0 <= j < at implies (#[trigger] after[j]).position
                        != after[at as int].position by {
                        assert(before[j] == all@[j]);
                    }
                },
                None => {},
            }
        }
        i += 1;
    }
    assert(all@.take(i as int) =~= all@);
    match best {
        Some(at) => Some(all[at]),
        None => None,
    }
}

/// Two rows changing places.
#[derive(Debug, Clone, Copy, PartialEq, Eq, Structural)]
pub struct Swap {
    /// The row that was moved, where it now stands.
    pub moved: Standing,
    /// The row it changed places with.
    pub other: Standing,
}

/// One step up or down: the row changes places with its neighbour. At the end
/// of the list nothing happens.
pub fn step(all: &Vec<Standing>, row: Standing, up: bool) -> (r: Option<Swap>)
    ensures
        match r {
            Some(swap) => exists|at: int|
                {
                    &&& is_neighbour(all@, at, row.position as int, up)
                    &&& swap.moved == (Standing {
                        id: row.id,
                        position: (#[trigger] all@[at]).position,
                    })
                    &&& swap.other == (Standing { id: all@[at].id, position: row.position })
                },
            None => forall|i: int|
                0 <= i < all@.len() ==> !is_beyond(
                    (#[trigger] all@[i]).position as int,
                    row.position as int,
                    up,
                ),
        },
{
    match neighbour(all, row.position, up) {
        Some(other) => Some(
            Swap {
                moved: Standing { id: row.id, position: other.position },
                other: Standing { id: other.id, position: row.position },
            },
        ),
        None => None,
    }
}

/// A list after two of its rows changed places.
pub open spec fn swapped(all: Seq<Standing>, swap: Swap) -> Seq<Standing> {
    all.map_values(
        |s: Standing|
            if s.id == swap.moved.id {
                swap.moved
            } else if s.id == swap.other.id {
                swap.other
            } else {
                s
            },
    )
}

pub open spec fn no_ties(all: Seq<Standing>) -> bool {
    forall|i: int, j: int|
        0 <= i < j < all.len() ==> (#[trigger] all[i]).id != (#[trigger] all[j]).id
            && all[i].position != all[j].position
}

/// A step one way and then the other leaves the list as it was: the neighbour
/// that was changed places with is the neighbour there now.
pub proof fn a_step_can_be_taken_back(all: Seq<Standing>, at: int, next: int, up: bool)
    requires
        no_ties(all),
        0 <= at < all.len(),
        is_neighbour(all, next, all[at].position as int, up),
    ensures
        ({
            let swap = Swap {
                moved: Standing { id: all[at].id, position: all[next].position },
                other: Standing { id: all[next].id, position: all[at].position },
            };
            let back = Swap { moved: all[at], other: all[next] };
            &&& is_neighbour(swapped(all, swap), next, swap.moved.position as int, !up)
            &&& swapped(swapped(all, swap), back) == all
        }),
{
    let swap = Swap {
        moved: Standing { id: all[at].id, position: all[next].position },
        other: Standing { id: all[next].id, position: all[at].position },
    };
    let back = Swap { moved: all[at], other: all[next] };
    let after = swapped(all, swap);
    assert(at != next);
    assert forall|i: int| 0 <= i < all.len() && i != at && i != next implies after[i] == all[i]
        && all[i].id != all[at].id && all[i].id != all[next].id && all[i].position
        != all[at].position && all[i].position != all[next].position by {
        if i < at {
            assert(all[i].id != all[at].id);
        } else {
            assert(all[at].id != all[i].id);
        }
        if i < next {
            assert(all[i].id != all[next].id);
        } else {
            assert(all[next].id != all[i].id);
        }
    }
    assert(all[at].id != all[next].id) by {
        if at < next {
        } else {
            assert(all[next].id != all[at].id);
        }
    }
    assert(after[at] == swap.moved);
    assert(after[next] == swap.other);
    assert forall|i: int|
        0 <= i < after.len() && is_beyond(
            (#[trigger] after[i]).position as int,
            swap.moved.position as int,
            !up,
        ) implies !is_beyond(after[i].position as int, after[next].position as int, up) by {
        if i != at && i != next {
            assert(after[i] == all[i]);
        }
    }
    assert forall|i: int| 0 <= i < next implies (#[trigger] after[i]).position
        != after[next].position by {
        if i != at {
            assert(after[i] == all[i]);
        }
    }
    assert(swapped(after, back) =~= all);
}

// ---------------------------------------------------------------------
// A whole list at once
// ---------------------------------------------------------------------
/// Rows numbered in the order given, from nought.
pub open spec fn numbering(ids: Seq<i64>) -> Seq<Standing> {
    Seq::new(ids.len(), |i: int| Standing { id: ids[i], position: i as i64 })
}

/// Numbers a list as it was dragged. The whole of it is numbered each time:
/// there are no gaps to run out of and no two rows in one place.
pub fn numbered(ids: &Vec<i64>) -> (out: Vec<Standing>)
    requires
        ids@.len() <= i64::MAX,
    ensures
        out@ == numbering(ids@),
{
    let mut out: Vec<Standing> = Vec::new();
    let mut i: usize = 0;
    while i < ids.len()
        invariant
            i <= ids@.len() <= i64::MAX,
            out@ == numbering(ids@).take(i as int),
        decreases ids@.len() - i,
    {
        out.push(Standing { id: ids[i], position: i as i64 });
        assert(out@ =~= numbering(ids@).take(i + 1));
        i += 1;
    }
    assert(numbering(ids@).take(i as int) =~= numbering(ids@));
    out
}

/// However a list is dragged, no two of its rows end up in one place, and the
/// order is the one it was dragged into.
pub proof fn a_dragged_list_has_no_ties(ids: Seq<i64>)
    requires
        ids.len() <= i64::MAX,
        ids.no_duplicates(),
    ensures
        no_ties(numbering(ids)),
        forall|i: int, j: int|
            0 <= i < j < ids.len() ==> (#[trigger] numbering(ids)[i]).position < (
            #[trigger] numbering(ids)[j]).position,
{
    let all = numbering(ids);
    assert forall|i: int, j: int| 0 <= i < j < all.len() implies (#[trigger] all[i]).id != (
    #[trigger] all[j]).id && all[i].position != all[j].position by {
        assert(ids[i] != ids[j]);
    }
}

/// The neighbour above stands at a smaller position and the one below at a
/// larger one, with no row in between.
pub proof fn up_is_nearer_the_top(all: Seq<Standing>, at: int, from: int, other: int)
    requires
        0 <= other < all.len(),
    ensures
        is_neighbour(all, at, from, true) ==> all[at].position < from && !(all[at].position
            < all[other].position < from),
        is_neighbour(all, at, from, false) ==> from < all[at].position && !(from
            < all[other].position < all[at].position),
{
}

} // verus!
