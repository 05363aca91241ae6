//! Which conversation a message joins.
//!
//! What a message says it answers wins; a distinctive subject is a narrow
//! fallback. A message that links conversations held apart brings them
//! together: the common case where the middle of one arrives after its ends.

use crate::threading::{is_distinctive, subject_is_threadable};
use vstd::prelude::*;

verus! {

/// The least of some numbers.
pub open spec fn least(s: Seq<i64>) -> i64
    decreases s.len(),
{
    if s.len() <= 1 {
        s[0]
    } else {
        let before = least(s.drop_last());
        if s.last() < before {
            s.last()
        } else {
            before
        }
    }
}

proof fn least_is_least(s: Seq<i64>)
    requires
        s.len() > 0,
    ensures
        s.contains(least(s)),
        forall|i: int| 0 <= i < s.len() ==> least(s) <= #[trigger] s[i],
    decreases s.len(),
{
    if s.len() == 1 {
        assert(s[0] == least(s));
    } else {
        let front = s.drop_last();
        least_is_least(front);
        let at = choose|i: int| 0 <= i < front.len() && front[i] == least(front);
        assert(s[at] == least(front));
        assert(s[s.len() - 1] == s.last());
        assert forall|i: int| 0 <= i < s.len() implies least(s) <= #[trigger] s[i] by {
            if i < s.len() - 1 {
                assert(front[i] == s[i]);
            }
        }
    }
}

/// Where a message goes, and what goes with it.
#[derive(Debug, Clone, PartialEq, Eq)]
pub struct Joined {
    pub thread_id: i64,
    /// The conversations it brings together with that one.
    pub merged: Vec<i64>,
}

/// The conversation a message joins: the one of lowest number that its
/// references lead to, or failing any the one its subject leads to, or one of
/// its own, named after itself.
pub open spec fn thread_for(linked: Seq<i64>, by_subject: Option<i64>, row: i64) -> i64 {
    if linked.len() > 0 {
        least(linked)
    } else {
        match by_subject {
            Some(t) => t,
            None => row,
        }
    }
}

/// Whether the subject is asked at all. Only where nothing else links the
/// message, and only a subject that says something: a wrong join hides mail
/// inside a conversation where nobody would look.
pub fn asks_the_subject(linked: &Vec<i64>, subject_norm: &str) -> (r: bool)
    ensures
        r == (linked@.len() == 0 && is_distinctive(subject_norm@)),
{
    linked.len() == 0 && subject_is_threadable(subject_norm)
}

/// Works out where a message goes. `linked` are the conversations that its
/// references lead to, in any order and with any repeats.
pub fn choose_thread(linked: &Vec<i64>, by_subject: Option<i64>, row: i64) -> (r: Joined)
    ensures
        r.thread_id == thread_for(linked@, by_subject, row),
        forall|t: i64|
            r.merged@.contains(t) <==> (linked@.contains(t) && t != r.thread_id),
        r.merged@.no_duplicates(),
{
    if linked.len() == 0 {
        return Joined {
            thread_id: match by_subject {
                Some(t) => t,
                None => row,
            },
            merged: Vec::new(),
        };
    }
    let mut target: i64 = linked[0];
    let mut i: usize = 1;
    assert(linked@.take(1)[0] == linked@[0]);
    while i < linked.len()
        invariant
            1 <= i <= linked@.len(),
            target == least(linked@.take(i as int)),
        decreases linked@.len() - i,
    {
        assert(linked@.take(i + 1).drop_last() =~= linked@.take(i as int));
        if linked[i] < target {
            target = linked[i];
        }
        i += 1;
    }
    assert(linked@.take(i as int) =~= linked@);
    let mut merged: Vec<i64> = Vec::new();
    let mut k: usize = 0;
    while k < linked.len()
        invariant
            k <= linked@.len(),
            forall|t: i64|
                merged@.contains(t) <==> (linked@.take(k as int).contains(t) && t != target),
            merged@.no_duplicates(),
        decreases linked@.len() - k,
    {
        let t = linked[k];
        let ghost front = linked@.take(k as int);
        let ghost before = merged@;
        let known = is_among(&merged, t);
        assert(linked@.take(k + 1) =~= front.push(t));
        if t != target && !known {
            merged.push(t);
        }
        assert forall|x: i64|
            merged@.contains(x) <==> (linked@.take(k + 1).contains(x) && x != target) by {
            if front.contains(x) {
                let at = choose|j: int| 0 <= j < front.len() && front[j] == x;
                assert(front.push(t)[at] == x);
            }
            assert(front.push(t)[front.len() as int] == t);
            if before.contains(x) {
                let at = choose|j: int| 0 <= j < before.len() && before[j] == x;
                assert(merged@[at] == x);
            }
            if t != target && !known {
                assert(merged@[before.len() as int] == t);
            }
        }
        k += 1;
    }
    assert(linked@.take(k as int) =~= linked@);
    Joined { thread_id: target, merged }
}

fn is_among(all: &Vec<i64>, t: i64) -> (r: bool)
    ensures
        r == all@.contains(t),
{
    let mut i: usize = 0;
    while i < all.len()
        invariant
            i <= all@.len(),
            forall|j: int| 0 <= j < i ==> all@[j] != t,
        decreases all@.len() - i,
    {
        if all[i] == t {
            return true;
        }
        i += 1;
    }
    false
}

/// One of a group of conversations that are really one: the group is filed
/// under the least of their numbers.
pub fn lowest(ids: &Vec<i64>) -> (r: Option<i64>)
    ensures
        match r {
            Some(id) => ids@.len() > 0 && id == least(ids@),
            None => ids@.len() == 0,
        },
{
    if ids.len() == 0 {
        return None;
    }
    let joined = choose_thread(ids, None, 0);
    Some(joined.thread_id)
}

// ---------------------------------------------------------------------
// What joining does to the mail that is held
// ---------------------------------------------------------------------
/// The conversations that some messages are in.
pub open spec fn threads_of(held: Map<i64, i64>, rows: Seq<i64>) -> Seq<i64> {
    rows.map_values(|row: i64| held[row])
}

/// What is held once some messages have been found to be one conversation.
pub open spec fn brought_together(held: Map<i64, i64>, rows: Seq<i64>) -> Map<i64, i64> {
    let linked = threads_of(held, rows);
    held.map_values(
        |t: i64|
            if linked.contains(t) {
                least(linked)
            } else {
                t
            },
    )
}

/// Everything linked ends up in one conversation, and nothing that was in one
/// is parted.
pub proof fn joining_only_joins(held: Map<i64, i64>, rows: Seq<i64>, a: i64, b: i64)
    requires
        held.contains_key(a),
        held.contains_key(b),
    ensures
        rows.contains(a) && rows.contains(b) ==> brought_together(held, rows)[a]
            == brought_together(held, rows)[b],
        held[a] == held[b] ==> brought_together(held, rows)[a] == brought_together(held, rows)[b],
{
    let linked = threads_of(held, rows);
    if rows.contains(a) {
        let i = choose|i: int| 0 <= i < rows.len() && rows[i] == a;
        assert(linked[i] == held[a]);
    }
    if rows.contains(b) {
        let i = choose|i: int| 0 <= i < rows.len() && rows[i] == b;
        assert(linked[i] == held[b]);
    }
}

/// What a list holds decides its least member.
proof fn least_is_of_the_members(s: Seq<i64>, t: Seq<i64>)
    requires
        s.len() > 0,
        t.len() > 0,
        forall|x: i64| s.contains(x) <==> t.contains(x),
    ensures
        least(s) == least(t),
{
    least_is_least(s);
    least_is_least(t);
    assert(t.contains(least(s)));
    assert(s.contains(least(t)));
    let i = choose|i: int| 0 <= i < t.len() && t[i] == least(s);
    let j = choose|j: int| 0 <= j < s.len() && s[j] == least(t);
    assert(least(t) <= t[i]);
    assert(least(s) <= s[j]);
}

/// A message joins the same conversation in whatever order what it is linked
/// to turned up.
pub proof fn a_join_does_not_depend_on_order(
    linked: Seq<i64>,
    again: Seq<i64>,
    by_subject: Option<i64>,
    row: i64,
)
    requires
        forall|t: i64| linked.contains(t) <==> again.contains(t),
    ensures
        thread_for(linked, by_subject, row) == thread_for(again, by_subject, row),
{
    if linked.len() > 0 {
        assert(again.contains(linked[0]));
    }
    if again.len() > 0 {
        assert(linked.contains(again[0]));
    }
    if linked.len() > 0 {
        least_is_of_the_members(linked, again);
    }
}

/// The conversations that messages are in, once others were brought together.
proof fn joining_moves_the_linked(held: Map<i64, i64>, rows: Seq<i64>, others: Seq<i64>, t: i64)
    requires
        rows.len() > 0,
        forall|i: int| 0 <= i < rows.len() ==> held.contains_key(#[trigger] rows[i]),
        forall|i: int| 0 <= i < others.len() ==> held.contains_key(#[trigger] others[i]),
    ensures
        threads_of(brought_together(held, rows), others).contains(t) <==> {
            let first = threads_of(held, rows);
            let second = threads_of(held, others);
            ||| second.contains(t) && !first.contains(t)
            ||| t == least(first) && exists|x: i64| first.contains(x) && second.contains(x)
        },
{
    let first = threads_of(held, rows);
    let second = threads_of(held, others);
    let after = threads_of(brought_together(held, rows), others);
    if after.contains(t) {
        let i = choose|i: int| 0 <= i < after.len() && after[i] == t;
        assert(held.contains_key(others[i]));
        assert(second[i] == held[others[i]]);
        assert(second.contains(second[i]));
    }
    if second.contains(t) && !first.contains(t) {
        let i = choose|i: int| 0 <= i < second.len() && second[i] == t;
        assert(held.contains_key(others[i]));
        assert(after[i] == t);
    }
    if t == least(first) && exists|x: i64| first.contains(x) && second.contains(x) {
        let x = choose|x: i64| first.contains(x) && second.contains(x);
        let i = choose|i: int| 0 <= i < second.len() && second[i] == x;
        assert(held.contains_key(others[i]));
        assert(after[i] == t);
    }
}

/// The least of what two groups come to, when the first was joined before.
proof fn the_least_of_both(held: Map<i64, i64>, rows: Seq<i64>, others: Seq<i64>)
    requires
        rows.len() > 0,
        others.len() > 0,
        forall|i: int| 0 <= i < rows.len() ==> held.contains_key(#[trigger] rows[i]),
        forall|i: int| 0 <= i < others.len() ==> held.contains_key(#[trigger] others[i]),
    ensures
        ({
            let first = threads_of(held, rows);
            let second = threads_of(held, others);
            let after = threads_of(brought_together(held, rows), others);
            if exists|x: i64| first.contains(x) && second.contains(x) {
                least(after) == if least(first) < least(second) {
                    least(first)
                } else {
                    least(second)
                }
            } else {
                least(after) == least(second)
            }
        }),
{
    let first = threads_of(held, rows);
    let second = threads_of(held, others);
    let after = threads_of(brought_together(held, rows), others);
    least_is_least(first);
    least_is_least(second);
    least_is_least(after);
    joining_moves_the_linked(held, rows, others, least(after));
    joining_moves_the_linked(held, rows, others, least(first));
    joining_moves_the_linked(held, rows, others, least(second));
    if after.contains(least(first)) {
        let i = choose|i: int| 0 <= i < after.len() && after[i] == least(first);
        assert(least(after) <= after[i]);
    }
    if after.contains(least(second)) {
        let i = choose|i: int| 0 <= i < after.len() && after[i] == least(second);
        assert(least(after) <= after[i]);
    }
    if second.contains(least(after)) {
        let i = choose|i: int| 0 <= i < second.len() && second[i] == least(after);
        assert(least(second) <= second[i]);
    }
    if first.contains(least(second)) {
        let i = choose|i: int| 0 <= i < first.len() && first[i] == least(second);
        assert(least(first) <= first[i]);
    }
}

/// Where a conversation ends up after two joins, one after the other.
proof fn two_joins(held: Map<i64, i64>, rows: Seq<i64>, others: Seq<i64>, row: i64)
    requires
        rows.len() > 0,
        others.len() > 0,
        held.contains_key(row),
        forall|i: int| 0 <= i < rows.len() ==> held.contains_key(#[trigger] rows[i]),
        forall|i: int| 0 <= i < others.len() ==> held.contains_key(#[trigger] others[i]),
    ensures
        brought_together(brought_together(held, rows), others)[row] == {
            let first = threads_of(held, rows);
            let second = threads_of(held, others);
            let t = held[row];
            if exists|x: i64| first.contains(x) && second.contains(x) {
                if first.contains(t) || second.contains(t) {
                    if least(first) < least(second) {
                        least(first)
                    } else {
                        least(second)
                    }
                } else {
                    t
                }
            } else if first.contains(t) {
                least(first)
            } else if second.contains(t) {
                least(second)
            } else {
                t
            }
        },
{
    let first = threads_of(held, rows);
    let second = threads_of(held, others);
    let after = threads_of(brought_together(held, rows), others);
    let t = held[row];
    least_is_least(first);
    the_least_of_both(held, rows, others);
    joining_moves_the_linked(held, rows, others, t);
    joining_moves_the_linked(held, rows, others, least(first));
    assert(brought_together(held, rows)[row] == if first.contains(t) {
        least(first)
    } else {
        t
    });
    assert(brought_together(held, rows).contains_key(row));
}

/// Which conversations there are, and what each is called, does not depend on
/// which of two links was found first.
pub proof fn conversations_do_not_depend_on_arrival(
    held: Map<i64, i64>,
    rows: Seq<i64>,
    others: Seq<i64>,
)
    requires
        rows.len() > 0,
        others.len() > 0,
        forall|i: int| 0 <= i < rows.len() ==> held.contains_key(#[trigger] rows[i]),
        forall|i: int| 0 <= i < others.len() ==> held.contains_key(#[trigger] others[i]),
    ensures
        brought_together(brought_together(held, rows), others) == brought_together(
            brought_together(held, others),
            rows,
        ),
{
    let one = brought_together(brought_together(held, rows), others);
    let other = brought_together(brought_together(held, others), rows);
    assert forall|row: i64| held.contains_key(row) implies one[row] == other[row] by {
        two_joins(held, rows, others, row);
        two_joins(held, others, rows, row);
    }
    assert(one =~= other);
}

/// What a message says it answers decides: it joins the oldest of the
/// conversations that leads to, whatever its subject says. Only where it says
/// nothing of the kind does the subject decide, and where neither leads
/// anywhere it is a conversation of its own.
pub proof fn references_win_over_the_subject(linked: Seq<i64>, by_subject: Option<i64>, row: i64)
    ensures
        linked.len() > 0 ==> linked.contains(thread_for(linked, by_subject, row)) && forall|i: int|
            0 <= i < linked.len() ==> thread_for(linked, by_subject, row) <= #[trigger] linked[i],
        linked.len() == 0 && by_subject is Some ==> Some(thread_for(linked, by_subject, row))
            == by_subject,
        linked.len() == 0 && by_subject is None ==> thread_for(linked, by_subject, row) == row,
{
    if linked.len() > 0 {
        least_is_least(linked);
    }
}

/// Bringing some messages together moves what is in their conversations to
/// the oldest of them, and leaves every other message where it was.
pub proof fn what_is_not_linked_stays(held: Map<i64, i64>, rows: Seq<i64>, row: i64)
    requires
        rows.len() > 0,
        held.contains_key(row),
    ensures
        brought_together(held, rows).dom() == held.dom(),
        !threads_of(held, rows).contains(held[row]) ==> brought_together(held, rows)[row]
            == held[row],
        threads_of(held, rows).contains(held[row]) ==> threads_of(held, rows).contains(
            brought_together(held, rows)[row],
        ) && brought_together(held, rows)[row] <= held[row],
{
    let linked = threads_of(held, rows);
    least_is_least(linked);
    assert(brought_together(held, rows).dom() =~= held.dom());
    if linked.contains(held[row]) {
        let i = choose|i: int| 0 <= i < linked.len() && linked[i] == held[row];
        assert(least(linked) <= linked[i]);
    }
}

} // verus!
