//! The queue: what waits to reach the server, and how it is addressed there.

use crate::actions::{moves, ActionKind, Prior, PriorState};
use crate::text::{chars_of, same, string_of, strings};
use vstd::prelude::*;

verus! {

// ---------------------------------------------------------------------
// Addressing
// ---------------------------------------------------------------------
/// One message of a queued action, in one folder that holds it. A message in
/// two folders has two of these, one in none has one with no folder. They
/// come oldest action first, and by message within an action.
#[derive(Debug, Clone, PartialEq, Eq)]
pub struct QueuedRow {
    pub action_id: i64,
    /// Nothing, if it cannot be read.
    pub kind: Option<ActionKind>,
    pub message_id: i64,
    pub uid: Option<u32>,
    /// Empty where there is no folder.
    pub folder_path: String,
    /// Whether the action's payload can be read.
    pub readable: bool,
    /// What this message was like when the action was queued.
    pub prior: Option<PriorState>,
    /// The folders that hold this message now.
    pub held: Vec<String>,
    /// The folders it was in when the action was queued, those that are still
    /// there.
    pub prior_paths: Vec<String>,
}

/// Where a message of an action is addressed.
#[derive(Debug, Clone, PartialEq, Eq)]
pub struct Delivery {
    /// Which of the rows it is made from.
    pub row: usize,
    pub uid: Option<u32>,
    pub folder_path: String,
    /// The folders worth asking for the number, best guess first. Nothing
    /// needs asking where it is known.
    pub candidate_paths: Vec<String>,
}

#[verifier::ext_equal]
pub struct Queued {
    pub action_id: i64,
    pub moves: bool,
    pub message_id: i64,
    pub uid: Option<u32>,
    pub path: Seq<char>,
    pub readable: bool,
    pub prior: Option<Prior>,
    pub held: Seq<Seq<char>>,
    pub prior_paths: Seq<Seq<char>>,
}

#[verifier::ext_equal]
pub struct Address {
    pub row: int,
    pub uid: Option<u32>,
    pub path: Seq<char>,
    pub candidates: Seq<Seq<char>>,
}

impl View for QueuedRow {
    type V = Queued;

    open spec fn view(&self) -> Queued {
        Queued {
            action_id: self.action_id,
            moves: self.kind matches Some(k) && moves(k),
            message_id: self.message_id,
            uid: self.uid,
            path: self.folder_path@,
            readable: self.readable,
            prior: match self.prior {
                Some(p) => Some(p@),
                None => None,
            },
            held: strings(self.held@),
            prior_paths: strings(self.prior_paths@),
        }
    }
}

impl View for Delivery {
    type V = Address;

    open spec fn view(&self) -> Address {
        Address {
            row: self.row as int,
            uid: self.uid,
            path: self.folder_path@,
            candidates: strings(self.candidate_paths@),
        }
    }
}

pub open spec fn queue(rows: Seq<QueuedRow>) -> Seq<Queued> {
    rows.map_values(|r: QueuedRow| r@)
}

pub open spec fn addresses_of(out: Seq<Delivery>) -> Seq<Address> {
    out.map_values(|d: Delivery| d@)
}

/// Paths with no path twice, the first of each kept.
pub open spec fn once_each(paths: Seq<Seq<char>>) -> Seq<Seq<char>>
    decreases paths.len(),
{
    if paths.len() == 0 {
        Seq::empty()
    } else {
        let so_far = once_each(paths.drop_last());
        if so_far.contains(paths.last()) {
            so_far
        } else {
            so_far.push(paths.last())
        }
    }
}

/// The folder an action took a message out of, if that was written down.
pub open spec fn source_path(q: Queued) -> Option<Seq<char>> {
    match q.prior {
        Some(p) => if q.readable {
            p.source_path
        } else {
            None
        },
        None => None,
    }
}

pub open spec fn source_uid(q: Queued) -> Option<u32> {
    match q.prior {
        Some(p) => p.source_uid,
        None => None,
    }
}

/// Whether the folder an action took a message out of no longer holds it. One
/// that does, with its number gone, has been renumbered by the server: the
/// number written down is a lie there.
pub open spec fn source_is_gone(q: Queued) -> bool {
    source_path(q) matches Some(path) && !q.held.contains(path)
}

/// The folders worth asking for a message that has no number: those it was in
/// when the action was queued, then the one that holds it.
pub open spec fn worth_asking(q: Queued) -> Seq<Seq<char>> {
    let were = if q.prior is Some {
        once_each(q.prior_paths)
    } else {
        Seq::empty()
    };
    if q.path.len() > 0 && !were.contains(q.path) {
        were.push(q.path)
    } else {
        were
    }
}

/// Where one row is addressed: by its own number, or else by the number that
/// was written down when the action was queued, if the folder it was for has
/// let the message go.
pub open spec fn addressed(q: Queued, row: int) -> Address {
    if q.uid is Some || !q.readable {
        Address { row, uid: q.uid, path: q.path, candidates: Seq::empty() }
    } else if source_is_gone(q) && source_uid(q) is Some {
        Address {
            row,
            uid: source_uid(q),
            path: source_path(q).unwrap(),
            candidates: Seq::empty(),
        }
    } else {
        Address { row, uid: None, path: q.path, candidates: worth_asking(q) }
    }
}

/// Where a move is addressed: at the folder it took the message out of, once
/// that has let it go, whether or not a number is known there. A folder that
/// the message is still in is a place it sits, not the place the change is
/// about.
pub open spec fn pinned_to_source(q: Queued, row: int) -> Address {
    Address {
        row,
        uid: source_uid(q),
        path: source_path(q).unwrap(),
        candidates: if source_uid(q) is Some {
            Seq::empty()
        } else {
            seq![source_path(q).unwrap()]
        },
    }
}

/// The rows so far, and whether the last of them is final.
#[verifier::ext_equal]
pub struct Collapsed {
    pub out: Seq<Address>,
    pub pinned: bool,
}

pub open spec fn is_same_message(a: Queued, b: Queued) -> bool {
    a.action_id == b.action_id && a.message_id == b.message_id
}

/// One more row. A move has one source, so it keeps one row for each message:
/// the one at its source, or else whichever has a number.
pub open spec fn with_row(c: Collapsed, rows: Seq<Queued>, row: int) -> Collapsed {
    let q = rows[row];
    let here = addressed(q, row);
    if !q.moves {
        Collapsed { out: c.out.push(here), pinned: false }
    } else if c.out.len() > 0 && is_same_message(rows[c.out.last().row], q) {
        if !c.pinned && c.out.last().uid is None && here.uid is Some {
            Collapsed { out: c.out.drop_last().push(here), pinned: c.pinned }
        } else {
            c
        }
    } else if source_is_gone(q) {
        Collapsed { out: c.out.push(pinned_to_source(q, row)), pinned: true }
    } else {
        Collapsed { out: c.out.push(here), pinned: false }
    }
}

pub open spec fn collapsed(rows: Seq<Queued>, upto: int) -> Collapsed
    decreases upto,
{
    if upto <= 0 {
        Collapsed { out: Seq::empty(), pinned: false }
    } else {
        with_row(collapsed(rows, upto - 1), rows, upto - 1)
    }
}

fn has_path(paths: &Vec<String>, path: &str) -> (r: bool)
    ensures
        r == strings(paths@).contains(path@),
{
    let mut i: usize = 0;
    while i < paths.len()
        invariant
            i <= paths@.len(),
            forall|j: int| 0 <= j < i ==> #[trigger] strings(paths@)[j] != path@,
        decreases paths@.len() - i,
    {
        assert(strings(paths@)[i as int] == paths@[i as int]@);
        if same(&paths[i], path) {
            return true;
        }
        i += 1;
    }
    assert(!strings(paths@).contains(path@));
    false
}

fn copy_of(s: &str) -> (out: String)
    ensures
        out@ == s@,
{
    string_of(&chars_of(s))
}

fn candidates(row: &QueuedRow) -> (out: Vec<String>)
    ensures
        strings(out@) == worth_asking(row@),
{
    let mut out: Vec<String> = Vec::new();
    assert(strings(out@) =~= Seq::<Seq<char>>::empty());
    if row.prior.is_some() {
        let mut i: usize = 0;
        let ghost all = strings(row.prior_paths@);
        assert(all.take(0) =~= Seq::<Seq<char>>::empty());
        while i < row.prior_paths.len()
            invariant
                i <= row.prior_paths@.len(),
                all == strings(row.prior_paths@),
                strings(out@) == once_each(all.take(i as int)),
            decreases row.prior_paths@.len() - i,
        {
            assert(all.take(i + 1).drop_last() =~= all.take(i as int));
            assert(all.take(i + 1).last() == row.prior_paths@[i as int]@);
            if !has_path(&out, &row.prior_paths[i]) {
                let ghost before = out@;
                out.push(copy_of(&row.prior_paths[i]));
                assert(strings(out@) =~= strings(before).push(row.prior_paths@[i as int]@));
            }
            i += 1;
        }
        assert(all.take(i as int) =~= all);
    }
    if chars_of(&row.folder_path).len() > 0 && !has_path(&out, &row.folder_path) {
        let ghost before = out@;
        out.push(copy_of(&row.folder_path));
        assert(strings(out@) =~= strings(before).push(row.folder_path@));
    }
    out
}

/// The path and number an action wrote down, where its folder has let the
/// message go.
fn gone_source(row: &QueuedRow) -> (r: Option<(String, Option<u32>)>)
    ensures
        match r {
            Some((path, uid)) => source_is_gone(row@) && source_path(row@) == Some(path@) && uid
                == source_uid(row@),
            None => !source_is_gone(row@),
        },
{
    if !row.readable {
        return None;
    }
    match &row.prior {
        None => None,
        Some(prior) => match &prior.source_path {
            None => None,
            Some(path) => if has_path(&row.held, path) {
                None
            } else {
                Some((copy_of(path), prior.source_uid))
            },
        },
    }
}

fn address(row: &QueuedRow, at: usize) -> (d: Delivery)
    ensures
        d@ == addressed(row@, at as int),
{
    if row.uid.is_some() || !row.readable {
        let none: Vec<String> = Vec::new();
        assert(strings(none@) =~= Seq::<Seq<char>>::empty());
        return Delivery {
            row: at,
            uid: row.uid,
            folder_path: copy_of(&row.folder_path),
            candidate_paths: none,
        };
    }
    if let Some((path, uid)) = gone_source(row) {
        if uid.is_some() {
            let none: Vec<String> = Vec::new();
            assert(strings(none@) =~= Seq::<Seq<char>>::empty());
            return Delivery { row: at, uid, folder_path: path, candidate_paths: none };
        }
    }
    Delivery {
        row: at,
        uid: None,
        folder_path: copy_of(&row.folder_path),
        candidate_paths: candidates(row),
    }
}

fn at_source(path: String, uid: Option<u32>, at: usize) -> (d: Delivery)
    ensures
        d@ == (Address {
            row: at as int,
            uid,
            path: path@,
            candidates: if uid is Some {
                Seq::empty()
            } else {
                seq![path@]
            },
        }),
{
    let mut ask: Vec<String> = Vec::new();
    if uid.is_none() {
        ask.push(copy_of(&path));
        assert(strings(ask@) =~= seq![path@]);
    } else {
        assert(strings(ask@) =~= Seq::<Seq<char>>::empty());
    }
    Delivery { row: at, uid, folder_path: path, candidate_paths: ask }
}

/// The queue as it is delivered, oldest first: two actions on one message must
/// arrive in the order they were performed, or the later one loses.
pub fn deliveries(rows: &Vec<QueuedRow>) -> (out: Vec<Delivery>)
    ensures
        addresses_of(out@) == collapsed(queue(rows@), rows@.len() as int).out,
        forall|i: int| 0 <= i < out@.len() ==> (#[trigger] out@[i]).row < rows@.len(),
{
    let mut out: Vec<Delivery> = Vec::new();
    let mut pinned = false;
    let mut i: usize = 0;
    let ghost all = queue(rows@);
    assert(addresses_of(out@) =~= Seq::<Address>::empty());
    while i < rows.len()
        invariant
            i <= rows@.len(),
            all == queue(rows@),
            addresses_of(out@) == collapsed(all, i as int).out,
            pinned == collapsed(all, i as int).pinned,
            forall|j: int| 0 <= j < out@.len() ==> (#[trigger] out@[j]).row < i,
        decreases rows@.len() - i,
    {
        let ghost before = out@;
        let ghost c = collapsed(all, i as int);
        assert(all[i as int] == rows@[i as int]@);
        assert(c.out.len() == before.len());
        let is_move = match rows[i].kind {
            Some(kind) => kind.is_a_move(),
            None => false,
        };
        let here = address(&rows[i], i);
        if !is_move {
            out.push(here);
            pinned = false;
            assert(addresses_of(out@) =~= addresses_of(before).push(here@));
        } else {
            let n = out.len();
            let same_message = n > 0 && {
                let last = out[n - 1].row;
                rows[last].action_id == rows[i].action_id && rows[last].message_id
                    == rows[i].message_id
            };
            proof {
                if n > 0 {
                    assert(c.out.last() == before.last()@);
                    assert(all[before.last().row as int] == rows@[before.last().row as int]@);
                }
            }
            if same_message {
                if !pinned && out[n - 1].uid.is_none() && here.uid.is_some() {
                    let _ = out.pop();
                    out.push(here);
                    assert(addresses_of(out@) =~= addresses_of(before).drop_last().push(here@));
                }
            } else {
                match gone_source(&rows[i]) {
                    Some((path, uid)) => {
                        let d = at_source(path, uid, i);
                        out.push(d);
                        pinned = true;
                        assert(addresses_of(out@) =~= addresses_of(before).push(d@));
                    },
                    None => {
                        out.push(here);
                        pinned = false;
                        assert(addresses_of(out@) =~= addresses_of(before).push(here@));
                    },
                }
            }
        }
        i += 1;
    }
    out
}

// ---------------------------------------------------------------------
// Laws
// ---------------------------------------------------------------------
/// Whether rows come oldest action first, and by message within an action,
/// with one kind for each action.
pub open spec fn is_in_order(rows: Seq<Queued>) -> bool {
    forall|i: int, j: int|
        0 <= i <= j < rows.len() ==> {
            let (a, b) = (#[trigger] rows[i], #[trigger] rows[j]);
            a.action_id < b.action_id || (a.action_id == b.action_id && a.message_id
                <= b.message_id && a.moves == b.moves)
        }
}

/// What is delivered comes in the order of the queue, each row at most once.
pub proof fn the_queue_keeps_its_order(rows: Seq<Queued>, upto: int)
    requires
        0 <= upto <= rows.len(),
    ensures
        forall|i: int|
            0 <= i < collapsed(rows, upto).out.len() ==> 0 <= (#[trigger] collapsed(
                rows,
                upto,
            ).out[i]).row < upto,
        forall|i: int, j: int|
            0 <= i < j < collapsed(rows, upto).out.len() ==> (#[trigger] collapsed(
                rows,
                upto,
            ).out[i]).row < (#[trigger] collapsed(rows, upto).out[j]).row,
    decreases upto,
{
    if upto > 0 {
        the_queue_keeps_its_order(rows, upto - 1);
    }
}

/// A move reaches the server once for each message, however many folders the
/// message is still in.
pub proof fn a_move_is_delivered_once(rows: Seq<Queued>, upto: int)
    requires
        0 <= upto <= rows.len(),
        is_in_order(rows),
    ensures
        forall|i: int, j: int|
            0 <= i < j < collapsed(rows, upto).out.len() && rows[(#[trigger] collapsed(
                rows,
                upto,
            ).out[j]).row].moves ==> !is_same_message(
                rows[(#[trigger] collapsed(rows, upto).out[i]).row],
                rows[collapsed(rows, upto).out[j].row],
            ),
    decreases upto,
{
    if upto > 0 {
        a_move_is_delivered_once(rows, upto - 1);
        the_queue_keeps_its_order(rows, upto - 1);
        the_queue_keeps_its_order(rows, upto);
        let before = collapsed(rows, upto - 1).out;
        let out = collapsed(rows, upto).out;
        let q = rows[upto - 1];
        assert forall|i: int, j: int| 0 <= i < j < out.len() && rows[(#[trigger] out[j]).row].moves implies !is_same_message(
            rows[(#[trigger] out[i]).row],
            rows[out[j].row],
        ) by {
            if out[j].row == upto - 1 {
                if out.len() == before.len() {
                    // It took the place of the last row, of the same message.
                    let last = before.len() - 1;
                    assert(out[i] == before[i]);
                    assert(is_same_message(rows[before[last].row], q));
                    assert(rows[before[last].row].moves);
                    assert(!is_same_message(rows[before[i].row], rows[before[last].row]));
                } else {
                    let last = before.len() - 1;
                    assert(out[i] == before[i]);
                    assert(!is_same_message(rows[before[last].row], q));
                    // Everything before the last row is no later than it.
                    assert(before[i].row <= before[last].row);
                    let (a, b) = (rows[before[i].row], rows[before[last].row]);
                    assert(a.action_id < b.action_id || (a.action_id == b.action_id
                        && a.message_id <= b.message_id && a.moves == b.moves));
                    let c = rows[before[last].row];
                    assert(c.action_id < q.action_id || (c.action_id == q.action_id
                        && c.message_id <= q.message_id && c.moves == q.moves));
                }
            } else {
                assert(out[i] == before[i]);
                assert(out[j] == before[j]);
            }
        }
    }
}

// ---------------------------------------------------------------------
// Outcomes
// ---------------------------------------------------------------------
/// What became of one message of an action.
#[derive(Debug, Clone, Copy, PartialEq, Eq, Structural)]
pub enum Outcome {
    /// Still to be tried.
    Open,
    /// It reached the server.
    Delivered,
    /// There was no copy on the server for it to change.
    Dropped,
}

/// Where an action ends, once every message of it has an outcome: sent if any
/// reached the server, and undeliverable if none did.
pub open spec fn end_of(outcomes: Seq<Outcome>) -> Option<Seq<char>> {
    if outcomes.contains(Outcome::Open) {
        None
    } else if outcomes.contains(Outcome::Delivered) {
        Some("sent"@)
    } else {
        Some("undeliverable"@)
    }
}

/// Where an action ends, or nothing while any message of it is open: an
/// archive of three messages is three moves, and one success does not settle
/// the other two.
pub fn settled(outcomes: &Vec<Outcome>) -> (r: Option<&'static str>)
    ensures
        match r {
            Some(state) => end_of(outcomes@) == Some(state@),
            None => end_of(outcomes@) is None,
        },
{
    let mut reached = false;
    let mut i: usize = 0;
    while i < outcomes.len()
        invariant
            i <= outcomes@.len(),
            forall|j: int| 0 <= j < i ==> outcomes@[j] != Outcome::Open,
            reached ==> outcomes@.contains(Outcome::Delivered),
            !reached ==> forall|j: int| 0 <= j < i ==> outcomes@[j] != Outcome::Delivered,
        decreases outcomes@.len() - i,
    {
        match outcomes[i] {
            Outcome::Open => {
                assert(outcomes@[i as int] == Outcome::Open);
                return None;
            },
            Outcome::Delivered => {
                assert(outcomes@[i as int] == Outcome::Delivered);
                reached = true;
            },
            Outcome::Dropped => {},
        }
        i += 1;
    }
    if reached {
        Some("sent")
    } else {
        Some("undeliverable")
    }
}

/// Whether an action in this state can still be settled. Only one that is
/// queued can: what was undone while a delivery was under way stays undone.
pub fn is_waiting(state: Option<&str>) -> (r: bool)
    ensures
        r == (state matches Some(s) && s@ == "queued"@),
{
    match state {
        Some(s) => same(s, "queued"),
        None => false,
    }
}

/// The column an outcome is written to.
pub fn outcome_column(delivered: bool) -> (column: &'static str)
    ensures
        column@ == (if delivered {
            "delivered_ms"@
        } else {
            "dropped_ms"@
        }),
{
    if delivered {
        "delivered_ms"
    } else {
        "dropped_ms"
    }
}

/// An action settles exactly when its last open message has an outcome.
pub proof fn an_action_settles_with_its_last_message(
    outcomes: Seq<Outcome>,
    at: int,
    outcome: Outcome,
)
    requires
        0 <= at < outcomes.len(),
        outcomes[at] == Outcome::Open,
        outcome != Outcome::Open,
    ensures
        end_of(outcomes) is None,
        end_of(outcomes.update(at, outcome)) is Some <==> forall|i: int|
            0 <= i < outcomes.len() && i != at ==> outcomes[i] != Outcome::Open,
{
    let next = outcomes.update(at, outcome);
    assert(outcomes.contains(Outcome::Open));
    if next.contains(Outcome::Open) {
        let i = choose|i: int| 0 <= i < next.len() && next[i] == Outcome::Open;
        assert(outcomes[i] == Outcome::Open);
    } else {
        assert forall|i: int| 0 <= i < outcomes.len() && i != at implies outcomes[i]
            != Outcome::Open by {
            assert(next[i] == outcomes[i]);
        }
    }
}

/// An action that reached the server for any of its messages was sent, and
/// one that reached it for none cannot be delivered.
pub proof fn one_that_arrived_is_enough(outcomes: Seq<Outcome>, at: int)
    ensures
        (0 <= at < outcomes.len() && outcomes[at] == Outcome::Open) ==> end_of(outcomes) is None,
        (0 <= at < outcomes.len() && outcomes[at] == Outcome::Delivered && forall|i: int|
            0 <= i < outcomes.len() ==> outcomes[i] != Outcome::Open) ==> end_of(outcomes) == Some(
            "sent"@,
        ),
        (forall|i: int| 0 <= i < outcomes.len() ==> outcomes[i] == Outcome::Dropped) ==> end_of(
            outcomes,
        ) == Some("undeliverable"@),
{
    if 0 <= at < outcomes.len() {
        assert(outcomes.contains(outcomes[at]));
    }
}

proof fn each_path_once(paths: Seq<Seq<char>>)
    ensures
        once_each(paths).no_duplicates(),
        forall|p: Seq<char>| #[trigger] once_each(paths).contains(p) == paths.contains(p),
    decreases paths.len(),
{
    if paths.len() > 0 {
        let init = paths.drop_last();
        each_path_once(init);
        let so_far = once_each(init);
        let last = paths.last();
        assert(paths =~= init.push(last));
        assert forall|p: Seq<char>| #[trigger] once_each(paths).contains(p) == paths.contains(p) by {
            assert(paths.contains(p) == (init.contains(p) || p == last)) by {
                if init.contains(p) {
                    let i = choose|i: int| 0 <= i < init.len() && init[i] == p;
                    assert(paths[i] == p);
                }
                if p == last {
                    assert(paths[paths.len() - 1] == p);
                }
                if paths.contains(p) && p != last {
                    let i = choose|i: int| 0 <= i < paths.len() && paths[i] == p;
                    assert(init[i] == p);
                }
            }
            if !so_far.contains(last) {
                let next = so_far.push(last);
                if so_far.contains(p) {
                    let i = choose|i: int| 0 <= i < so_far.len() && so_far[i] == p;
                    assert(next[i] == p);
                }
                if p == last {
                    assert(next[so_far.len() as int] == p);
                }
                if next.contains(p) && p != last {
                    let i = choose|i: int| 0 <= i < next.len() && next[i] == p;
                    assert(so_far[i] == p);
                }
            }
        }
    }
}

/// A message without a number is asked for in each folder it was in when the
/// action was queued and in the one that holds it now, in each of them once,
/// and in no other.
pub proof fn a_message_is_asked_for_where_it_may_be(q: Queued, path: Seq<char>)
    ensures
        worth_asking(q).no_duplicates(),
        worth_asking(q).contains(path) == ((q.prior is Some && q.prior_paths.contains(path)) || (
        path.len() > 0 && path == q.path)),
{
    each_path_once(q.prior_paths);
    let were = if q.prior is Some {
        once_each(q.prior_paths)
    } else {
        Seq::<Seq<char>>::empty()
    };
    if q.path.len() > 0 && !were.contains(q.path) {
        let all = were.push(q.path);
        assert(all[were.len() as int] == q.path);
        if were.contains(path) {
            let i = choose|i: int| 0 <= i < were.len() && were[i] == path;
            assert(all[i] == path);
        }
        if all.contains(path) && path != q.path {
            let i = choose|i: int| 0 <= i < all.len() && all[i] == path;
            assert(were[i] == path);
        }
    }
}

/// What is no move is delivered row by row. A row with a number goes by it,
/// and one without goes by the number that was written down, in the folder
/// that has let the message go since; where that folder still holds it, the
/// number there is not to be believed and the message is asked for.
pub proof fn a_row_goes_where_its_message_is(
    rows: Seq<Queued>,
    upto: int,
    from: Seq<char>,
    number: u32,
)
    requires
        0 <= upto < rows.len(),
        !rows[upto].moves,
    ensures
        ({
            let q = rows[upto];
            let before = collapsed(rows, upto).out;
            let after = collapsed(rows, upto + 1).out;
            let noted = q.prior matches Some(p) && p.source_path == Some(from) && p.source_uid
                == Some(number);
            &&& after.len() == before.len() + 1
            &&& after.drop_last() == before
            &&& after.last().row == upto
            &&& q.uid is Some || !q.readable ==> after.last().uid == q.uid && after.last().path
                == q.path && after.last().candidates.len() == 0
            &&& q.uid is None && q.readable && noted && !q.held.contains(from)
                ==> after.last().uid == Some(number) && after.last().path == from
                && after.last().candidates.len() == 0
            &&& q.uid is None && q.readable && noted && q.held.contains(from)
                ==> after.last().uid is None && after.last().path == q.path
                && after.last().candidates == worth_asking(q)
            &&& q.uid is None && q.readable && q.prior is None ==> after.last().uid is None
                && after.last().path == q.path && after.last().candidates == worth_asking(q)
            &&& q.uid is None && q.readable && (q.prior matches Some(p) && (p.source_uid is None
                || p.source_path is None)) ==> after.last().uid is None && after.last().path
                == q.path && after.last().candidates == worth_asking(q)
        }),
{
    let before = collapsed(rows, upto).out;
    let after = collapsed(rows, upto + 1).out;
    assert(after == before.push(addressed(rows[upto], upto)));
    assert(after.drop_last() =~= before);
}

/// A move goes to the folder it took the message out of, once that has let it
/// go: by the number it had there, or else by asking there and nowhere else.
/// A further row of the same message then says nothing more.
pub proof fn a_move_goes_to_its_source(rows: Seq<Queued>, upto: int, from: Seq<char>)
    requires
        0 <= upto < rows.len(),
        rows[upto].moves,
        rows[upto].readable,
        rows[upto].prior matches Some(p) && p.source_path == Some(from),
        !rows[upto].held.contains(from),
        collapsed(rows, upto).out.len() > 0 ==> !is_same_message(
            rows[collapsed(rows, upto).out.last().row],
            rows[upto],
        ),
    ensures
        ({
            let number = rows[upto].prior.unwrap().source_uid;
            let before = collapsed(rows, upto).out;
            let after = collapsed(rows, upto + 1).out;
            &&& after.len() == before.len() + 1
            &&& after.drop_last() == before
            &&& after.last().row == upto
            &&& after.last().path == from
            &&& after.last().uid == number
            &&& number is Some ==> after.last().candidates.len() == 0
            &&& number is None ==> after.last().candidates == seq![from]
            &&& upto + 1 < rows.len() && rows[upto + 1].moves && is_same_message(
                rows[upto],
                rows[upto + 1],
            ) ==> collapsed(rows, upto + 2).out == after
        }),
{
    let before = collapsed(rows, upto).out;
    let after = collapsed(rows, upto + 1).out;
    assert(after.drop_last() =~= before);
    assert(collapsed(rows, upto + 1) == with_row(collapsed(rows, upto), rows, upto));
    if upto + 1 < rows.len() {
        assert(collapsed(rows, upto + 2) == with_row(collapsed(rows, upto + 1), rows, upto + 1));
    }
}

/// Of two rows of one move whose source still holds the message, the first
/// with a number is the one that is delivered.
pub proof fn a_move_prefers_a_number(rows: Seq<Queued>, upto: int)
    requires
        0 <= upto,
        upto + 1 < rows.len(),
        rows[upto].moves,
        rows[upto + 1].moves,
        is_same_message(rows[upto], rows[upto + 1]),
        rows[upto].prior is None,
        rows[upto + 1].prior is None,
        collapsed(rows, upto).out.len() > 0 ==> !is_same_message(
            rows[collapsed(rows, upto).out.last().row],
            rows[upto],
        ),
    ensures
        ({
            let before = collapsed(rows, upto).out;
            let after = collapsed(rows, upto + 2).out;
            &&& after.len() == before.len() + 1
            &&& after.drop_last() == before
            &&& rows[upto].uid is Some ==> after.last().row == upto && after.last().uid
                == rows[upto].uid && after.last().path == rows[upto].path
            &&& rows[upto].uid is None && rows[upto + 1].uid is Some ==> after.last().row == upto
                + 1 && after.last().uid == rows[upto + 1].uid && after.last().path == rows[upto
                + 1].path
            &&& rows[upto].uid is None && rows[upto + 1].uid is None ==> after.last().row == upto
                && after.last().uid is None
        }),
{
    let before = collapsed(rows, upto).out;
    let mid = collapsed(rows, upto + 1);
    assert(mid == with_row(collapsed(rows, upto), rows, upto));
    assert(collapsed(rows, upto + 2) == with_row(mid, rows, upto + 1));
    assert(mid.out.drop_last() =~= before);
    assert(collapsed(rows, upto + 2).out.drop_last() =~= before);
}

} // verus!
