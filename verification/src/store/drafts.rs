//! Drafts and the outbox: mail that is still somebody's own, and mail on its
//! way out.

use super::error::{is_rejected, refused, StoreError};
use super::views::{DRAFT, SEEN};
use crate::outbox::SendState;
use crate::text::{
    at_most, chars_of, first_chars, is_trimmed, is_white, join, joined, put, same, string_of,
    strings, texts, trim, trim_fixes, trim_is_stretch, trim_start, trim_trims, trimmed,
};
use vstd::prelude::*;
use vstd::slice::slice_subrange;

verus! {

// ---------------------------------------------------------------------
// Recipients
// ---------------------------------------------------------------------
/// What parts one recipient from the next.
pub open spec fn parts_recipients(c: char) -> bool {
    c == ',' || c == ';'
}

/// What stands between the separators, empty stretches and all.
pub open spec fn stretches(s: Seq<char>) -> Seq<Seq<char>>
    decreases s.len(),
{
    if s.len() == 0 {
        seq![Seq::empty()]
    } else {
        let so_far = stretches(s.drop_last());
        if parts_recipients(s.last()) {
            so_far.push(Seq::empty())
        } else {
            so_far.drop_last().push(so_far.last().push(s.last()))
        }
    }
}

proof fn there_is_always_a_stretch(s: Seq<char>)
    ensures
        stretches(s).len() > 0,
    decreases s.len(),
{
    if s.len() > 0 {
        there_is_always_a_stretch(s.drop_last());
    }
}

/// The stretches that say something, without the white space round them.
pub open spec fn said(parts: Seq<Seq<char>>) -> Seq<Seq<char>>
    decreases parts.len(),
{
    if parts.len() == 0 {
        Seq::empty()
    } else if trim(parts.last()).len() == 0 {
        said(parts.drop_last())
    } else {
        said(parts.drop_last()).push(trim(parts.last()))
    }
}

/// The recipients a line of them names.
pub open spec fn recipients(line: Seq<char>) -> Seq<Seq<char>> {
    said(stretches(line))
}

proof fn the_stretch_under_way(s: Seq<char>, from: int)
    requires
        0 <= from <= s.len(),
        forall|i: int| from <= i < s.len() ==> !parts_recipients(#[trigger] s[i]),
        from > 0 ==> parts_recipients(s[from - 1]),
    ensures
        stretches(s) == if from > 0 {
            stretches(s.take(from - 1)).push(s.skip(from))
        } else {
            seq![s]
        },
    decreases s.len(),
{
    if s.len() == 0 {
        assert(s =~= Seq::<char>::empty());
    } else if from == s.len() {
        assert(s.drop_last() =~= s.take(from - 1));
        assert(s.skip(from) =~= Seq::<char>::empty());
    } else {
        let front = s.drop_last();
        assert forall|i: int| from <= i < front.len() implies !parts_recipients(
            #[trigger] front[i],
        ) by {
            assert(front[i] == s[i]);
        }
        assert(s.last() == s[s.len() - 1]);
        the_stretch_under_way(front, from);
        if from > 0 {
            assert(front.take(from - 1) =~= s.take(from - 1));
            assert(front.skip(from).push(s.last()) =~= s.skip(from));
            let before = stretches(s.take(from - 1));
            assert(before.push(front.skip(from)).drop_last() =~= before);
        } else {
            assert(seq![front].drop_last() =~= Seq::<Seq<char>>::empty());
            assert(front.push(s.last()) =~= s);
            assert(Seq::<Seq<char>>::empty().push(s) =~= seq![s]);
        }
    }
}

proof fn one_more_is_said(parts: Seq<Seq<char>>, part: Seq<char>)
    ensures
        said(parts.push(part)) == if trim(part).len() == 0 {
            said(parts)
        } else {
            said(parts).push(trim(part))
        },
{
    assert(parts.push(part).drop_last() =~= parts);
}

/// Reads a line of recipients. A comma parts them, and so does a semicolon.
pub fn recipients_in(line: &str) -> (out: Vec<String>)
    ensures
        strings(out@) == recipients(line@),
{
    let chars = chars_of(line);
    let mut out: Vec<String> = Vec::new();
    let mut from: usize = 0;
    let mut i: usize = 0;
    assert(strings(out@) =~= said(Seq::empty()));
    while i < chars.len()
        invariant
            from <= i <= chars@.len(),
            chars@ == line@,
            forall|k: int| from <= k < i ==> !parts_recipients(#[trigger] chars@[k]),
            from > 0 ==> parts_recipients(chars@[from - 1]),
            strings(out@) == if from > 0 {
                said(stretches(chars@.take(from - 1)))
            } else {
                Seq::empty()
            },
        decreases chars@.len() - i,
    {
        if chars[i] == ',' || chars[i] == ';' {
            let part = trimmed(slice_subrange(chars.as_slice(), from, i));
            proof {
                let here = chars@.take(i as int);
                assert forall|k: int| from <= k < here.len() implies !parts_recipients(
                    #[trigger] here[k],
                ) by {
                    assert(here[k] == chars@[k]);
                }
                the_stretch_under_way(here, from as int);
                assert(here.skip(from as int) =~= chars@.subrange(from as int, i as int));
                if from > 0 {
                    assert(here.take(from - 1) =~= chars@.take(from - 1));
                    one_more_is_said(stretches(chars@.take(from - 1)), here.skip(from as int));
                } else {
                    assert(chars@.subrange(0, i as int) =~= here);
                    one_more_is_said(Seq::empty(), here);
                    assert(Seq::<Seq<char>>::empty().push(here) =~= seq![here]);
                }
            }
            let ghost before = out@;
            if part.len() > 0 {
                let text = string_of(part);
                out.push(text);
                assert(strings(out@) =~= strings(before).push(text@));
            }
            from = i + 1;
            assert(chars@.take(from - 1) =~= chars@.take(i as int));
        }
        i += 1;
    }
    let part = trimmed(slice_subrange(chars.as_slice(), from, i));
    proof {
        assert(chars@.skip(from as int) =~= chars@.subrange(from as int, i as int));
        the_stretch_under_way(chars@, from as int);
        if from > 0 {
            one_more_is_said(stretches(chars@.take(from - 1)), chars@.skip(from as int));
        } else {
            assert(chars@.subrange(0, i as int) =~= chars@);
            one_more_is_said(Seq::empty(), chars@);
            assert(Seq::<Seq<char>>::empty().push(chars@) =~= seq![chars@]);
        }
    }
    let ghost before = out@;
    if part.len() > 0 {
        let text = string_of(part);
        out.push(text);
        assert(strings(out@) =~= strings(before).push(text@));
    }
    out
}

/// Recipients as one line, as a composer shows them.
pub fn recipient_line(all: &Vec<String>) -> (line: String)
    ensures
        line@ == joined(strings(all@), ", "@),
{
    let mut parts: Vec<Vec<char>> = Vec::new();
    let mut i: usize = 0;
    while i < all.len()
        invariant
            i <= all@.len(),
            parts@.len() == i,
            forall|j: int| 0 <= j < i ==> (#[trigger] parts@[j])@ == all@[j]@,
        decreases all@.len() - i,
    {
        parts.push(chars_of(&all[i]));
        i += 1;
    }
    assert(texts(parts@) =~= strings(all@));
    string_of(&join(&parts, ", "))
}

/// Whether a text can stand in a line of recipients and be read back.
pub open spec fn is_recipient(s: Seq<char>) -> bool {
    &&& s.len() > 0
    &&& is_trimmed(s)
    &&& forall|i: int| 0 <= i < s.len() ==> !parts_recipients(#[trigger] s[i])
}

proof fn stretches_hold_no_separator(s: Seq<char>)
    ensures
        forall|k: int, i: int|
            0 <= k < stretches(s).len() && 0 <= i < stretches(s)[k].len() ==> !parts_recipients(
                #[trigger] stretches(s)[k][i],
            ),
    decreases s.len(),
{
    if s.len() > 0 {
        let front = s.drop_last();
        let so_far = stretches(front);
        there_is_always_a_stretch(front);
        stretches_hold_no_separator(front);
        assert forall|k: int, i: int|
            0 <= k < stretches(s).len() && 0 <= i < stretches(s)[k].len() implies !parts_recipients(
            #[trigger] stretches(s)[k][i],
        ) by {
            if parts_recipients(s.last()) {
                if k < so_far.len() {
                    assert(stretches(s)[k] == so_far[k]);
                }
            } else if k < so_far.len() - 1 {
                assert(stretches(s)[k] == so_far[k]);
            } else {
                assert(stretches(s)[k] == so_far.last().push(s.last()));
                if i < so_far.last().len() {
                    assert(so_far[so_far.len() - 1][i] == stretches(s)[k][i]);
                }
            }
        }
    }
}

proof fn what_is_said_is_a_recipient(parts: Seq<Seq<char>>)
    requires
        forall|k: int, i: int|
            0 <= k < parts.len() && 0 <= i < parts[k].len() ==> !parts_recipients(
                #[trigger] parts[k][i],
            ),
    ensures
        forall|k: int| 0 <= k < said(parts).len() ==> is_recipient(#[trigger] said(parts)[k]),
    decreases parts.len(),
{
    if parts.len() > 0 {
        let front = parts.drop_last();
        assert forall|k: int, i: int|
            0 <= k < front.len() && 0 <= i < front[k].len() implies !parts_recipients(
            #[trigger] front[k][i],
        ) by {
            assert(front[k] == parts[k]);
            assert(!parts_recipients(parts[k][i]));
        }
        what_is_said_is_a_recipient(front);
        let last = parts.last();
        let part = trim(last);
        if part.len() > 0 {
            trim_trims(last);
            let at = trim_is_stretch(last);
            assert forall|i: int| 0 <= i < part.len() implies !parts_recipients(
                #[trigger] part[i],
            ) by {
                assert(part[i] == last[at + i]);
                assert(parts[parts.len() - 1] == last);
                assert(!parts_recipients(parts[parts.len() - 1][at + i]));
            }
            assert forall|k: int| 0 <= k < said(parts).len() implies is_recipient(
                #[trigger] said(parts)[k],
            ) by {
                if k < said(front).len() {
                    assert(said(parts)[k] == said(front)[k]);
                }
            }
        }
    }
}

/// A space before a recipient says nothing.
proof fn a_space_says_nothing(s: Seq<char>)
    requires
        is_recipient(s),
    ensures
        trim(" "@ + s) == s,
{
    reveal_strlit(" ");
    let spaced = " "@ + s;
    assert(is_white(spaced[0]));
    assert(spaced.skip(1) =~= s);
    trim_fixes(s);
    assert(trim_start(s) == s);
}

/// A line of recipients reads back as the recipients it was made of.
proof fn a_line_reads_back(all: Seq<Seq<char>>)
    requires
        forall|k: int| 0 <= k < all.len() ==> is_recipient(#[trigger] all[k]),
    ensures
        recipients(joined(all, ", "@)) == all,
    decreases all.len(),
{
    reveal_strlit(", ");
    reveal_strlit(" ");
    if all.len() == 0 {
        let empty = Seq::<char>::empty();
        assert(joined(all, ", "@) =~= empty);
        one_more_is_said(Seq::empty(), empty);
        assert(Seq::<Seq<char>>::empty().push(empty) =~= seq![empty]);
        assert(said(stretches(empty)) =~= all);
    } else if all.len() == 1 {
        let one = all[0];
        the_stretch_under_way(one, 0);
        one_more_is_said(Seq::empty(), one);
        assert(Seq::<Seq<char>>::empty().push(one) =~= seq![one]);
        trim_fixes(one);
        assert(recipients(one) =~= all);
    } else {
        let front = all.drop_last();
        let last = all.last();
        assert(all[all.len() - 1] == last);
        assert forall|k: int| 0 <= k < front.len() implies is_recipient(#[trigger] front[k]) by {
            assert(front[k] == all[k]);
        }
        a_line_reads_back(front);
        let line = joined(front, ", "@);
        let whole = joined(all, ", "@);
        let from = line.len() + 1;
        assert(whole =~= line + seq![','] + (" "@ + last));
        assert forall|i: int| from <= i < whole.len() implies !parts_recipients(
            #[trigger] whole[i],
        ) by {
            if i > from {
                assert(whole[i] == last[i - from - 1]);
            } else {
                assert(whole[i] == ' ');
            }
        }
        the_stretch_under_way(whole, from as int);
        assert(whole.take(from - 1) =~= line);
        assert(whole.skip(from as int) =~= " "@ + last);
        one_more_is_said(stretches(line), " "@ + last);
        a_space_says_nothing(last);
        assert(recipients(whole) =~= all);
    }
}

/// However a line of recipients was typed, a draft opened and saved again goes
/// to the same people.
pub proof fn saving_again_keeps_the_recipients(line: Seq<char>)
    ensures
        recipients(joined(recipients(line), ", "@)) == recipients(line),
{
    stretches_hold_no_separator(line);
    what_is_said_is_a_recipient(stretches(line));
    a_line_reads_back(recipients(line));
}

// ---------------------------------------------------------------------
// What a draft writes
// ---------------------------------------------------------------------
/// The columns worked out for a draft.
#[derive(Debug, Clone, PartialEq, Eq)]
pub struct DraftRow {
    pub snippet: String,
    pub flags: i64,
    pub addrs: String,
    pub to: Vec<String>,
    pub cc: Vec<String>,
}

/// What a draft writes: a message like any other, that it may be listed, found
/// and filed like any other.
pub fn draft_row(to: &str, cc: &str, body: &str) -> (r: DraftRow)
    ensures
        r.snippet@ == at_most(body@, 200),
        r.flags == DRAFT | SEEN,
        r.addrs@ == to@ + " "@ + cc@,
        strings(r.to@) == recipients(to@),
        strings(r.cc@) == recipients(cc@),
{
    let mut addrs = chars_of(to);
    put(&mut addrs, " ");
    put(&mut addrs, cc);
    DraftRow {
        snippet: string_of(&first_chars(&chars_of(body), 200)),
        flags: DRAFT | SEEN,
        addrs: string_of(&addrs),
        to: recipients_in(to),
        cc: recipients_in(cc),
    }
}

/// The account a draft is saved in: the one it was written in, not whichever
/// is on show. A draft that is no longer there is refused, not brought back.
pub fn draft_account(draft: Option<i64>, its_account: Option<i64>, account: i64) -> (r: Result<
    i64,
    StoreError,
>)
    ensures
        match r {
            Ok(id) => match draft {
                Some(_) => its_account == Some(id),
                None => id == account,
            },
            Err(e) => draft is Some && its_account is None && is_rejected(
                e,
                "that draft no longer exists"@,
            ),
        },
{
    match draft {
        Some(_) => match its_account {
            Some(id) => Ok(id),
            None => Err(draft_is_gone()),
        },
        None => Ok(account),
    }
}

/// The refusal to save a draft that was sent or thrown away meanwhile.
pub fn draft_is_gone() -> (e: StoreError)
    ensures
        is_rejected(e, "that draft no longer exists"@),
{
    refused("that draft no longer exists")
}

// ---------------------------------------------------------------------
// The outbox
// ---------------------------------------------------------------------
/// A state as it is written down.
pub open spec fn state_text(state: SendState) -> Seq<char> {
    match state {
        SendState::UndoWindow => "UndoWindow"@,
        SendState::Transmitting => "Transmitting"@,
        SendState::Sent => "Sent"@,
        SendState::RetryQueued => "RetryQueued"@,
        SendState::FailedPermanent => "FailedPermanent"@,
        SendState::NeedsAttention => "NeedsAttention"@,
    }
}

pub fn state_name(state: SendState) -> (name: &'static str)
    ensures
        name@ == state_text(state),
{
    match state {
        SendState::UndoWindow => "UndoWindow",
        SendState::Transmitting => "Transmitting",
        SendState::Sent => "Sent",
        SendState::RetryQueued => "RetryQueued",
        SendState::FailedPermanent => "FailedPermanent",
        SendState::NeedsAttention => "NeedsAttention",
    }
}

/// Whether a state is one in which something went over the wire. Being held,
/// or put back in the queue by hand, is not an attempt.
pub fn counts_as_attempt(state: SendState) -> (r: bool)
    ensures
        r == (state == SendState::Sent || state == SendState::RetryQueued || state
            == SendState::FailedPermanent || state == SendState::NeedsAttention),
{
    match state {
        SendState::Sent
        | SendState::RetryQueued
        | SendState::FailedPermanent
        | SendState::NeedsAttention => true,
        SendState::UndoWindow | SendState::Transmitting => false,
    }
}

/// A message on its way out.
#[derive(Debug, Clone, PartialEq, Eq)]
pub struct Outgoing {
    pub id: i64,
    pub send_after_ms: i64,
    /// The next rung of the retry ladder, where there is one.
    pub send_next_ms: Option<i64>,
    pub state: Option<String>,
}

/// Whether a message may go by itself. One whose outcome could not be proved
/// waits for a person, however long it takes.
pub open spec fn goes_by_itself(m: Outgoing) -> bool {
    match m.state {
        Some(s) => s@ == "UndoWindow"@ || s@ == "RetryQueued"@,
        None => true,
    }
}

/// When a message's turn comes: at its time or at its next try, whichever is
/// later.
pub open spec fn due_at(m: Outgoing) -> int {
    let next = match m.send_next_ms {
        Some(n) => n as int,
        None => 0,
    };
    if next > m.send_after_ms {
        next
    } else {
        m.send_after_ms as int
    }
}

pub open spec fn is_due(m: Outgoing, now_ms: int) -> bool {
    goes_by_itself(m) && due_at(m) <= now_ms
}

fn may_go(m: &Outgoing) -> (r: bool)
    ensures
        r == goes_by_itself(*m),
{
    match &m.state {
        Some(s) => same(s, "UndoWindow") || same(s, "RetryQueued"),
        None => true,
    }
}

fn turn_of(m: &Outgoing) -> (r: i64)
    ensures
        r == due_at(*m),
{
    let next: i64 = match m.send_next_ms {
        Some(n) => n,
        None => 0,
    };
    if next > m.send_after_ms {
        next
    } else {
        m.send_after_ms
    }
}

/// The messages whose turn it is, in the order they are listed.
pub open spec fn due(all: Seq<Outgoing>, now_ms: int) -> Seq<i64>
    decreases all.len(),
{
    if all.len() == 0 {
        Seq::empty()
    } else if is_due(all.last(), now_ms) {
        due(all.drop_last(), now_ms).push(all.last().id)
    } else {
        due(all.drop_last(), now_ms)
    }
}

/// Works out whose turn it is. A comparison against the clock, not a timer: a
/// message due while nothing ran goes in the next round.
pub fn due_sends(all: &Vec<Outgoing>, now_ms: i64) -> (ids: Vec<i64>)
    ensures
        ids@ == due(all@, now_ms as int),
{
    let mut ids: Vec<i64> = Vec::new();
    let mut i: usize = 0;
    assert(all@.take(0) =~= Seq::<Outgoing>::empty());
    while i < all.len()
        invariant
            i <= all@.len(),
            ids@ == due(all@.take(i as int), now_ms as int),
        decreases all@.len() - i,
    {
        assert(all@.take(i + 1).drop_last() =~= all@.take(i as int));
        assert(all@.take(i + 1).last() == all@[i as int]);
        if may_go(&all[i]) && turn_of(&all[i]) <= now_ms {
            ids.push(all[i].id);
        }
        i += 1;
    }
    assert(all@.take(i as int) =~= all@);
    ids
}

/// The moment a clock should wake at, if anything waits.
pub fn next_due_ms(all: &Vec<Outgoing>) -> (r: Option<i64>)
    ensures
        match r {
            Some(t) => {
                &&& exists|i: int|
                    0 <= i < all@.len() && goes_by_itself(#[trigger] all@[i]) && due_at(all@[i])
                        == t
                &&& forall|i: int|
                    0 <= i < all@.len() && goes_by_itself(#[trigger] all@[i]) ==> t <= due_at(
                        all@[i],
                    )
            },
            None => forall|i: int| 0 <= i < all@.len() ==> !goes_by_itself(#[trigger] all@[i]),
        },
{
    let mut best: Option<i64> = None;
    let mut i: usize = 0;
    while i < all.len()
        invariant
            i <= all@.len(),
            match best {
                Some(t) => {
                    &&& exists|k: int|
                        0 <= k < i && goes_by_itself(#[trigger] all@[k]) && due_at(all@[k]) == t
                    &&& forall|k: int|
                        0 <= k < i && goes_by_itself(#[trigger] all@[k]) ==> t <= due_at(all@[k])
                },
                None => forall|k: int| 0 <= k < i ==> !goes_by_itself(#[trigger] all@[k]),
            },
        decreases all@.len() - i,
    {
        if may_go(&all[i]) {
            let turn: i64 = turn_of(&all[i]);
            let sooner = match best {
                Some(t) => turn < t,
                None => true,
            };
            if sooner {
                best = Some(turn);
                assert(due_at(all@[i as int]) == turn);
            }
        }
        i += 1;
    }
    best
}

proof fn due_is_who_is_due(all: Seq<Outgoing>, now_ms: int)
    ensures
        due(all, now_ms).len() > 0 <==> exists|i: int|
            0 <= i < all.len() && is_due(#[trigger] all[i], now_ms),
    decreases all.len(),
{
    if all.len() > 0 {
        let front = all.drop_last();
        due_is_who_is_due(front, now_ms);
        if is_due(all.last(), now_ms) {
            assert(is_due(all[all.len() - 1], now_ms));
        } else {
            if exists|i: int| 0 <= i < all.len() && is_due(#[trigger] all[i], now_ms) {
                let i = choose|i: int| 0 <= i < all.len() && is_due(#[trigger] all[i], now_ms);
                assert(i < front.len());
                assert(is_due(front[i], now_ms));
            }
            if exists|i: int| 0 <= i < front.len() && is_due(#[trigger] front[i], now_ms) {
                let i = choose|i: int| 0 <= i < front.len() && is_due(#[trigger] front[i], now_ms);
                assert(is_due(all[i], now_ms));
            }
        }
    }
}

/// A clock that wakes at the least moment anything is due misses nothing and
/// is never early: before it nobody's turn has come, and at it somebody's has.
pub proof fn waking_when_due_misses_nothing(all: Seq<Outgoing>, wake: int, now_ms: int)
    requires
        exists|i: int|
            0 <= i < all.len() && goes_by_itself(#[trigger] all[i]) && due_at(all[i]) == wake,
        forall|i: int|
            0 <= i < all.len() && goes_by_itself(#[trigger] all[i]) ==> wake <= due_at(all[i]),
    ensures
        due(all, now_ms).len() > 0 <==> now_ms >= wake,
{
    due_is_who_is_due(all, now_ms);
    if now_ms >= wake {
        let i = choose|i: int|
            0 <= i < all.len() && goes_by_itself(#[trigger] all[i]) && due_at(all[i]) == wake;
        assert(is_due(all[i], now_ms));
    }
}

/// What a person has to decide is never decided by waiting: a message in any
/// other state is due at no time at all.
pub proof fn what_is_held_is_never_due(m: Outgoing, state: SendState, now_ms: int)
    requires
        m.state matches Some(s) && s@ == state_text(state),
        state != SendState::UndoWindow,
        state != SendState::RetryQueued,
    ensures
        !is_due(m, now_ms),
{
    reveal_strlit("UndoWindow");
    reveal_strlit("RetryQueued");
    reveal_strlit("Transmitting");
    reveal_strlit("Sent");
    reveal_strlit("FailedPermanent");
    reveal_strlit("NeedsAttention");
    let s = state_text(state);
    assert(s[0] != 'U' && s[0] != 'R') by {
        match state {
            SendState::Transmitting => assert(s[0] == 'T'),
            SendState::Sent => assert(s[0] == 'S'),
            SendState::FailedPermanent => assert(s[0] == 'F'),
            _ => assert(s[0] == 'N'),
        }
    }
}

/// Where a send that was cut short is left. What was going over the wire may
/// have arrived: it is held for a person.
pub fn recovered(state: SendState) -> (r: SendState)
    ensures
        r == if state == SendState::Transmitting {
            SendState::NeedsAttention
        } else {
            state
        },
{
    match state {
        SendState::Transmitting => SendState::NeedsAttention,
        _ => state,
    }
}

// ---------------------------------------------------------------------
// Laws
// ---------------------------------------------------------------------
proof fn stretches_join(a: Seq<char>, mark: char, b: Seq<char>)
    requires
        mark == ',' || mark == ';',
    ensures
        stretches(a.push(mark) + b) == stretches(a) + stretches(b),
    decreases b.len(),
{
    there_is_always_a_stretch(b);
    if b.len() == 0 {
        assert(a.push(mark) + b =~= a.push(mark));
        assert(a.push(mark).drop_last() =~= a);
        assert(stretches(a.push(mark)) =~= stretches(a) + stretches(b));
    } else {
        let whole = a.push(mark) + b;
        let front = b.drop_last();
        assert(whole.drop_last() =~= a.push(mark) + front);
        assert(whole.last() == b.last());
        stretches_join(a, mark, front);
        there_is_always_a_stretch(front);
        assert(stretches(whole) =~= stretches(a) + stretches(b));
    }
}

proof fn what_is_said_adds_up(a: Seq<Seq<char>>, b: Seq<Seq<char>>)
    ensures
        said(a + b) == said(a) + said(b),
    decreases b.len(),
{
    if b.len() == 0 {
        assert(a + b =~= a);
        assert(said(a) + said(b) =~= said(a));
    } else {
        assert((a + b).drop_last() =~= a + b.drop_last());
        what_is_said_adds_up(a, b.drop_last());
        assert(said(a + b) =~= said(a) + said(b));
    }
}

/// A comma or a semicolon parts those before it from those after it, and does
/// nothing else; what it does not part is one recipient.
pub proof fn a_comma_parts_recipients(a: Seq<char>, b: Seq<char>, one: Seq<char>)
    ensures
        recipients(a + seq![','] + b) == recipients(a) + recipients(b),
        recipients(a + seq![';'] + b) == recipients(a) + recipients(b),
        (forall|i: int| 0 <= i < one.len() ==> #[trigger] one[i] != ',' && one[i] != ';')
            ==> recipients(one) == if trim(one).len() == 0 {
            Seq::<Seq<char>>::empty()
        } else {
            seq![trim(one)]
        },
{
    stretches_join(a, ',', b);
    stretches_join(a, ';', b);
    assert(a + seq![','] + b =~= a.push(',') + b);
    assert(a + seq![';'] + b =~= a.push(';') + b);
    what_is_said_adds_up(stretches(a), stretches(b));
    if forall|i: int| 0 <= i < one.len() ==> #[trigger] one[i] != ',' && one[i] != ';' {
        the_stretch_under_way(one, 0);
        one_more_is_said(Seq::empty(), one);
        assert(Seq::<Seq<char>>::empty().push(one) =~= seq![one]);
        assert(Seq::<Seq<char>>::empty().push(trim(one)) =~= seq![trim(one)]);
    }
}

/// A message's turn comes when both its time and its next try have come, and
/// no later.
pub proof fn a_turn_comes_with_the_later_of_two_times(m: Outgoing, now_ms: int)
    requires
        m.send_after_ms >= 0,
    ensures
        due_at(m) <= now_ms <==> m.send_after_ms <= now_ms && (m.send_next_ms matches Some(next)
            ==> next <= now_ms),
{
}

/// What has not been tried, what waits to be taken back and what waits to be
/// tried again all go by themselves.
pub proof fn what_waits_goes_by_itself(m: Outgoing)
    ensures
        m.state is None ==> goes_by_itself(m),
        (m.state matches Some(s) && s@ == state_text(SendState::UndoWindow)) ==> goes_by_itself(m),
        (m.state matches Some(s) && s@ == state_text(SendState::RetryQueued)) ==> goes_by_itself(m),
{
}

/// Whether one message is due has nothing to do with another.
pub proof fn each_is_due_for_itself(a: Seq<Outgoing>, b: Seq<Outgoing>, m: Outgoing, now_ms: int)
    ensures
        due(a + b, now_ms) == due(a, now_ms) + due(b, now_ms),
        due(seq![m], now_ms) == if goes_by_itself(m) && due_at(m) <= now_ms {
            seq![m.id]
        } else {
            Seq::<i64>::empty()
        },
    decreases b.len(),
{
    assert(seq![m].drop_last() =~= Seq::<Outgoing>::empty());
    assert(due(seq![m].drop_last(), now_ms) =~= Seq::<i64>::empty());
    assert(Seq::<i64>::empty().push(m.id) =~= seq![m.id]);
    if b.len() == 0 {
        assert(a + b =~= a);
        assert(due(a, now_ms) + due(b, now_ms) =~= due(a, now_ms));
    } else {
        assert((a + b).drop_last() =~= a + b.drop_last());
        each_is_due_for_itself(a, b.drop_last(), m, now_ms);
        assert(due(a + b, now_ms) =~= due(a, now_ms) + due(b, now_ms));
    }
}

} // verus!
