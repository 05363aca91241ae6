//! Keeping the store trustworthy: what leaves it, who is trusted, and whom a
//! message might be for.

use crate::order::{
    inserted_in_order, is_all_positions, is_stable_order, is_weak_order, positions,
};
use crate::retention::{RetentionMode, MS_PER_DAY};
use crate::text::{
    ascii_lowercase, ascii_lowered, chars_of, ends, ends_with, lower, lowered, put, same, string_of,
    trim, trimmed,
};
use vstd::prelude::*;

verus! {

/// What a garbage-collection pass destroyed.
#[derive(Debug, Clone, PartialEq, Eq)]
pub struct GcReport {
    pub messages_purged: usize,
    pub blobs_removed: usize,
    /// Queued actions that cannot be delivered, taken out of the queue.
    pub actions_orphaned: usize,
}

// ---------------------------------------------------------------------
// What the server no longer has
// ---------------------------------------------------------------------
/// A message that is held, and the key it is kept under.
#[derive(Debug, Clone, PartialEq, Eq)]
pub struct HeldKey {
    pub id: i64,
    pub key: String,
}

pub open spec fn is_present(key: Seq<char>, present: Seq<String>) -> bool {
    exists|i: int| 0 <= i < present.len() && (#[trigger] present[i])@ == key
}

/// The messages that are held and are not on the server.
pub open spec fn missing(all: Seq<HeldKey>, present: Seq<String>) -> Seq<i64>
    decreases all.len(),
{
    if all.len() == 0 {
        Seq::empty()
    } else if is_present(all.last().key@, present) {
        missing(all.drop_last(), present)
    } else {
        missing(all.drop_last(), present).push(all.last().id)
    }
}

/// The messages that go because the server no longer has them. An account
/// that keeps its own archive lets nothing go: that is the whole of the mode.
pub open spec fn let_go(mode: RetentionMode, all: Seq<HeldKey>, present: Seq<String>) -> Seq<i64> {
    if mode == RetentionMode::LocalArchive {
        Seq::empty()
    } else {
        missing(all, present)
    }
}

fn found(key: &str, present: &Vec<String>) -> (r: bool)
    ensures
        r == is_present(key@, present@),
{
    let mut i: usize = 0;
    while i < present.len()
        invariant
            i <= present@.len(),
            forall|j: int| 0 <= j < i ==> (#[trigger] present@[j])@ != key@,
        decreases present@.len() - i,
    {
        if same(&present[i], key) {
            return true;
        }
        i += 1;
    }
    false
}

/// Works out what goes.
pub fn server_absences(mode: RetentionMode, all: &Vec<HeldKey>, present: &Vec<String>) -> (ids: Vec<
    i64,
>)
    ensures
        ids@ == let_go(mode, all@, present@),
{
    let mut ids: Vec<i64> = Vec::new();
    match mode {
        RetentionMode::LocalArchive => {
            return ids;
        },
        RetentionMode::Mirror => {},
    }
    let mut i: usize = 0;
    assert(all@.take(0) =~= Seq::<HeldKey>::empty());
    while i < all.len()
        invariant
            i <= all@.len(),
            ids@ == missing(all@.take(i as int), present@),
        decreases all@.len() - i,
    {
        assert(all@.take(i + 1).drop_last() =~= all@.take(i as int));
        assert(all@.take(i + 1).last() == all@[i as int]);
        if !found(&all[i].key, present) {
            ids.push(all[i].id);
        }
        i += 1;
    }
    assert(all@.take(i as int) =~= all@);
    ids
}

/// Nothing goes that the server still has, and from an account that keeps its
/// own archive nothing goes at all.
pub proof fn nothing_goes_that_is_there(
    mode: RetentionMode,
    all: Seq<HeldKey>,
    present: Seq<String>,
    id: i64,
)
    requires
        let_go(mode, all, present).contains(id),
    ensures
        mode == RetentionMode::Mirror,
        exists|i: int|
            0 <= i < all.len() && (#[trigger] all[i]).id == id && !is_present(all[i].key@, present),
    decreases all.len(),
{
    if all.len() > 0 {
        let front = all.drop_last();
        let ids = missing(all, present);
        let at = choose|k: int| 0 <= k < ids.len() && ids[k] == id;
        if at < missing(front, present).len() {
            assert(missing(front, present)[at] == id);
            nothing_goes_that_is_there(mode, front, present, id);
            let i = choose|i: int|
                0 <= i < front.len() && (#[trigger] front[i]).id == id && !is_present(
                    front[i].key@,
                    present,
                );
            assert(all[i] == front[i]);
        } else {
            assert(all[all.len() - 1].id == id);
        }
    }
}

// ---------------------------------------------------------------------
// Demonstration mail
// ---------------------------------------------------------------------
/// Where demonstration mail comes from: names that nobody can own.
pub const DEMO_ENDINGS: [&'static str; 7] = [
    "example.com",
    "example.org",
    "example.net",
    "example.io",
    "example.dev",
    ".example",
    "example.jp",
];

/// Whether an address is one of those, however its letters are written.
pub open spec fn is_demo(addr: Seq<char>) -> bool {
    exists|i: int| 0 <= i < 7 && ends(ascii_lowercase(addr), (#[trigger] DEMO_ENDINGS@[i])@)
}

fn from_a_demo(addr: &str) -> (r: bool)
    ensures
        r == is_demo(addr@),
{
    let low = ascii_lowered(&chars_of(addr));
    let endings = DEMO_ENDINGS;
    let mut i: usize = 0;
    while i < 7
        invariant
            i <= 7,
            endings@ == DEMO_ENDINGS@,
            low@ == ascii_lowercase(addr@),
            forall|j: int| 0 <= j < i ==> !ends(low@, (#[trigger] DEMO_ENDINGS@[j])@),
        decreases 7 - i,
    {
        if ends_with(&low, &chars_of(endings[i])) {
            assert(ends(ascii_lowercase(addr@), DEMO_ENDINGS@[i as int]@));
            return true;
        }
        i += 1;
    }
    false
}

/// Whether every message came of a demonstration. One real message makes it
/// false, and then nothing may be wiped.
pub fn all_synthetic(senders: &Vec<String>) -> (r: bool)
    ensures
        r == forall|i: int| 0 <= i < senders@.len() ==> is_demo((#[trigger] senders@[i])@),
{
    let mut i: usize = 0;
    while i < senders.len()
        invariant
            i <= senders@.len(),
            forall|j: int| 0 <= j < i ==> is_demo((#[trigger] senders@[j])@),
        decreases senders@.len() - i,
    {
        if !from_a_demo(&senders[i]) {
            return false;
        }
        i += 1;
    }
    true
}

// ---------------------------------------------------------------------
// Who is trusted
// ---------------------------------------------------------------------
/// An address as the list of the trusted holds it.
pub open spec fn sender(addr: Seq<char>) -> Seq<char> {
    lower(trim(addr))
}

pub fn sender_key(addr: &str) -> (key: String)
    ensures
        key@ == sender(addr@),
{
    lowered(&string_of(trimmed(&chars_of(addr))))
}

/// Who sent a message, where anybody did.
pub fn message_sender(from: Option<&str>) -> (r: Option<String>)
    ensures
        match r {
            Some(key) => from matches Some(addr) && key@ == sender(addr@) && key@.len() > 0,
            None => match from {
                Some(addr) => sender(addr@).len() == 0,
                None => true,
            },
        },
{
    match from {
        Some(addr) => {
            let key = sender_key(addr);
            if chars_of(&key).len() == 0 {
                None
            } else {
                Some(key)
            }
        },
        None => None,
    }
}

/// Whether a message may load what it points at elsewhere. Loading tells the
/// sender that the address is real and when it was read; somebody who has been
/// written to knows that already, and so does somebody trusted by hand. Where
/// there is no sender to judge there is no reason to trust one.
pub fn remote_content_allowed(sender: &Option<String>, trusted: bool, written_to: bool) -> (r: bool)
    ensures
        r == (sender is Some && (trusted || written_to)),
{
    sender.is_some() && (trusted || written_to)
}

// ---------------------------------------------------------------------
// Whom a message might be for
// ---------------------------------------------------------------------
/// A correspondent to offer while a recipient is being typed.
#[derive(Debug, Clone, PartialEq, Eq)]
pub struct Correspondent {
    pub addr: String,
    pub display: String,
    /// Whether somebody here has written to them: the most useful thing to
    /// know of a suggestion.
    pub written_to: bool,
}

/// What a prefix is matched with: the start of an address, of a word of the
/// name, or of a domain. Not any stretch: "an" should not offer everybody
/// with an "an" in the middle of their name.
#[derive(Debug, Clone, PartialEq, Eq)]
pub struct Patterns {
    pub starts: String,
    pub word: String,
    pub at: String,
}

/// The patterns for what was typed. Nothing typed asks for nobody.
pub fn patterns(prefix: &str) -> (r: Option<Patterns>)
    ensures
        match r {
            Some(p) => {
                let needle = sender(prefix@);
                &&& needle.len() > 0
                &&& p.starts@ == needle + "%"@
                &&& p.word@ == "% "@ + needle + "%"@
                &&& p.at@ == "%@"@ + needle + "%"@
            },
            None => sender(prefix@).len() == 0,
        },
{
    let needle = sender_key(prefix);
    let mut starts = chars_of(&needle);
    if starts.len() == 0 {
        return None;
    }
    put(&mut starts, "%");
    let mut word = chars_of("% ");
    put(&mut word, &needle);
    put(&mut word, "%");
    let mut at = chars_of("%@");
    put(&mut at, &needle);
    put(&mut at, "%");
    Some(Patterns { starts: string_of(&starts), word: string_of(&word), at: string_of(&at) })
}

/// What is known of somebody who could be offered.
#[derive(Debug, Clone, Copy, PartialEq, Eq, Structural)]
pub struct Acquaintance {
    pub written_to: bool,
    pub seen: i64,
    pub last_ms: i64,
}

/// How much somebody seen that often and then counts for. How often is capped,
/// so that a mailing list cannot drown everybody else, and how lately goes in
/// two coarse steps: last week against last month matters, fourteen months
/// against fifteen does not.
pub open spec fn score(a: Acquaintance, now_ms: int) -> int {
    let often: int = if a.seen > 20 {
        20
    } else {
        a.seen as int
    };
    let lately: int = if a.last_ms > now_ms - 30 * MS_PER_DAY {
        25
    } else if a.last_ms > now_ms - 90 * MS_PER_DAY {
        10
    } else {
        0
    };
    often + lately
}

/// Whether one acquaintance is offered before another.
pub open spec fn is_offered_before(a: Acquaintance, b: Acquaintance, now_ms: int) -> bool {
    if a.written_to != b.written_to {
        a.written_to
    } else if score(a, now_ms) != score(b, now_ms) {
        score(a, now_ms) > score(b, now_ms)
    } else {
        a.last_ms > b.last_ms
    }
}

pub open spec fn sooner_offered(all: Seq<Acquaintance>, now_ms: int) -> spec_fn(int, int) -> bool {
    |a: int, b: int| is_offered_before(all[a], all[b], now_ms)
}

fn score_of(a: &Acquaintance, now_ms: i64) -> (r: i64)
    requires
        i64::MIN + 90 * MS_PER_DAY <= now_ms,
        i64::MIN + 30 <= a.seen,
    ensures
        r == score(*a, now_ms as int),
{
    let often: i64 = if a.seen > 20 {
        20
    } else {
        a.seen
    };
    let lately: i64 = if a.last_ms > now_ms - 30 * MS_PER_DAY {
        25
    } else if a.last_ms > now_ms - 90 * MS_PER_DAY {
        10
    } else {
        0
    };
    often + lately
}

fn goes_first(a: &Acquaintance, b: &Acquaintance, now_ms: i64) -> (r: bool)
    requires
        i64::MIN + 90 * MS_PER_DAY <= now_ms,
        i64::MIN + 30 <= a.seen,
        i64::MIN + 30 <= b.seen,
    ensures
        r == is_offered_before(*a, *b, now_ms as int),
{
    let x: i64 = score_of(a, now_ms);
    let y: i64 = score_of(b, now_ms);
    if a.written_to != b.written_to {
        a.written_to
    } else if x != y {
        x > y
    } else {
        a.last_ms > b.last_ms
    }
}

/// Puts those who could be offered in order, best first.
pub fn offered(all: &Vec<Acquaintance>, now_ms: i64) -> (order: Vec<usize>)
    requires
        i64::MIN + 90 * MS_PER_DAY <= now_ms,
        forall|i: int| 0 <= i < all@.len() ==> 0 <= (#[trigger] all@[i]).seen,
    ensures
        is_stable_order(order@, all@.len() as int, sooner_offered(all@, now_ms as int)),
{
    let ghost before = sooner_offered(all@, now_ms as int);
    let mut order: Vec<usize> = Vec::new();
    let mut i: usize = 0;
    assert(is_weak_order(before));
    while i < all.len()
        invariant
            i <= all@.len(),
            before == sooner_offered(all@, now_ms as int),
            is_weak_order(before),
            i64::MIN + 90 * MS_PER_DAY <= now_ms,
            forall|k: int| 0 <= k < all@.len() ==> 0 <= (#[trigger] all@[k]).seen,
            is_stable_order(order@, i as int, before),
        decreases all@.len() - i,
    {
        let ghost so_far = positions(order@);
        let mut at: usize = order.len();
        assert forall|k: int| 0 <= k < order@.len() implies (#[trigger] order@[k]) < i by {
            assert(so_far[k] == order@[k]);
        }
        while at > 0 && goes_first(&all[i], &all[order[at - 1]], now_ms)
            invariant
                i < all@.len(),
                at <= order@.len(),
                before == sooner_offered(all@, now_ms as int),
                so_far == positions(order@),
                is_all_positions(so_far, i as int),
                i64::MIN + 90 * MS_PER_DAY <= now_ms,
                forall|k: int| 0 <= k < all@.len() ==> 0 <= (#[trigger] all@[k]).seen,
                forall|k: int| at <= k < order@.len() ==> before(i as int, #[trigger] so_far[k]),
                forall|k: int| 0 <= k < order@.len() ==> order@[k] == #[trigger] so_far[k],
                forall|k: int| 0 <= k < order@.len() ==> (#[trigger] order@[k]) < i,
            decreases at,
        {
            assert(so_far[at - 1] == order@[at - 1]);
            at -= 1;
        }
        proof {
            if at > 0 {
                assert(so_far[at - 1] == order@[at - 1]);
            }
            inserted_in_order(so_far, at as int, i as int, before);
        }
        order.insert(at, i);
        assert(positions(order@) =~= so_far.insert(at as int, i as int));
        i += 1;
    }
    order
}

/// No amount of mail outranks having been written to.
pub proof fn a_correspondent_outranks_a_newsletter(
    friend: Acquaintance,
    newsletter: Acquaintance,
    now_ms: int,
)
    requires
        friend.written_to,
        !newsletter.written_to,
    ensures
        is_offered_before(friend, newsletter, now_ms),
{
}

/// Past twenty times, being seen more often counts for nothing: of two that
/// were never written to, the one seen last goes first.
pub proof fn volume_is_capped(a: Acquaintance, b: Acquaintance, now_ms: int)
    requires
        a.written_to == b.written_to,
        a.seen >= 20,
        b.seen >= 20,
        a.last_ms > b.last_ms,
    ensures
        is_offered_before(a, b, now_ms),
{
}

// ---------------------------------------------------------------------
// What counts, and for how much
// ---------------------------------------------------------------------
/// Whether a message goes has nothing to do with another: mirroring, it goes
/// where the server does not have its key, and stays where it does.
pub proof fn each_goes_for_itself(
    a: Seq<HeldKey>,
    b: Seq<HeldKey>,
    one: HeldKey,
    present: Seq<String>,
)
    ensures
        missing(a + b, present) == missing(a, present) + missing(b, present),
        is_present(one.key@, present) ==> missing(seq![one], present).len() == 0,
        !is_present(one.key@, present) ==> missing(seq![one], present) == seq![one.id],
        let_go(RetentionMode::Mirror, a, present) == missing(a, present),
        let_go(RetentionMode::LocalArchive, a, present).len() == 0,
    decreases b.len(),
{
    let list = seq![one];
    let none = Seq::<i64>::empty();
    assert(list.drop_last() =~= Seq::<HeldKey>::empty());
    assert(missing(list.drop_last(), present) =~= none);
    assert(none.push(one.id) =~= seq![one.id]);
    if b.len() == 0 {
        assert(a + b =~= a);
        assert(missing(a, present) + missing(b, present) =~= missing(a, present));
    } else {
        assert((a + b).drop_last() =~= a + b.drop_last());
        each_goes_for_itself(a, b.drop_last(), one, present);
        assert(missing(a + b, present) =~= missing(a, present) + missing(b, present));
    }
}

/// Each time somebody was seen counts for one, up to twenty times. The last
/// thirty days count for twenty-five times, and the last ninety for ten.
pub proof fn what_an_acquaintance_counts_for(a: Acquaintance, b: Acquaintance, now_ms: int)
    ensures
        a.last_ms == b.last_ms && a.seen <= 20 && b.seen <= 20 ==> score(a, now_ms) - score(
            b,
            now_ms,
        ) == a.seen - b.seen,
        a.last_ms == b.last_ms && a.seen >= 20 && b.seen >= 20 ==> score(a, now_ms) == score(
            b,
            now_ms,
        ),
        a.seen == b.seen && a.last_ms > now_ms - 30 * (24 * 60 * 60 * 1000) && b.last_ms <= now_ms
            - 90 * (24 * 60 * 60 * 1000) ==> score(a, now_ms) - score(b, now_ms) == 25,
        a.seen == b.seen && now_ms - 90 * (24 * 60 * 60 * 1000) < a.last_ms <= now_ms - 30 * (24
            * 60 * 60 * 1000) && b.last_ms <= now_ms - 90 * (24 * 60 * 60 * 1000) ==> score(
            a,
            now_ms,
        ) - score(b, now_ms) == 10,
        a.last_ms <= now_ms - 90 * (24 * 60 * 60 * 1000) && 0 <= a.seen <= 20 ==> score(a, now_ms)
            == a.seen,
{
}

/// Of two that were both written to, or neither, the one that counts for more
/// is offered first, and of two that count alike the one seen last.
pub proof fn who_counts_for_more_is_offered_first(a: Acquaintance, b: Acquaintance, now_ms: int)
    requires
        a.written_to == b.written_to,
    ensures
        score(a, now_ms) > score(b, now_ms) ==> is_offered_before(a, b, now_ms)
            && !is_offered_before(b, a, now_ms),
        score(a, now_ms) == score(b, now_ms) ==> is_offered_before(a, b, now_ms) == (a.last_ms
            > b.last_ms),
{
}

/// Mail from a name that nobody can own is a demonstration's, whoever it says
/// it is from.
pub proof fn a_name_nobody_owns_is_a_demonstrations(who: Seq<char>)
    ensures
        is_demo(who + "example.com"@),
        is_demo(who + "example.org"@),
        is_demo(who + "example.net"@),
        is_demo(who + "example.io"@),
        is_demo(who + "example.dev"@),
        is_demo(who + ".example"@),
        is_demo(who + "example.jp"@),
{
    reveal_strlit("example.com");
    reveal_strlit("example.org");
    reveal_strlit("example.net");
    reveal_strlit("example.io");
    reveal_strlit("example.dev");
    reveal_strlit(".example");
    reveal_strlit("example.jp");
    ends_in_lower(who, "example.com"@, 0);
    ends_in_lower(who, "example.org"@, 1);
    ends_in_lower(who, "example.net"@, 2);
    ends_in_lower(who, "example.io"@, 3);
    ends_in_lower(who, "example.dev"@, 4);
    ends_in_lower(who, ".example"@, 5);
    ends_in_lower(who, "example.jp"@, 6);
}

proof fn ends_in_lower(who: Seq<char>, ending: Seq<char>, at: int)
    requires
        0 <= at < 7,
        DEMO_ENDINGS@[at]@ == ending,
        forall|i: int| 0 <= i < ending.len() ==> !('A' <= #[trigger] ending[i] <= 'Z'),
    ensures
        is_demo(who + ending),
{
    let low = ascii_lowercase(who + ending);
    let from = low.len() - ending.len();
    assert(low.subrange(from, from + ending.len()) =~= ending);
    assert(ends(low, DEMO_ENDINGS@[at]@));
}

} // verus!
