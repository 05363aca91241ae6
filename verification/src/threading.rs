//! Which conversation a message belongs to.
//!
//! The reference graph comes first, because Message-IDs are made by machines
//! and clients pass them on. The subject is a narrow second for mail whose
//! references were stripped: it joins two messages only where it is
//! distinctive and they are close in time, for a wrong merge hides mail where
//! nobody will look for it.

use crate::text::{
    ascii_lower, ascii_lowercase, ascii_lowered, char_position, chars_of, decimal,
    decimal_reads_back, find_char, find_char_is_first, first_char_is_found, is_ascii_text, is_digit,
    is_white, join, joined, lower, lowered, same, split_words, starts, starts_with, string_of,
    trim_start, trim_start_is_suffix, trimmed_start, words_of,
};
use vstd::prelude::*;
use vstd::slice::slice_subrange;

verus! {

/// Subjects too generic to identify a conversation.
pub const GENERIC_SUBJECTS: [&'static str; 18] = [
    "",
    "hi",
    "hello",
    "hey",
    "thanks",
    "thank you",
    "question",
    "update",
    "fyi",
    "info",
    "meeting",
    "reminder",
    "invitation",
    "no subject",
    "re",
    "fwd",
    "test",
    "hello there",
];

/// Reply and forward prefixes across the locales that turn up in mail. A
/// thread routinely mixes several.
pub const PREFIXES: [&'static str; 20] = [
    "re",
    "aw",
    "sv",
    "vs",
    "antw",
    "odp",
    "ref",
    "res",
    "rif",
    "fwd",
    "fw",
    "wg",
    "tr",
    "vb",
    "enc",
    "rv",
    "doorst",
    "转发",
    "回复",
    "答复",
];

/// How far apart two messages can be and still be joined by subject alone.
pub const SUBJECT_THREAD_WINDOW_MS: i64 = 2_592_000_000;

// ---------------------------------------------------------------------
// What a subject says once the decoration is off
// ---------------------------------------------------------------------
/// A subject without a mailing list's tag in front, where anything follows
/// the tag: "[ANN]" alone is the subject.
pub open spec fn untagged(s: Seq<char>) -> Seq<char> {
    let close = find_char(s, ']', 0);
    if s.len() > 0 && s[0] == '[' && close < s.len() && trim_start(s.skip(close + 1)).len() > 0 {
        trim_start(s.skip(close + 1))
    } else {
        s
    }
}

/// How much of a subject a prefix and its mark take up: `re:`, `re :` or the
/// numbered `re[2]:`, in any case.
pub open spec fn prefix_taken(s: Seq<char>, prefix: Seq<char>) -> Option<int> {
    let n = prefix.len() as int;
    if !starts(ascii_lowercase(s), prefix) {
        None
    } else if n < s.len() && s[n] == ':' {
        Some(n + 1)
    } else if n + 1 < s.len() && s[n] == ' ' && s[n + 1] == ':' {
        Some(n + 2)
    } else if n < s.len() && s[n] == '[' {
        let close = find_char(s, ']', 0);
        if close + 1 < s.len() && s[close + 1] == ':' {
            Some(close + 2)
        } else {
            None
        }
    } else {
        None
    }
}

/// How much of a subject a prefix takes up, of those from the `i`th on.
pub open spec fn any_prefix_taken(s: Seq<char>, i: int) -> Option<int>
    decreases PREFIXES@.len() - i,
{
    if i < 0 || i >= PREFIXES@.len() {
        None
    } else {
        match prefix_taken(s, PREFIXES@[i]@) {
            Some(n) => Some(n),
            None => any_prefix_taken(s, i + 1),
        }
    }
}

/// A subject without the one prefix in front, if there is one.
pub open spec fn unprefixed(s: Seq<char>) -> Seq<char> {
    match any_prefix_taken(s, 0) {
        Some(n) => trim_start(s.skip(n)),
        None => s,
    }
}

/// One layer of decoration taken off.
pub open spec fn peeled(s: Seq<char>) -> Seq<char> {
    unprefixed(untagged(s))
}

/// Every layer taken off.
pub open spec fn bare(s: Seq<char>) -> Seq<char>
    decreases s.len(),
{
    proof {
        peeling_shortens(s);
    }
    if peeled(s) == s {
        s
    } else {
        bare(peeled(s))
    }
}

/// White space brought down to one space between words.
pub open spec fn collapsed(s: Seq<char>) -> Seq<char> {
    joined(words_of(s), " "@)
}

/// What two messages of one conversation agree on. White space goes first, so
/// that a prefix is known by its colon however far off that was typed.
pub open spec fn normalized(subject: Seq<char>) -> Seq<char> {
    bare(collapsed(subject))
}

proof fn a_prefix_takes_something(s: Seq<char>, i: int)
    requires
        0 <= i,
    ensures
        any_prefix_taken(s, i) matches Some(n) ==> 0 < n <= s.len(),
    decreases PREFIXES@.len() - i,
{
    find_char_is_first(s, ']', 0);
    if i < PREFIXES@.len() {
        a_prefix_takes_something(s, i + 1);
    }
}

pub proof fn peeling_shortens(s: Seq<char>)
    ensures
        peeled(s) == s || peeled(s).len() < s.len(),
        untagged(s) == s || untagged(s).len() < s.len(),
        unprefixed(s) == s || unprefixed(s).len() < s.len(),
{
    find_char_is_first(s, ']', 0);
    let close = find_char(s, ']', 0);
    if close < s.len() {
        trim_start_is_suffix(s.skip(close + 1));
    }
    let t = untagged(s);
    a_prefix_takes_something(t, 0);
    a_prefix_takes_something(s, 0);
    if let Some(n) = any_prefix_taken(t, 0) {
        trim_start_is_suffix(t.skip(n));
    }
    if let Some(n) = any_prefix_taken(s, 0) {
        trim_start_is_suffix(s.skip(n));
    }
}

fn without_tag<'a>(s: &'a [char]) -> (r: &'a [char])
    ensures
        r@ == untagged(s@),
{
    if s.len() > 0 && s[0] == '[' {
        let close = char_position(s, ']', 0);
        if close < s.len() {
            let after = slice_subrange(s, close + 1, s.len());
            assert(after@ =~= s@.skip(close + 1));
            let rest = trimmed_start(after);
            if rest.len() > 0 {
                return rest;
            }
        }
    }
    s
}

fn prefix_length(s: &[char]) -> (r: Option<usize>)
    ensures
        match r {
            Some(n) => any_prefix_taken(s@, 0) == Some(n as int) && n <= s@.len(),
            None => any_prefix_taken(s@, 0) is None,
        },
{
    let low = ascii_lowered(s);
    let close = char_position(s, ']', 0);
    let mut i: usize = 0;
    proof {
        a_prefix_takes_something(s@, 0);
    }
    while i < PREFIXES.len()
        invariant
            i <= PREFIXES@.len(),
            low@ == ascii_lowercase(s@),
            close == find_char(s@, ']', 0),
            close <= s@.len(),
            any_prefix_taken(s@, 0) == any_prefix_taken(s@, i as int),
            any_prefix_taken(s@, 0) matches Some(n) ==> 0 < n <= s@.len(),
        decreases PREFIXES@.len() - i,
    {
        let p = chars_of(PREFIXES[i]);
        if starts_with(&low, &p) {
            let n = p.len();
            if n < s.len() && s[n] == ':' {
                return Some(n + 1);
            }
            if n < s.len() && n < s.len() - 1 && s[n] == ' ' && s[n + 1] == ':' {
                return Some(n + 2);
            }
            if n < s.len() && s[n] == '[' && close < s.len() - 1 && s[close + 1] == ':' {
                return Some(close + 2);
            }
        }
        i += 1;
    }
    None
}

/// Collapses white space, and strips reply and forward prefixes and list tags,
/// however they are stacked.
pub fn normalize_subject(subject: &str) -> (r: String)
    ensures
        r@ == normalized(subject@),
{
    let words = split_words(&chars_of(subject));
    let chars = join(&words, " ");
    let mut s: &[char] = &chars;
    loop
        invariant
            normalized(subject@) == bare(s@),
        ensures
            normalized(subject@) == s@,
        decreases s@.len(),
    {
        proof {
            peeling_shortens(s@);
            peeling_shortens(untagged(s@));
        }
        let before = s.len();
        let inner = without_tag(s);
        let rest: &[char] = match prefix_length(inner) {
            Some(n) => {
                let after = slice_subrange(inner, n, inner.len());
                assert(after@ =~= inner@.skip(n as int));
                trimmed_start(after)
            },
            None => inner,
        };
        assert(rest@ == peeled(s@));
        if rest.len() == before {
            break;
        }
        s = rest;
    }
    string_of(s)
}

/// Whether a subject is one of those too generic to thread on.
pub open spec fn is_generic(low: Seq<char>) -> bool {
    exists|i: int| 0 <= i < GENERIC_SUBJECTS@.len() && #[trigger] GENERIC_SUBJECTS@[i]@ == low
}

/// Whether a subject is distinctive: not a generic one, and not so short that
/// unrelated mail shares it.
pub open spec fn is_distinctive(subject: Seq<char>) -> bool {
    !is_generic(lower(subject)) && subject.len() >= 8
}

/// Whether a normalized subject is distinctive enough to thread on alone.
pub fn subject_is_threadable(normalized: &str) -> (r: bool)
    ensures
        r == is_distinctive(normalized@),
{
    let low = lowered(normalized);
    let mut i: usize = 0;
    while i < GENERIC_SUBJECTS.len()
        invariant
            i <= GENERIC_SUBJECTS@.len(),
            low@ == lower(normalized@),
            forall|j: int| 0 <= j < i ==> #[trigger] GENERIC_SUBJECTS@[j]@ != low@,
        decreases GENERIC_SUBJECTS@.len() - i,
    {
        if same(GENERIC_SUBJECTS[i], &low) {
            assert(GENERIC_SUBJECTS@[i as int]@ == low@);
            return false;
        }
        i += 1;
    }
    chars_of(normalized).len() >= 8
}

// ---------------------------------------------------------------------
// Laws
// ---------------------------------------------------------------------
/// A prefix is a word: something, with no white space and no mark in it.
pub open spec fn is_plain(p: Seq<char>) -> bool {
    p.len() > 0 && forall|k: int|
        0 <= k < p.len() ==> !is_white(#[trigger] p[k]) && p[k] != ':' && p[k] != '[' && p[k]
            != ']'
}

proof fn prefixes_are_plain(i: int)
    requires
        0 <= i < PREFIXES@.len(),
    ensures
        is_plain(PREFIXES@[i]@),
{
    reveal_strlit("re");
    reveal_strlit("aw");
    reveal_strlit("sv");
    reveal_strlit("vs");
    reveal_strlit("antw");
    reveal_strlit("odp");
    reveal_strlit("ref");
    reveal_strlit("res");
    reveal_strlit("rif");
    reveal_strlit("fwd");
    reveal_strlit("fw");
    reveal_strlit("wg");
    reveal_strlit("tr");
    reveal_strlit("vb");
    reveal_strlit("enc");
    reveal_strlit("rv");
    reveal_strlit("doorst");
    reveal_strlit("转发");
    reveal_strlit("回复");
    reveal_strlit("答复");
}

proof fn starting_means_each(s: Seq<char>, p: Seq<char>)
    ensures
        starts(s, p) <==> p.len() <= s.len() && forall|k: int|
            0 <= k < p.len() ==> s[k] == #[trigger] p[k],
{
    if p.len() <= s.len() {
        if starts(s, p) {
            assert forall|k: int| 0 <= k < p.len() implies s[k] == #[trigger] p[k] by {
                assert(s.subrange(0, p.len() as int)[k] == s[k]);
            }
        }
        if forall|k: int| 0 <= k < p.len() ==> s[k] == #[trigger] p[k] {
            assert(s.subrange(0, p.len() as int) =~= p);
        }
    }
}

/// The prefix a subject begins with is the one that is found, whichever the
/// search looks at first.
proof fn the_prefix_is_found(s: Seq<char>, i: int, j: int)
    requires
        0 <= j <= i < PREFIXES@.len(),
        starts(ascii_lowercase(s), PREFIXES@[i]@),
        PREFIXES@[i]@.len() < s.len(),
        s[PREFIXES@[i]@.len() as int] == ':',
    ensures
        any_prefix_taken(s, j) == Some(PREFIXES@[i]@.len() as int + 1),
    decreases i - j,
{
    let p = PREFIXES@[i]@;
    let q = PREFIXES@[j]@;
    let low = ascii_lowercase(s);
    prefixes_are_plain(i);
    prefixes_are_plain(j);
    if i != j {
        if prefix_taken(s, q) is Some {
            starting_means_each(low, p);
            starting_means_each(low, q);
            if q.len() < p.len() {
                let k = q.len() as int;
                assert(low[k] == p[k]);
                assert(low[k] == ascii_lower(s[k]));
            } else if q.len() > p.len() {
                let k = p.len() as int;
                assert(low[k] == q[k]);
                assert(low[k] == ascii_lower(s[k]));
            }
        } else {
            the_prefix_is_found(s, i, j + 1);
        }
    }
}

// Words, and the spaces between them.

/// A text with no white space in it is one word.
proof fn one_word(s: Seq<char>)
    requires
        s.len() > 0,
        forall|k: int| 0 <= k < s.len() ==> !is_white(#[trigger] s[k]),
    ensures
        words_of(s) == seq![s],
    decreases s.len(),
{
    let front = s.drop_last();
    assert(!is_white(s[s.len() - 1]));
    assert(front.push(s.last()) =~= s);
    if front.len() == 0 {
        assert(words_of(front) =~= Seq::<Seq<char>>::empty());
        assert(seq![s.last()] =~= s);
    } else {
        assert forall|k: int| 0 <= k < front.len() implies !is_white(#[trigger] front[k]) by {
            assert(front[k] == s[k]);
        }
        one_word(front);
        assert(seq![front].drop_last().push(s) =~= seq![s]);
    }
}

/// A word in front of a text is one word more.
proof fn one_word_more(word: Seq<char>, s: Seq<char>)
    requires
        word.len() > 0,
        forall|k: int| 0 <= k < word.len() ==> !is_white(#[trigger] word[k]),
    ensures
        words_of(word + seq![' '] + s) == seq![word] + words_of(s),
    decreases s.len(),
{
    let front = word + seq![' '];
    let whole = front + s;
    if s.len() == 0 {
        assert(whole =~= front);
        assert(front.drop_last() =~= word);
        one_word(word);
        assert(seq![word] + words_of(s) =~= seq![word]);
    } else {
        let rest = s.drop_last();
        let c = s.last();
        one_word_more(word, rest);
        assert(whole.drop_last() =~= front + rest);
        assert(whole.last() == c);
        let before = words_of(rest);
        let so_far = seq![word] + before;
        if !is_white(c) {
            if rest.len() == 0 || is_white(rest.last()) {
                assert(is_white((front + rest).last()));
                assert(so_far.push(seq![c]) =~= seq![word] + before.push(seq![c]));
            } else {
                assert((front + rest).last() == rest.last());
                assert(before.len() > 0);
                assert(so_far.last() == before.last());
                assert(so_far.drop_last().push(before.last().push(c)) =~= seq![word]
                    + before.drop_last().push(before.last().push(c)));
            }
        }
    }
}

proof fn joining_one_more(word: Seq<char>, rest: Seq<Seq<char>>)
    requires
        rest.len() > 0,
    ensures
        joined(seq![word] + rest, " "@) == word + " "@ + joined(rest, " "@),
    decreases rest.len(),
{
    let all = seq![word] + rest;
    assert(all.last() == rest.last());
    assert(all.drop_last() =~= seq![word] + rest.drop_last());
    if rest.len() == 1 {
        assert(all.drop_last() =~= seq![word]);
        assert(joined(seq![word], " "@) == word);
        assert(rest[0] == rest.last());
    } else {
        joining_one_more(word, rest.drop_last());
        let front = joined(rest.drop_last(), " "@);
        assert(word + " "@ + front + " "@ + rest.last() =~= word + " "@ + (front + " "@
            + rest.last()));
    }
}

/// A reply agrees with what it answers: a prefix in front, in whatever case,
/// changes nothing of what a subject comes to.
pub proof fn a_reply_agrees_with_what_it_answers(mark: Seq<char>, i: int, subject: Seq<char>)
    requires
        0 <= i < PREFIXES@.len(),
        ascii_lowercase(mark) == PREFIXES@[i]@,
    ensures
        normalized(mark + ": "@ + subject) == normalized(subject),
{
    reveal_strlit(": ");
    reveal_strlit(" ");
    prefixes_are_plain(i);
    let p = PREFIXES@[i]@;
    let n = p.len() as int;
    assert forall|k: int| 0 <= k < n implies !is_white(#[trigger] mark[k]) && mark[k] != '[' by {
        assert(p[k] == ascii_lower(mark[k]));
    }
    let word = mark.push(':');
    let whole = mark + ": "@ + subject;
    assert(whole =~= word + seq![' '] + subject);
    one_word_more(word, subject);
    let words = words_of(subject);
    let c = collapsed(subject);
    let t = collapsed(whole);
    let rest = t.skip(n + 1);
    if words.len() == 0 {
        assert(seq![word] + words =~= seq![word]);
        assert(t == word);
        assert(rest =~= c);
        assert(trim_start(rest) == c);
    } else {
        joining_one_more(word, words);
        assert(rest =~= seq![' '] + c);
        assert(rest.skip(1) =~= c);
        collapsed_is_spaced(subject);
        assert(trim_start(c) == c);
        assert(trim_start(rest) == c);
    }
    assert(t[n] == ':');
    assert forall|k: int| 0 <= k < n implies ascii_lowercase(t)[k] == #[trigger] p[k] by {
        assert(t[k] == mark[k]);
    }
    starting_means_each(ascii_lowercase(t), p);
    assert(t[0] == mark[0]);
    assert(untagged(t) == t);
    the_prefix_is_found(t, i, 0);
    assert(peeled(t) == trim_start(rest));
    trim_start_is_suffix(rest);
    assert(peeled(t).len() < t.len());
}

/// White space is single spaces between words: none at either end.
pub open spec fn is_spaced(s: Seq<char>) -> bool {
    &&& s.len() > 0 ==> !is_white(s[0]) && !is_white(s.last())
    &&& forall|k: int| 0 <= k < s.len() && is_white(#[trigger] s[k]) ==> s[k] == ' '
    &&& forall|k: int| 0 < k < s.len() && is_white(#[trigger] s[k]) ==> !is_white(s[k - 1])
}

proof fn words_are_words(s: Seq<char>)
    ensures
        s.len() > 0 && !is_white(s.last()) ==> words_of(s).len() > 0,
        forall|i: int|
            #![trigger words_of(s)[i]]
            0 <= i < words_of(s).len() ==> words_of(s)[i].len() > 0 && is_spaced(words_of(s)[i]),
        forall|i: int, k: int|
            0 <= i < words_of(s).len() && 0 <= k < words_of(s)[i].len() ==> !is_white(
                #[trigger] words_of(s)[i][k],
            ),
    decreases s.len(),
{
    if s.len() > 0 {
        let front = s.drop_last();
        words_are_words(front);
        let before = words_of(front);
        let all = words_of(s);
        let c = s.last();
        if !is_white(c) {
            let last = all.len() - 1;
            assert forall|i: int, k: int|
                0 <= i < all.len() && 0 <= k < all[i].len() implies !is_white(
                #[trigger] all[i][k],
            ) by {
                if i < last {
                    assert(all[i] == before[i]);
                    assert(!is_white(before[i][k]));
                } else if k < all[i].len() - 1 {
                    assert(all[i][k] == before[before.len() - 1][k]);
                }
            }
            assert forall|i: int|
                #![trigger all[i]]
                0 <= i < all.len() implies all[i].len() > 0 && is_spaced(all[i]) by {
                if i < last {
                    assert(all[i] == before[i]);
                }
                assert(all[i].len() > 0);
                assert(!is_white(all[i][0]));
                assert(!is_white(all[i][all[i].len() - 1]));
            }
        }
    }
}

proof fn joining_words_is_spaced(words: Seq<Seq<char>>)
    requires
        forall|i: int|
            #![trigger words[i]]
            0 <= i < words.len() ==> words[i].len() > 0 && is_spaced(words[i]),
    ensures
        is_spaced(joined(words, " "@)),
        words.len() > 0 ==> joined(words, " "@).len() > 0,
    decreases words.len(),
{
    reveal_strlit(" ");
    if words.len() == 1 {
        assert(is_spaced(words[0]));
    } else if words.len() > 1 {
        let front = words.drop_last();
        assert forall|i: int|
            #![trigger front[i]]
            0 <= i < front.len() implies front[i].len() > 0 && is_spaced(front[i]) by {
            assert(front[i] == words[i]);
        }
        joining_words_is_spaced(front);
        let a = joined(front, " "@);
        let last = words[words.len() - 1];
        let all = a + " "@ + last;
        assert(is_spaced(last) && last.len() > 0);
        assert(all[0] == a[0]);
        assert(all.last() == last.last());
        let n = a.len() as int;
        assert forall|k: int| 0 <= k < all.len() && is_white(#[trigger] all[k]) implies all[k]
            == ' ' && (k > 0 ==> !is_white(all[k - 1])) by {
            if k < n {
                assert(all[k] == a[k]);
                if k > 0 {
                    assert(all[k - 1] == a[k - 1]);
                }
            } else if k == n {
                assert(all[k - 1] == a.last());
            } else {
                assert(all[k] == last[k - n - 1]);
                assert(k > n + 1);
                assert(all[k - 1] == last[k - n - 2]);
            }
        }
    }
}

proof fn collapsed_is_spaced(s: Seq<char>)
    ensures
        is_spaced(collapsed(s)),
{
    words_are_words(s);
    joining_words_is_spaced(words_of(s));
}

/// What is spaced already is the words of it with a space between them. A
/// text that ends in a space is on its way to the next word.
proof fn spaced_is_its_words(s: Seq<char>)
    requires
        s.len() > 0 ==> !is_white(s[0]),
        forall|k: int| 0 <= k < s.len() && is_white(#[trigger] s[k]) ==> s[k] == ' ',
        forall|k: int| 0 < k < s.len() && is_white(#[trigger] s[k]) ==> !is_white(s[k - 1]),
    ensures
        s.len() > 0 ==> words_of(s).len() > 0,
        s == if s.len() > 0 && is_white(s.last()) {
            collapsed(s).push(' ')
        } else {
            collapsed(s)
        },
    decreases s.len(),
{
    reveal_strlit(" ");
    if s.len() > 0 {
        let front = s.drop_last();
        let c = s.last();
        assert(front.push(c) =~= s);
        assert forall|k: int| 0 <= k < front.len() && is_white(#[trigger] front[k]) implies front[k]
            == ' ' && (k > 0 ==> !is_white(front[k - 1])) by {
            assert(front[k] == s[k]);
            assert(k > 0 ==> front[k - 1] == s[k - 1]);
        }
        assert(front.len() > 0 ==> front[0] == s[0]);
        spaced_is_its_words(front);
        let words = words_of(front);
        if is_white(c) {
            assert(is_white(s[s.len() - 1]));
            assert(front.last() == s[s.len() - 2]);
        } else if front.len() == 0 || is_white(front.last()) {
            let all = words.push(seq![c]);
            assert(all.drop_last() =~= words);
            if front.len() == 0 {
                assert(words =~= Seq::<Seq<char>>::empty());
                assert(collapsed(s) == all[0]);
                assert(collapsed(s) =~= s);
            } else {
                assert(collapsed(s) == collapsed(front) + " "@ + seq![c]);
                assert(collapsed(s) =~= s);
            }
        } else {
            let all = words.drop_last().push(words.last().push(c));
            assert(all.drop_last() =~= words.drop_last());
            assert(collapsed(s) =~= collapsed(front).push(c));
        }
    } else {
        assert(words_of(s) =~= Seq::<Seq<char>>::empty());
        assert(collapsed(s) =~= s);
    }
}

/// What is left once decoration is off is as well spaced as it was before,
/// and has no decoration left.
proof fn peeling_keeps_spacing(s: Seq<char>)
    requires
        is_spaced(s),
    ensures
        is_spaced(bare(s)),
        peeled(bare(s)) == bare(s),
    decreases s.len(),
{
    peeling_shortens(s);
    if peeled(s) != s {
        let t = untagged(s);
        find_char_is_first(s, ']', 0);
        if t != s {
            the_rest_is_spaced(s, find_char(s, ']', 0) + 1);
        }
        a_prefix_takes_something(t, 0);
        if let Some(n) = any_prefix_taken(t, 0) {
            the_rest_is_spaced(t, n);
        }
        peeling_keeps_spacing(peeled(s));
    }
}

proof fn the_rest_is_spaced(s: Seq<char>, n: int)
    requires
        is_spaced(s),
        0 <= n <= s.len(),
    ensures
        is_spaced(trim_start(s.skip(n))),
{
    let t = trim_start(s.skip(n));
    trim_start_is_suffix(s.skip(n));
    let at = s.len() - t.len();
    assert(t =~= s.skip(at));
    assert(t.len() > 0 ==> t.last() == s.last());
    assert forall|k: int| 0 <= k < t.len() && is_white(#[trigger] t[k]) implies t[k] == ' ' by {
        assert(t[k] == s[at + k]);
    }
    assert forall|k: int| 0 < k < t.len() && is_white(#[trigger] t[k]) implies !is_white(
        t[k - 1],
    ) by {
        assert(t[k] == s[at + k]);
        assert(t[k - 1] == s[at + k - 1]);
    }
}

/// A normalized subject has no white space at either end, and single spaces
/// between its words.
pub proof fn a_normal_subject_is_spaced(subject: Seq<char>)
    ensures
        is_spaced(normalized(subject)),
        collapsed(normalized(subject)) == normalized(subject),
{
    collapsed_is_spaced(subject);
    peeling_keeps_spacing(collapsed(subject));
    spaced_is_its_words(normalized(subject));
}

/// Normalizing twice changes nothing.
pub proof fn normalizing_twice_changes_nothing(subject: Seq<char>)
    ensures
        normalized(normalized(subject)) == normalized(subject),
{
    a_normal_subject_is_spaced(subject);
    collapsed_is_spaced(subject);
    peeling_keeps_spacing(collapsed(subject));
}

/// However the white space in a subject was typed, the subject comes to the
/// same.
pub proof fn how_white_space_was_typed_says_nothing(one: Seq<char>, other: Seq<char>)
    requires
        words_of(one) == words_of(other),
    ensures
        normalized(one) == normalized(other),
{
}

// ---------------------------------------------------------------------
// What is distinctive
// ---------------------------------------------------------------------
proof fn generic_subjects_are_low(i: int)
    requires
        0 <= i < GENERIC_SUBJECTS@.len(),
    ensures
        forall|k: int|
            0 <= k < GENERIC_SUBJECTS@[i]@.len() ==> 'a' <= #[trigger] GENERIC_SUBJECTS@[i]@[k]
                <= 'z' || GENERIC_SUBJECTS@[i]@[k] == ' ',
{
    reveal_strlit("");
    reveal_strlit("hi");
    reveal_strlit("hello");
    reveal_strlit("hey");
    reveal_strlit("thanks");
    reveal_strlit("thank you");
    reveal_strlit("question");
    reveal_strlit("update");
    reveal_strlit("fyi");
    reveal_strlit("info");
    reveal_strlit("meeting");
    reveal_strlit("reminder");
    reveal_strlit("invitation");
    reveal_strlit("no subject");
    reveal_strlit("re");
    reveal_strlit("fwd");
    reveal_strlit("test");
    reveal_strlit("hello there");
}

/// A generic subject is generic in whatever case it is written: of two
/// subjects that differ in the case of their letters alone, either both are
/// distinctive or neither is, and no way of writing a generic one is.
pub proof fn case_makes_no_subject_distinctive(one: Seq<char>, other: Seq<char>)
    requires
        one.len() == other.len(),
    ensures
        lower(one) == lower(other) ==> is_distinctive(one) == is_distinctive(other),
        ascii_lowercase(one) == ascii_lowercase(other) && is_ascii_text(one) ==> is_distinctive(one)
            == is_distinctive(other),
{
    if ascii_lowercase(one) == ascii_lowercase(other) && is_ascii_text(one) {
        assert forall|k: int| 0 <= k < other.len() implies #[trigger] other[k] <= '\u{7f}' by {
            assert(ascii_lowercase(one)[k] == ascii_lower(one[k]));
            assert(ascii_lowercase(other)[k] == ascii_lower(other[k]));
            assert(one[k] <= '\u{7f}');
        }
        assert(lower(one) == lower(other));
    }
}

/// No generic subject is distinctive, however it is capitalised.
pub proof fn no_generic_subject_is_distinctive(i: int, written: Seq<char>)
    requires
        0 <= i < GENERIC_SUBJECTS@.len(),
        ascii_lowercase(written) == GENERIC_SUBJECTS@[i]@,
    ensures
        !is_distinctive(written),
        !is_distinctive(GENERIC_SUBJECTS@[i]@),
{
    generic_subjects_are_low(i);
    let g = GENERIC_SUBJECTS@[i]@;
    assert forall|k: int| 0 <= k < written.len() implies #[trigger] written[k] <= '\u{7f}' by {
        assert(ascii_lowercase(written)[k] == ascii_lower(written[k]));
        assert('a' <= g[k] <= 'z' || g[k] == ' ');
    }
    assert(is_ascii_text(written));
    assert(is_generic(lower(written)));
    assert(ascii_lowercase(g) =~= g);
    assert(is_ascii_text(g));
    assert(is_generic(lower(g)));
}

/// A subject is distinctive exactly when it is long enough not to be shared by
/// chance and its lower case is none of the generic ones: eight characters
/// are, seven are not.
pub proof fn what_is_long_and_not_generic_is_distinctive(subject: Seq<char>)
    ensures
        subject.len() < 8 ==> !is_distinctive(subject),
        subject.len() >= 8 && (forall|i: int|
            0 <= i < GENERIC_SUBJECTS@.len() ==> #[trigger] GENERIC_SUBJECTS@[i]@ != lower(subject))
            ==> is_distinctive(subject),
{
}

/// A list's tag in front says nothing, where anything follows it; alone it is
/// the subject.
pub proof fn a_tag_in_front_says_nothing(tag: Seq<char>, subject: Seq<char>)
    requires
        tag.len() > 0,
        forall|k: int| 0 <= k < tag.len() ==> !is_white(#[trigger] tag[k]) && tag[k] != ']',
        words_of(subject).len() > 0,
    ensures
        normalized(seq!['['] + tag + seq![']'] + seq![' '] + subject) == normalized(subject),
        normalized(seq!['['] + tag + seq![']']) == seq!['['] + tag + seq![']'],
{
    reveal_strlit(" ");
    let word = seq!['['] + tag + seq![']'];
    let n = word.len() as int;
    assert forall|k: int| 0 <= k < n implies !is_white(#[trigger] word[k]) by {
        if 0 < k < n - 1 {
            assert(word[k] == tag[k - 1]);
        }
    }
    let whole = seq!['['] + tag + seq![']'] + seq![' '] + subject;
    assert(whole =~= word + seq![' '] + subject);
    one_word_more(word, subject);
    let c = collapsed(subject);
    let t = collapsed(whole);
    joining_one_more(word, words_of(subject));
    collapsed_is_spaced(subject);
    words_are_words(subject);
    joining_words_is_spaced(words_of(subject));
    assert(t =~= word + seq![' '] + c);
    assert forall|k: int| 0 <= k < n - 1 implies t[k] != ']' by {
        assert(t[k] == word[k]);
        if k > 0 {
            assert(word[k] == tag[k - 1]);
        }
    }
    assert(t[n - 1] == ']');
    first_char_is_found(t, ']', 0, n - 1);
    assert(t.skip(n) =~= seq![' '] + c);
    assert((seq![' '] + c).skip(1) =~= c);
    assert(trim_start(c) == c);
    assert(trim_start(seq![' '] + c) == c);
    assert(untagged(t) == c);
    // What follows the tag is read as if it stood alone.
    peeling_shortens(t);
    peeling_shortens(c);
    after_a_tag(t);
    // A tag alone.
    one_word(word);
    assert(collapsed(word) == word);
    assert forall|k: int| 0 <= k < n - 1 implies word[k] != ']' by {
        if k > 0 {
            assert(word[k] == tag[k - 1]);
        }
    }
    first_char_is_found(word, ']', 0, n - 1);
    assert(word.skip(n) =~= Seq::<char>::empty());
    assert(untagged(word) == word);
    if any_prefix_taken(word, 0) is Some {
        let i = a_prefix_was_found(word, 0);
        prefixes_are_plain(i);
        starting_means_each(ascii_lowercase(word), PREFIXES@[i]@);
        let p = PREFIXES@[i]@;
        assert(ascii_lowercase(word)[0] == p[0]);
        assert(ascii_lowercase(word)[0] == ascii_lower(word[0]));
    }
    assert(peeled(word) == word);
}

/// Where a tag comes off, what is under it comes to the same as on its own.
proof fn after_a_tag(t: Seq<char>)
    requires
        untagged(t) != t,
    ensures
        bare(t) == bare(untagged(t)),
{
    let c = untagged(t);
    peeling_shortens(t);
    peeling_shortens(c);
    if untagged(c) == c {
        // One layer of `t` is the layer of `c`.
        assert(peeled(t) == peeled(c));
    } else {
        // Another tag: the prefix search finds none in front of it.
        assert(c[0] == '[');
        if any_prefix_taken(c, 0) is Some {
            let i = a_prefix_was_found(c, 0);
            prefixes_are_plain(i);
            let p = PREFIXES@[i]@;
            starting_means_each(ascii_lowercase(c), p);
            assert(ascii_lowercase(c)[0] == p[0]);
            assert(ascii_lowercase(c)[0] == ascii_lower(c[0]));
        }
        assert(peeled(t) == c);
    }
}

proof fn a_prefix_was_found(s: Seq<char>, j: int) -> (i: int)
    requires
        0 <= j,
        any_prefix_taken(s, j) is Some,
    ensures
        j <= i < PREFIXES@.len(),
        prefix_taken(s, PREFIXES@[i]@) is Some,
    decreases PREFIXES@.len() - j,
{
    if prefix_taken(s, PREFIXES@[j]@) is Some {
        j
    } else {
        a_prefix_was_found(s, j + 1)
    }
}

/// Whether a subject begins with a prefix and what marks it as one: a colon,
/// a space and a colon, or a bracketed number.
pub open spec fn is_marked(s: Seq<char>, i: int) -> bool {
    let n = PREFIXES@[i]@.len() as int;
    starts(ascii_lowercase(s), PREFIXES@[i]@) && n < s.len() && (s[n] == ':' || s[n] == '[' || s[n]
        == ' ' && n + 1 < s.len() && s[n + 1] == ':')
}

/// A subject that begins with neither a bracket nor a marked prefix is left
/// alone, but for its white space: "Report" is no reply, and nothing is ever
/// taken off it.
pub proof fn a_plain_subject_is_left_alone(subject: Seq<char>)
    requires
        ({
            let c = collapsed(subject);
            &&& c.len() > 0 ==> c[0] != '['
            &&& forall|i: int| 0 <= i < PREFIXES@.len() ==> !#[trigger] is_marked(c, i)
        }),
    ensures
        normalized(subject) == collapsed(subject),
{
    let c = collapsed(subject);
    if any_prefix_taken(c, 0) is Some {
        let i = a_prefix_was_found(c, 0);
        assert(is_marked(c, i));
    }
}

/// A numbered reply, `Re[2]:`, agrees with what it answers as well.
pub proof fn a_numbered_reply_agrees_too(
    mark: Seq<char>,
    i: int,
    count: nat,
    subject: Seq<char>,
)
    requires
        0 <= i < PREFIXES@.len(),
        ascii_lowercase(mark) == PREFIXES@[i]@,
    ensures
        normalized(mark + seq!['['] + decimal(count) + seq![']', ':', ' '] + subject) == normalized(
            subject,
        ),
{
    reveal_strlit(" ");
    prefixes_are_plain(i);
    decimal_reads_back(count);
    let p = PREFIXES@[i]@;
    let n = p.len() as int;
    let d = decimal(count);
    assert forall|k: int| 0 <= k < n implies !is_white(#[trigger] mark[k]) && mark[k] != '['
        && mark[k] != ']' by {
        assert(p[k] == ascii_lower(mark[k]));
    }
    let word = mark + seq!['['] + d + seq![']', ':'];
    let close = n + 1 + d.len();
    assert forall|k: int| 0 <= k < word.len() implies !is_white(#[trigger] word[k]) && (word[k]
        == ']' ==> k >= close) by {
        if n < k < close {
            assert(word[k] == d[k - n - 1]);
            assert(is_digit(d[k - n - 1]));
        } else if k < n {
            assert(word[k] == mark[k]);
        }
    }
    let whole = mark + seq!['['] + d + seq![']', ':', ' '] + subject;
    assert(whole =~= word + seq![' '] + subject);
    one_word_more(word, subject);
    let words = words_of(subject);
    let c = collapsed(subject);
    let t = collapsed(whole);
    let rest = t.skip(close + 2);
    if words.len() == 0 {
        assert(seq![word] + words =~= seq![word]);
        assert(t == word);
        assert(rest =~= c);
        assert(trim_start(rest) == c);
    } else {
        joining_one_more(word, words);
        assert(rest =~= seq![' '] + c);
        assert(rest.skip(1) =~= c);
        collapsed_is_spaced(subject);
        assert(trim_start(c) == c);
        assert(trim_start(rest) == c);
    }
    assert forall|k: int| 0 <= k < word.len() implies #[trigger] t[k] == word[k] by {}
    assert(t[close] == ']' && t[close + 1] == ':' && t[n] == '[');
    first_char_is_found(t, ']', 0, close);
    assert forall|k: int| 0 <= k < n implies ascii_lowercase(t)[k] == #[trigger] p[k] by {
        assert(t[k] == mark[k]);
    }
    starting_means_each(ascii_lowercase(t), p);
    assert(t[0] == mark[0]);
    assert(untagged(t) == t);
    the_numbered_prefix_is_found(t, i, 0, close);
    assert(peeled(t) == trim_start(rest));
    trim_start_is_suffix(rest);
    assert(peeled(t).len() < t.len());
}

proof fn the_numbered_prefix_is_found(s: Seq<char>, i: int, j: int, close: int)
    requires
        0 <= j <= i < PREFIXES@.len(),
        starts(ascii_lowercase(s), PREFIXES@[i]@),
        PREFIXES@[i]@.len() < s.len(),
        s[PREFIXES@[i]@.len() as int] == '[',
        find_char(s, ']', 0) == close,
        close + 1 < s.len(),
        s[close + 1] == ':',
    ensures
        any_prefix_taken(s, j) == Some(close + 2),
    decreases i - j,
{
    let p = PREFIXES@[i]@;
    let q = PREFIXES@[j]@;
    let low = ascii_lowercase(s);
    prefixes_are_plain(i);
    prefixes_are_plain(j);
    if i != j {
        if prefix_taken(s, q) is Some {
            starting_means_each(low, p);
            starting_means_each(low, q);
            if q.len() < p.len() {
                let k = q.len() as int;
                assert(low[k] == p[k]);
                assert(low[k] == ascii_lower(s[k]));
            } else if q.len() > p.len() {
                let k = p.len() as int;
                assert(low[k] == q[k]);
                assert(low[k] == ascii_lower(s[k]));
            }
        } else {
            the_numbered_prefix_is_found(s, i, j + 1, close);
        }
    }
}

} // verus!
