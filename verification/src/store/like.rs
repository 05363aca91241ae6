//! Literal text inside a LIKE pattern.

use crate::text::{ascii_lower, ascii_lowercase, chars_of, string_of};
use vstd::prelude::*;

verus! {

/// Whether a character has to be escaped to stand for itself in a pattern.
pub open spec fn is_wild(c: char) -> bool {
    c == '\\' || c == '%' || c == '_'
}

/// A text with a backslash before each character a pattern would read.
pub open spec fn escaped(s: Seq<char>) -> Seq<char>
    decreases s.len(),
{
    if s.len() == 0 {
        Seq::empty()
    } else if is_wild(s.last()) {
        escaped(s.drop_last()).push('\\').push(s.last())
    } else {
        escaped(s.drop_last()).push(s.last())
    }
}

/// A literal string, made safe to use in a LIKE pattern.
///
/// LIKE reads `%` and `_` as wildcards, and folder names contain both.
/// Escaping with a backslash, declared by `ESCAPE '\'` at the call site, makes
/// the pattern mean the name.
pub fn like_escape(literal: &str) -> (out: String)
    ensures
        out@ == escaped(literal@),
{
    let chars = chars_of(literal);
    let mut out: Vec<char> = Vec::new();
    let mut i: usize = 0;
    assert(literal@.take(0) =~= Seq::<char>::empty());
    while i < chars.len()
        invariant
            i <= chars@.len(),
            chars@ == literal@,
            out@ == escaped(literal@.take(i as int)),
        decreases chars@.len() - i,
    {
        let c = chars[i];
        assert(literal@.take(i + 1).drop_last() =~= literal@.take(i as int));
        if c == '\\' || c == '%' || c == '_' {
            out.push('\\');
        }
        out.push(c);
        i += 1;
    }
    assert(literal@.take(i as int) =~= literal@);
    string_of(&out)
}

/// Whether a text matches a LIKE pattern with `\` as its escape: `%` is any
/// run of characters, `_` is any one, and letters match whatever their case,
/// in ASCII.
pub open spec fn like(pattern: Seq<char>, s: Seq<char>) -> bool
    decreases pattern.len(),
{
    if pattern.len() == 0 {
        s.len() == 0
    } else if pattern[0] == '\\' && pattern.len() > 1 {
        s.len() > 0 && ascii_lower(pattern[1]) == ascii_lower(s[0]) && like(
            pattern.skip(2),
            s.skip(1),
        )
    } else if pattern[0] == '%' {
        exists|n: int| 0 <= n <= s.len() && like(pattern.skip(1), #[trigger] s.skip(n))
    } else if pattern[0] == '_' {
        s.len() > 0 && like(pattern.skip(1), s.skip(1))
    } else {
        s.len() > 0 && ascii_lower(pattern[0]) == ascii_lower(s[0]) && like(
            pattern.skip(1),
            s.skip(1),
        )
    }
}

pub proof fn escaped_from_the_front(s: Seq<char>)
    requires
        s.len() > 0,
    ensures
        escaped(s) == (if is_wild(s[0]) {
            seq!['\\', s[0]]
        } else {
            seq![s[0]]
        }) + escaped(s.skip(1)),
    decreases s.len(),
{
    let front = s.drop_last();
    if s.len() == 1 {
        assert(front =~= Seq::<char>::empty());
        assert(s.skip(1) =~= Seq::<char>::empty());
        assert(escaped(s) =~= (if is_wild(s[0]) {
            seq!['\\', s[0]]
        } else {
            seq![s[0]]
        }) + escaped(s.skip(1)));
    } else {
        escaped_from_the_front(front);
        assert(front.skip(1) =~= s.skip(1).drop_last());
        assert(s.skip(1).last() == s.last());
        assert(escaped(s) =~= (if is_wild(s[0]) {
            seq!['\\', s[0]]
        } else {
            seq![s[0]]
        }) + escaped(s.skip(1)));
    }
}

/// An escaped name matches that name, letter for letter, and nothing else.
pub proof fn an_escaped_name_means_the_name(name: Seq<char>, s: Seq<char>)
    ensures
        like(escaped(name), s) == (ascii_lowercase(name) == ascii_lowercase(s)),
    decreases name.len(),
{
    let low = ascii_lowercase(name);
    let other = ascii_lowercase(s);
    if name.len() == 0 {
        assert(s.len() == 0 ==> low =~= other);
        assert(low == other ==> s.len() == other.len());
    } else {
        escaped_from_the_front(name);
        let pattern = escaped(name);
        let rest = escaped(name.skip(1));
        if is_wild(name[0]) {
            assert(pattern.skip(2) =~= rest);
            assert(pattern[1] == name[0]);
        } else {
            assert(pattern.skip(1) =~= rest);
            assert(pattern[0] == name[0]);
        }
        if s.len() > 0 {
            an_escaped_name_means_the_name(name.skip(1), s.skip(1));
            assert(ascii_lowercase(name.skip(1)) =~= low.skip(1));
            assert(ascii_lowercase(s.skip(1)) =~= other.skip(1));
            if low.skip(1) == other.skip(1) && low[0] == other[0] {
                assert(low =~= seq![low[0]] + low.skip(1));
                assert(other =~= seq![other[0]] + other.skip(1));
            }
            if low == other {
                assert(low[0] == other[0]);
            }
        } else {
            assert(low.len() != other.len());
        }
    }
}

} // verus!
