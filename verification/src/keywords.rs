//! Tags as IMAP keywords.
//!
//! Where a server has no labels, a tag travels as a message keyword: an atom
//! kept beside `\Seen` and `\Flagged`. Atoms are narrow, so a tag named
//! "Waiting on" travels as `Waiting_on`. That loses something, but the same
//! tag always travels the same way.

use crate::text::{append_chars, chars_of, decimal, decimal_chars, decimal_reads_back, put, string_of};
use vstd::prelude::*;

verus! {

/// Whether a tag's character may travel as it is.
pub open spec fn is_atom_safe(c: char) -> bool {
    ||| '0' <= c <= '9'
    ||| 'A' <= c <= 'Z'
    ||| 'a' <= c <= 'z'
    ||| c == '.'
    ||| c == '-'
    ||| c == '_'
    ||| c == '+'
    ||| c == '='
}

pub open spec fn munge_char(c: char) -> char {
    if is_atom_safe(c) {
        c
    } else {
        '_'
    }
}

/// A name with everything an atom cannot carry turned to `_`.
pub open spec fn munged(name: Seq<char>) -> Seq<char> {
    name.map_values(|c: char| munge_char(c))
}

pub open spec fn is_all_underscores(s: Seq<char>) -> bool {
    forall|i: int| 0 <= i < s.len() ==> #[trigger] s[i] == '_'
}

/// The atom a tag travels as. One with nothing left of its name is told from
/// others only by how long it was.
pub open spec fn keyword_of(name: Seq<char>) -> Seq<char> {
    if is_all_underscores(munged(name)) {
        "tag"@ + decimal(name.len())
    } else {
        munged(name)
    }
}

/// Whether a keyword is a machine's: registered ones begin with `$`, and so
/// do the ones clients invent; `\` begins the protocol's own flags.
pub open spec fn is_machines(keyword: Seq<char>) -> bool {
    keyword.len() > 0 && (keyword[0] == '$' || keyword[0] == '\\')
}

/// The keyword atom a tag travels as.
///
/// Two tags that munge alike share a keyword; renaming one is cheaper than an
/// escaping scheme no other client reads.
pub fn tag_keyword(name: &str) -> (keyword: String)
    ensures
        keyword@ == keyword_of(name@),
{
    let chars = chars_of(name);
    let mut out: Vec<char> = Vec::new();
    let mut told_apart = false;
    let mut i: usize = 0;
    while i < chars.len()
        invariant
            i <= chars@.len(),
            out@ == munged(chars@.take(i as int)),
            told_apart == !is_all_underscores(munged(chars@.take(i as int))),
        decreases chars@.len() - i,
    {
        let c = chars[i];
        let safe = ('0' <= c && c <= '9') || ('A' <= c && c <= 'Z') || ('a' <= c && c <= 'z') || c
            == '.' || c == '-' || c == '_' || c == '+' || c == '=';
        let ghost now = munged(chars@.take(i + 1));
        assert(chars@.take(i + 1) =~= chars@.take(i as int).push(c));
        assert(now =~= out@.push(munge_char(c)));
        proof {
            if is_all_underscores(out@) && munge_char(c) == '_' {
                assert(is_all_underscores(now));
            } else if !is_all_underscores(out@) {
                let j = choose|j: int| 0 <= j < out@.len() && out@[j] != '_';
                assert(now[j] != '_');
            } else {
                assert(now[i as int] != '_');
            }
        }
        if safe {
            if c != '_' {
                told_apart = true;
            }
            out.push(c);
        } else {
            out.push('_');
        }
        i += 1;
    }
    assert(chars@.take(i as int) =~= chars@);
    if told_apart {
        string_of(&out)
    } else {
        let mut short: Vec<char> = Vec::new();
        put(&mut short, "tag");
        append_chars(&mut short, &decimal_chars(chars.len() as u64));
        string_of(&short)
    }
}

/// Whether a keyword is a machine's rather than a person's.
///
/// Those still sync, but must not turn up in the sidebar as though somebody
/// had made them.
pub fn is_system_keyword(keyword: &str) -> (r: bool)
    ensures
        r == is_machines(keyword@),
{
    let chars = chars_of(keyword);
    chars.len() > 0 && (chars[0] == '$' || chars[0] == '\\')
}

proof fn decimals_are_atoms(n: nat)
    ensures
        forall|i: int| 0 <= i < decimal(n).len() ==> is_atom_safe(#[trigger] decimal(n)[i]),
        decimal(n).len() > 0,
{
    decimal_reads_back(n);
    assert forall|i: int| 0 <= i < decimal(n).len() implies is_atom_safe(
        #[trigger] decimal(n)[i],
    ) by {
        assert(crate::text::is_digit(decimal(n)[i]));
    }
}

/// Whatever a tag is called, it travels as an atom: something, and nothing in
/// it that an atom cannot carry.
pub proof fn a_keyword_is_an_atom(name: Seq<char>)
    ensures
        keyword_of(name).len() > 0,
        forall|i: int| 0 <= i < keyword_of(name).len() ==> is_atom_safe(
            #[trigger] keyword_of(name)[i],
        ),
{
    reveal_strlit("tag");
    decimals_are_atoms(name.len());
    let k = keyword_of(name);
    assert forall|i: int| 0 <= i < k.len() implies is_atom_safe(#[trigger] k[i]) by {
        if is_all_underscores(munged(name)) {
            if i >= 3 {
                assert(k[i] == decimal(name.len())[i - 3]);
            }
        }
    }
    if munged(name).len() == 0 {
        assert(is_all_underscores(munged(name)));
    }
}

/// A keyword read back as a tag's name travels as itself.
pub proof fn a_keyword_travels_as_itself(name: Seq<char>)
    ensures
        keyword_of(keyword_of(name)) == keyword_of(name),
{
    a_keyword_is_an_atom(name);
    let k = keyword_of(name);
    assert(munged(k) =~= k);
    if is_all_underscores(munged(name)) {
        reveal_strlit("tag");
        assert(k[0] == 't');
        assert(munged(k)[0] != '_');
    }
}

/// No tag a person makes looks like a machine's keyword, even one named with
/// a dollar in front.
pub proof fn a_persons_tag_is_never_a_machines(name: Seq<char>)
    ensures
        !is_machines(keyword_of(name)),
{
    a_keyword_is_an_atom(name);
    assert(is_atom_safe(keyword_of(name)[0]));
}

/// A name that an atom can carry travels as it is, and a character that it
/// cannot changes no other.
pub proof fn what_an_atom_carries_travels_as_it_is(name: Seq<char>, i: int)
    requires
        0 <= i < name.len(),
        keyword_of(name) == munged(name),
    ensures
        keyword_of(name).len() == name.len(),
        ('0' <= name[i] <= '9' || 'A' <= name[i] <= 'Z' || 'a' <= name[i] <= 'z' || name[i] == '.'
            || name[i] == '-' || name[i] == '_' || name[i] == '+' || name[i] == '=')
            ==> keyword_of(name)[i] == name[i],
        (name[i] <= ' ' || name[i] > '~' || name[i] == '(' || name[i] == ')' || name[i] == '{'
            || name[i] == '%' || name[i] == '*' || name[i] == '"' || name[i] == '\\' || name[i]
            == ']') ==> keyword_of(name)[i] == '_',
{
}

/// A name that has a letter or a digit in it keeps its length, and one with
/// nothing that an atom carries is told by how long it is.
pub proof fn a_name_is_told_by_what_is_left_of_it(name: Seq<char>)
    ensures
        (exists|i: int|
            0 <= i < name.len() && ('0' <= #[trigger] name[i] <= '9' || 'a' <= name[i] <= 'z'
                || 'A' <= name[i] <= 'Z')) ==> keyword_of(name).len() == name.len(),
        (forall|i: int| 0 <= i < name.len() ==> #[trigger] name[i] == ' ' || name[i] == '_')
            ==> keyword_of(name) == "tag"@ + decimal(name.len()),
{
    if exists|i: int|
        0 <= i < name.len() && ('0' <= #[trigger] name[i] <= '9' || 'a' <= name[i] <= 'z' || 'A'
            <= name[i] <= 'Z') {
        let i = choose|i: int|
            0 <= i < name.len() && ('0' <= #[trigger] name[i] <= '9' || 'a' <= name[i] <= 'z'
                || 'A' <= name[i] <= 'Z');
        assert(munged(name)[i] != '_');
    }
    if forall|i: int| 0 <= i < name.len() ==> #[trigger] name[i] == ' ' || name[i] == '_' {
        assert forall|i: int| 0 <= i < munged(name).len() implies #[trigger] munged(name)[i]
            == '_' by {
            assert(name[i] == ' ' || name[i] == '_');
        }
    }
}

/// A keyword is a machine's by how it begins, and by nothing else.
pub proof fn a_machine_is_told_by_the_first_character(keyword: Seq<char>)
    ensures
        is_machines(seq!['$'] + keyword),
        is_machines(seq!['\\'] + keyword),
        is_machines(keyword) ==> keyword[0] == '$' || keyword[0] == '\\',
        !is_machines(Seq::empty()),
{
}

} // verus!
