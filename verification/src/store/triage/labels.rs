//! Filing by a provider's own labels.

use crate::text::{chars_of, same_chars, strings, trim_end_char, without_end};
use vstd::prelude::*;
use vstd::slice::slice_subrange;

verus! {

/// What is left once every `c` is taken off the front.
pub open spec fn trim_start_char(s: Seq<char>, c: char) -> Seq<char>
    decreases s.len(),
{
    if s.len() > 0 && s[0] == c {
        trim_start_char(s.skip(1), c)
    } else {
        s
    }
}

fn without_start<'a>(s: &'a [char], c: char) -> (r: &'a [char])
    ensures
        r@ == trim_start_char(s@, c),
{
    let mut i: usize = 0;
    assert(s@.skip(0) =~= s@);
    while i < s.len() && s[i] == c
        invariant
            i <= s@.len(),
            trim_start_char(s@, c) == trim_start_char(s@.skip(i as int), c),
        decreases s@.len() - i,
    {
        assert(s@.skip(i as int).skip(1) =~= s@.skip(i + 1));
        i += 1;
    }
    assert(s@.subrange(i as int, s@.len() as int) =~= s@.skip(i as int));
    slice_subrange(s, i, s.len())
}

/// A label without the quotes round it.
pub open spec fn unquoted(label: Seq<char>) -> Seq<char> {
    trim_end_char(trim_start_char(label, '"'), '"')
}

/// The name of a label, however it was quoted and escaped on the way here.
pub open spec fn label_name(label: Seq<char>) -> Seq<char> {
    trim_start_char(unquoted(label), '\\')
}

/// Whether a label is the provider's own.
pub open spec fn is_system_label(label: Seq<char>) -> bool {
    unquoted(label).len() > 0 && unquoted(label)[0] == '\\'
}

/// Whether a message carries a label of this name: the whole name, for a
/// label called "Old Inbox" is not the inbox.
pub open spec fn has_label(labels: Seq<Seq<char>>, name: Seq<char>) -> bool {
    exists|i: int| 0 <= i < labels.len() && label_name(#[trigger] labels[i]) == name
}

/// Whether a message carries a label somebody made, of this name.
pub open spec fn carries_tag(labels: Seq<Seq<char>>, name: Seq<char>) -> bool {
    exists|i: int|
        0 <= i < labels.len() && !is_system_label(#[trigger] labels[i]) && label_name(labels[i])
            == name
}

fn any_label(labels: &Vec<String>, name: &str, made: bool) -> (r: bool)
    ensures
        r == if made {
            carries_tag(strings(labels@), name@)
        } else {
            has_label(strings(labels@), name@)
        },
{
    let wanted = chars_of(name);
    let mut i: usize = 0;
    while i < labels.len()
        invariant
            i <= labels@.len(),
            wanted@ == name@,
            forall|j: int|
                0 <= j < i ==> label_name(#[trigger] strings(labels@)[j]) != name@ || (made
                    && is_system_label(strings(labels@)[j])),
        decreases labels@.len() - i,
    {
        let ghost label = strings(labels@)[i as int];
        assert(label == labels@[i as int]@);
        let chars = chars_of(&labels[i]);
        let bare = without_end(without_start(&chars, '"'), '"');
        let system = bare.len() > 0 && bare[0] == '\\';
        let text = without_start(bare, '\\');
        if same_chars(text, &wanted) && !(made && system) {
            return true;
        }
        i += 1;
    }
    false
}

/// Where a message with these labels is filed, and what else they say.
#[derive(Debug, Clone, PartialEq, Eq)]
pub struct Filing {
    /// The folder it goes into, and the one it comes out of.
    pub into: i64,
    pub out_of: i64,
    /// The number the inbox knows it by, where it is filed there and the
    /// number was given.
    pub uid: Option<u32>,
    pub starred: bool,
    /// Of each tag, whether the message carries it.
    pub carried: Vec<bool>,
}

/// Files a message where its labels say it is. Archived is not carrying the
/// inbox's label; a star is a label too; and a label that is a tag here is
/// the same fact in both places.
pub fn filing(
    labels: &Vec<String>,
    inbox: i64,
    archive: i64,
    inbox_uid: Option<u32>,
    tags: &Vec<String>,
) -> (f: Filing)
    ensures
        has_label(strings(labels@), "Inbox"@) ==> f.into == inbox && f.out_of == archive && f.uid
            == inbox_uid,
        !has_label(strings(labels@), "Inbox"@) ==> f.into == archive && f.out_of == inbox && f.uid
            is None,
        f.starred == has_label(strings(labels@), "Starred"@),
        f.carried@.len() == tags@.len(),
        forall|i: int|
            0 <= i < tags@.len() ==> #[trigger] f.carried@[i] == carries_tag(
                strings(labels@),
                tags@[i]@,
            ),
{
    let in_inbox = any_label(labels, "Inbox", false);
    let mut carried: Vec<bool> = Vec::new();
    let mut i: usize = 0;
    while i < tags.len()
        invariant
            i <= tags@.len(),
            carried@.len() == i,
            forall|j: int|
                0 <= j < i ==> #[trigger] carried@[j] == carries_tag(
                    strings(labels@),
                    tags@[j]@,
                ),
        decreases tags@.len() - i,
    {
        carried.push(any_label(labels, &tags[i], true));
        i += 1;
    }
    Filing {
        into: if in_inbox {
            inbox
        } else {
            archive
        },
        out_of: if in_inbox {
            archive
        } else {
            inbox
        },
        uid: if in_inbox {
            inbox_uid
        } else {
            None
        },
        starred: any_label(labels, "Starred", false),
        carried,
    }
}

proof fn trimming_finds_nothing(s: Seq<char>, c: char)
    requires
        s.len() > 0 ==> s[0] != c && s.last() != c,
    ensures
        trim_start_char(s, c) == s,
        trim_end_char(s, c) == s,
{
}

proof fn trimming_a_front(c: char, s: Seq<char>)
    ensures
        trim_start_char(seq![c] + s, c) == trim_start_char(s, c),
{
    let whole = seq![c] + s;
    assert(whole.skip(1) =~= s);
}

/// How many quotes and backslashes a label arrived with makes no difference
/// to its name: `Inbox`, `\Inbox` and `"\\Inbox"` are one label.
pub proof fn escaping_says_nothing(name: Seq<char>)
    requires
        name.len() > 0,
        name[0] != '\\' && name[0] != '"',
        name.last() != '"',
    ensures
        label_name(name) == name,
        label_name(seq!['\\'] + name) == name,
        label_name(seq!['"', '\\', '\\'] + name + seq!['"']) == name,
        !is_system_label(name),
        is_system_label(seq!['\\'] + name),
{
    trimming_finds_nothing(name, '"');
    let one = seq!['\\'] + name;
    assert(one.last() == name.last());
    trimming_finds_nothing(one, '"');
    trimming_a_front('\\', name);
    let two = seq!['\\', '\\'] + name;
    let quoted = seq!['"', '\\', '\\'] + name + seq!['"'];
    assert(quoted =~= seq!['"'] + (two + seq!['"']));
    trimming_a_front('"', two + seq!['"']);
    assert((two + seq!['"'])[0] == '\\');
    assert(trim_start_char(two + seq!['"'], '"') == two + seq!['"']);
    assert((two + seq!['"']).drop_last() =~= two);
    assert(two.last() == name.last());
    assert(trim_end_char(two, '"') == two);
    assert(trim_start_char(quoted, '"') == two + seq!['"']);
    assert((two + seq!['"']).last() == '"');
    assert(unquoted(quoted) == two);
    assert(two =~= seq!['\\'] + one);
    trimming_a_front('\\', one);
}

/// A message carries a label if it carries it among the first of its labels
/// or among the rest, and without labels it carries none.
pub proof fn labels_add_up(some: Seq<Seq<char>>, others: Seq<Seq<char>>, name: Seq<char>)
    ensures
        has_label(some + others, name) == (has_label(some, name) || has_label(others, name)),
        carries_tag(some + others, name) == (carries_tag(some, name) || carries_tag(others, name)),
        !has_label(Seq::empty(), name),
        !carries_tag(Seq::empty(), name),
        carries_tag(some, name) ==> has_label(some, name),
{
    let all = some + others;
    if has_label(some, name) {
        let i = choose|i: int| 0 <= i < some.len() && label_name(#[trigger] some[i]) == name;
        assert(all[i] == some[i]);
    }
    if has_label(others, name) {
        let i = choose|i: int| 0 <= i < others.len() && label_name(#[trigger] others[i]) == name;
        assert(all[some.len() + i] == others[i]);
    }
    if has_label(all, name) {
        let i = choose|i: int| 0 <= i < all.len() && label_name(#[trigger] all[i]) == name;
        if i < some.len() {
            assert(some[i] == all[i]);
        } else {
            assert(others[i - some.len()] == all[i]);
        }
    }
    if carries_tag(some, name) {
        let i = choose|i: int|
            0 <= i < some.len() && !is_system_label(#[trigger] some[i]) && label_name(some[i])
                == name;
        assert(all[i] == some[i]);
    }
    if carries_tag(others, name) {
        let i = choose|i: int|
            0 <= i < others.len() && !is_system_label(#[trigger] others[i]) && label_name(others[i])
                == name;
        assert(all[some.len() + i] == others[i]);
    }
    if carries_tag(all, name) {
        let i = choose|i: int|
            0 <= i < all.len() && !is_system_label(#[trigger] all[i]) && label_name(all[i]) == name;
        if i < some.len() {
            assert(some[i] == all[i]);
        } else {
            assert(others[i - some.len()] == all[i]);
        }
    }
}

/// A label is one of a name only if it is that name, the whole of it and as
/// it is written. The provider's own labels are labels, and no tags.
pub proof fn a_label_is_its_whole_name(label: Seq<char>, name: Seq<char>)
    requires
        label.len() > 0,
        label[0] != '\\' && label[0] != '"',
        label.last() != '"',
    ensures
        has_label(seq![label], name) == (label == name),
        has_label(seq![seq!['\\'] + label], name) == (label == name),
        carries_tag(seq![label], name) == (label == name),
        !carries_tag(seq![seq!['\\'] + label], name),
{
    escaping_says_nothing(label);
    let plain = seq![label];
    let own = seq![seq!['\\'] + label];
    assert(plain[0] == label);
    assert(own[0] == seq!['\\'] + label);
}

} // verus!
