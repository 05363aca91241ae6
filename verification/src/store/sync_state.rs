//! What is remembered of a folder between two rounds of synchronising.
//!
//! It is kept as one JSON object, so that a round can write down what it
//! learned without disturbing what another wrote.

use crate::text::{all_digits, chars_of, decimal, decimal_reads_back, is_digit, number, same_chars};
use vstd::prelude::*;

verus! {

// ---------------------------------------------------------------------
// JSON
// ---------------------------------------------------------------------
/// Any JSON value.
#[verifier::external_type_specification]
#[verifier::external_body]
pub struct ExValue(serde_json::Value);

/// The members of a JSON object.
#[verifier::external_type_specification]
#[verifier::external_body]
#[verifier::reject_recursive_types(K)]
#[verifier::reject_recursive_types(V)]
pub struct ExMembers<K, V>(serde_json::Map<K, V>);

/// The members of an object, each by its name and as it is written: a flag as
/// `true` or `false`, a whole number in figures, a string in quotes.
pub uninterp spec fn members_of(m: serde_json::Map<String, serde_json::Value>) -> Map<
    Seq<char>,
    Seq<char>,
>;

/// How many objects and lists stand one inside another, the object itself
/// counted.
pub uninterp spec fn nesting(m: serde_json::Map<String, serde_json::Value>) -> nat;

/// What a text is as JSON.
pub enum Document {
    /// It is not JSON, or goes deeper than can be read.
    Broken,
    Object(Map<Seq<char>, Seq<char>>),
    /// A value that has no members, as it is written.
    Other(Seq<char>),
}

/// What `serde_json::from_str` reads a text as.
pub uninterp spec fn json_document(text: Seq<char>) -> Document;

/// An object with these members, as `serde_json` writes it.
pub uninterp spec fn json_written(members: Map<Seq<char>, Seq<char>>) -> Seq<char>;

/// A text that was read.
enum Parsed {
    Broken,
    Object(serde_json::Map<String, serde_json::Value>),
    Other(String),
}

impl View for Parsed {
    type V = Document;

    closed spec fn view(&self) -> Document {
        match *self {
            Parsed::Broken => Document::Broken,
            Parsed::Object(m) => Document::Object(members_of(m)),
            Parsed::Other(text) => Document::Other(text@),
        }
    }
}

/// Whether a value is written without a fraction or an exponent, or is a
/// string. Such a value is read back as it was; a floating-point number may
/// come back as its neighbour.
pub open spec fn is_exact(written: Seq<char>) -> bool {
    ||| written.len() > 0 && written[0] == '"'
    ||| forall|i: int|
        0 <= i < written.len() ==> #[trigger] written[i] != '.' && !(written[i] == 'e' && i > 0
            && is_digit(written[i - 1]))
}

/// Whether members are those that were written, but for what becomes of
/// floating-point numbers.
pub open spec fn reads_back(
    after: Map<Seq<char>, Seq<char>>,
    before: Map<Seq<char>, Seq<char>>,
) -> bool {
    &&& after.dom() == before.dom()
    &&& forall|k: Seq<char>| #[trigger]
        after.contains_key(k) && (is_exact(before[k]) || is_exact(after[k])) ==> after[k]
            == before[k]
}

/// The member that is true or false.
pub open spec fn flag_member(members: Map<Seq<char>, Seq<char>>, key: Seq<char>) -> Option<bool> {
    if members.contains_key(key) && members[key] == "true"@ {
        Some(true)
    } else if members.contains_key(key) && members[key] == "false"@ {
        Some(false)
    } else {
        None
    }
}

/// The member that is a whole number, nought or more.
pub open spec fn number_member(members: Map<Seq<char>, Seq<char>>, key: Seq<char>) -> Option<u64> {
    if members.contains_key(key) && members[key].len() > 0 && all_digits(members[key]) && number(
        members[key],
    ) <= u64::MAX {
        Some(number(members[key]) as u64)
    } else {
        None
    }
}

pub open spec fn nothing() -> Map<Seq<char>, Seq<char>> {
    Map::empty()
}

/// Calls `serde_json::from_str` for a `Value`, and gives out an object's
/// members, or any other value written out again. Claims that what is read
/// depends on the text alone, and that nothing is read that goes deeper than
/// the reader's limit.
#[verifier::external_body]
fn read_json(text: &str) -> (r: Parsed)
    ensures
        r@ == json_document(text@),
        r matches Parsed::Object(m) ==> nesting(m) <= 127,
{
    match serde_json::from_str::<serde_json::Value>(text) {
        Ok(serde_json::Value::Object(members)) => Parsed::Object(members),
        Ok(other) => Parsed::Other(other.to_string()),
        Err(_) => Parsed::Broken,
    }
}

/// Calls `serde_json::Map::new`: no members, and nothing deeper.
#[verifier::external_body]
fn no_members() -> (m: serde_json::Map<String, serde_json::Value>)
    ensures
        members_of(m) == nothing(),
        nesting(m) == 1,
{
    serde_json::Map::new()
}

/// Calls `serde_json::Map::get` and `Value::as_bool`: the member if it is
/// true or false, which is how it is then written.
#[verifier::external_body]
fn flag_of(m: &serde_json::Map<String, serde_json::Value>, key: &str) -> (r: Option<bool>)
    ensures
        r == flag_member(members_of(*m), key@),
{
    m.get(key)?.as_bool()
}

/// Calls `serde_json::Map::get` and `Value::as_u64`: the member if it is a
/// whole number, nought or more, that fits. It is then written in figures,
/// and nothing else is written in figures alone.
#[verifier::external_body]
fn number_of(m: &serde_json::Map<String, serde_json::Value>, key: &str) -> (r: Option<u64>)
    ensures
        r == number_member(members_of(*m), key@),
{
    m.get(key)?.as_u64()
}

/// Calls `serde_json::Map::insert` with a `Value::Bool`: the member is set,
/// written as `true` or `false`, and no other changes. A flag holds nothing,
/// so the object gets no deeper.
#[verifier::external_body]
fn insert_flag(m: &mut serde_json::Map<String, serde_json::Value>, key: &str, value: bool)
    ensures
        members_of(*final(m)) == members_of(*old(m)).insert(
            key@,
            if value {
                "true"@
            } else {
                "false"@
            },
        ),
        nesting(*final(m)) <= nesting(*old(m)),
{
    m.insert(key.to_string(), serde_json::Value::Bool(value));
}

/// Calls `serde_json::Map::insert` with a `Value` made of a number: the member
/// is set, written in figures, and no other changes. A number holds nothing,
/// so the object gets no deeper.
#[verifier::external_body]
fn insert_number(m: &mut serde_json::Map<String, serde_json::Value>, key: &str, value: u64)
    ensures
        members_of(*final(m)) == members_of(*old(m)).insert(key@, decimal(value as nat)),
        nesting(*final(m)) <= nesting(*old(m)),
{
    m.insert(key.to_string(), serde_json::Value::from(value));
}

/// Calls `serde_json::Map::remove`: the member goes, and no other changes.
#[verifier::external_body]
fn remove_member(m: &mut serde_json::Map<String, serde_json::Value>, key: &str)
    ensures
        members_of(*final(m)) == members_of(*old(m)).remove(key@),
        nesting(*final(m)) <= nesting(*old(m)),
{
    m.remove(key);
}

/// Writes an object with `Value`'s `Display`. Claims that the text depends on
/// the members alone, that no members are written `{}`, and that the text
/// reads back as an object with these members. A value with a floating-point
/// number in it may read back as another such value, so of those it claims
/// only that they are still there.
#[verifier::external_body]
fn write_object(m: serde_json::Map<String, serde_json::Value>) -> (out: String)
    requires
        nesting(m) <= 127,
    ensures
        out@ == json_written(members_of(m)),
        members_of(m) == nothing() ==> out@ == "{}"@,
        json_document(out@) is Object,
        reads_back(members_in(out@), members_of(m)),
{
    serde_json::Value::Object(m).to_string()
}

// ---------------------------------------------------------------------
// What is read
// ---------------------------------------------------------------------
/// The members of what is written down: none, where it is not an object.
pub open spec fn members_in(text: Seq<char>) -> Map<Seq<char>, Seq<char>> {
    match json_document(text) {
        Document::Object(members) => members,
        _ => nothing(),
    }
}

/// Whether a folder is in this store and nowhere else.
pub fn is_local(state: Option<&str>) -> (r: bool)
    ensures
        r == match state {
            Some(text) => flag_member(members_in(text@), "local"@) == Some(true),
            None => false,
        },
{
    match state {
        Some(text) => match read_json(text) {
            Parsed::Object(m) => match flag_of(&m, "local") {
                Some(local) => local,
                None => false,
            },
            _ => false,
        },
        None => false,
    }
}

/// A number, where one is written down.
pub open spec fn number_kept(state: Option<&str>, key: Seq<char>) -> Option<u64> {
    match state {
        Some(text) => number_member(members_in(text@), key),
        None => None,
    }
}

/// The same number as a message number is held.
pub open spec fn uid_kept(state: Option<&str>, key: Seq<char>) -> Option<u32> {
    match number_kept(state, key) {
        Some(n) => Some(n as u32),
        None => None,
    }
}

fn number_in(state: Option<&str>, key: &str) -> (r: Option<u64>)
    ensures
        r == number_kept(state, key@),
{
    match state {
        Some(text) => match read_json(text) {
            Parsed::Object(m) => number_of(&m, key),
            _ => None,
        },
        None => None,
    }
}

fn uid_in(state: Option<&str>, key: &str) -> (r: Option<u32>)
    ensures
        r == uid_kept(state, key@),
{
    match number_in(state, key) {
        Some(n) => Some(
            #[verifier::truncate]
            (n as u32),
        ),
        None => None,
    }
}

/// The lowest number that has been asked for in a folder. Not the lowest that
/// is held: where the messages of a range are long gone, nothing comes of
/// asking, and it would be asked again for ever.
pub fn backfill_floor(state: Option<&str>) -> (r: Option<u32>)
    ensures
        r == uid_kept(state, "backfill_floor"@),
{
    uid_in(state, "backfill_floor")
}

/// The next number the server was going to give out.
pub fn folder_uidnext(state: Option<&str>) -> (r: Option<u32>)
    ensures
        r == uid_kept(state, "uidnext"@),
{
    uid_in(state, "uidnext")
}

/// The mark the folder's flags were last brought up to.
pub fn folder_modseq(state: Option<&str>) -> (r: Option<u64>)
    ensures
        r == number_kept(state, "modseq"@),
{
    number_in(state, "modseq")
}

// ---------------------------------------------------------------------
// What is written
// ---------------------------------------------------------------------
/// The members a round adds to. Where nothing was written down there are
/// none, and what cannot be read counts as nothing, and so does `null`. Any
/// other value has no members to add to.
pub open spec fn members_to_extend(state: Option<&str>) -> Option<Map<Seq<char>, Seq<char>>> {
    match state {
        None => Some(nothing()),
        Some(text) => match json_document(text@) {
            Document::Broken => Some(nothing()),
            Document::Object(members) => Some(members),
            Document::Other(written) => if written == "null"@ {
                Some(nothing())
            } else {
                None
            },
        },
    }
}

/// Whether what is written down is JSON, but neither an object nor `null`: the
/// one case in which nothing can be added to it.
pub open spec fn takes_nothing(state: Option<&str>) -> bool {
    state matches Some(text) && json_document(text@) matches Document::Other(written) && written
        != "null"@
}

fn object_to_extend(state: Option<&str>) -> (r: Option<
    serde_json::Map<String, serde_json::Value>,
>)
    ensures
        match (r, members_to_extend(state)) {
            (Some(m), Some(members)) => members_of(m) == members && nesting(m) <= 127,
            (None, None) => true,
            _ => false,
        },
{
    match state {
        None => Some(no_members()),
        Some(text) => match read_json(text) {
            Parsed::Broken => Some(no_members()),
            Parsed::Object(m) => Some(m),
            Parsed::Other(written) => if same_chars(&chars_of(&written), &chars_of("null")) {
                Some(no_members())
            } else {
                None
            },
        },
    }
}

/// Whether a text is an object with these members, and reads back as one:
/// every flag, every whole number, and every member but those with a
/// floating-point number in them.
pub open spec fn is_written(out: Seq<char>, members: Map<Seq<char>, Seq<char>>) -> bool {
    &&& out == json_written(members)
    &&& json_document(out) is Object
    &&& reads_back(members_in(out), members)
    &&& forall|k: Seq<char>| #[trigger]
        flag_member(members_in(out), k) == flag_member(members, k)
    &&& forall|k: Seq<char>| #[trigger]
        number_member(members_in(out), k) == number_member(members, k)
}

proof fn flags_are_exact()
    ensures
        is_exact("true"@),
        is_exact("false"@),
{
    reveal_strlit("true");
    reveal_strlit("false");
}

fn written(m: serde_json::Map<String, serde_json::Value>) -> (out: String)
    requires
        nesting(m) <= 127,
    ensures
        is_written(out@, members_of(m)),
        members_of(m) == nothing() ==> out@ == "{}"@,
{
    let ghost before = members_of(m);
    let out = write_object(m);
    proof {
        flags_are_exact();
        let after = members_in(out@);
        assert forall|k: Seq<char>| #[trigger]
            flag_member(after, k) == flag_member(before, k) by {
            assert(after.contains_key(k) == before.contains_key(k)) by {
                assert(after.dom().contains(k) == before.dom().contains(k));
            }
        }
        assert forall|k: Seq<char>| #[trigger]
            number_member(after, k) == number_member(before, k) by {
            assert(after.contains_key(k) == before.contains_key(k)) by {
                assert(after.dom().contains(k) == before.dom().contains(k));
            }
            assert(all_digits(after[k]) ==> is_exact(after[k]));
            assert(all_digits(before[k]) ==> is_exact(before[k]));
        }
    }
    out
}

/// What comes of writing a member down: the same members with that one, or
/// nothing, where there are no members to add to.
pub open spec fn is_extended(
    r: Option<String>,
    state: Option<&str>,
    key: Seq<char>,
    value: Seq<char>,
) -> bool {
    match (r, members_to_extend(state)) {
        (Some(out), Some(members)) => is_written(out@, members.insert(key, value)),
        (None, None) => true,
        _ => false,
    }
}

fn with_number(state: Option<&str>, key: &str, value: u64) -> (r: Option<String>)
    ensures
        is_extended(r, state, key@, decimal(value as nat)),
        r matches Some(out) ==> number_member(members_in(out@), key@) == Some(value),
{
    match object_to_extend(state) {
        Some(m) => {
            let mut m = m;
            insert_number(&mut m, key, value);
            proof {
                decimal_reads_back(value as nat);
                assert(number_member(members_of(m), key@) == Some(value));
            }
            Some(written(m))
        },
        None => None,
    }
}

/// Marks a folder as being in this store and nowhere else. Nothing comes of
/// it where what is written down is JSON, but neither an object nor `null`.
pub fn marked_local(state: Option<&str>) -> (r: Option<String>)
    ensures
        is_extended(r, state, "local"@, "true"@),
        r matches Some(out) ==> flag_member(members_in(out@), "local"@) == Some(true),
        r is None <==> takes_nothing(state),
{
    match object_to_extend(state) {
        Some(m) => {
            let mut m = m;
            insert_flag(&mut m, "local", true);
            assert(flag_member(members_of(m), "local"@) == Some(true));
            Some(written(m))
        },
        None => None,
    }
}

/// Writes down the lowest number asked for, and disturbs nothing else.
pub fn with_backfill_floor(state: Option<&str>, floor: u32) -> (r: Option<String>)
    ensures
        is_extended(r, state, "backfill_floor"@, decimal(floor as nat)),
        r is None <==> takes_nothing(state),
        r matches Some(out) ==> number_member(members_in(out@), "backfill_floor"@) == Some(
            floor as u64,
        ),
{
    with_number(state, "backfill_floor", floor as u64)
}

/// Writes down the next number to come, and disturbs nothing else.
pub fn with_uidnext(state: Option<&str>, uidnext: u32) -> (r: Option<String>)
    ensures
        is_extended(r, state, "uidnext"@, decimal(uidnext as nat)),
        r is None <==> takes_nothing(state),
        r matches Some(out) ==> number_member(members_in(out@), "uidnext"@) == Some(uidnext as u64),
{
    with_number(state, "uidnext", uidnext as u64)
}

/// Writes down the mark of the flags, and disturbs nothing else.
pub fn with_modseq(state: Option<&str>, modseq: u64) -> (r: Option<String>)
    ensures
        is_extended(r, state, "modseq"@, decimal(modseq as nat)),
        r is None <==> takes_nothing(state),
        r matches Some(out) ==> number_member(members_in(out@), "modseq"@) == Some(modseq),
{
    with_number(state, "modseq", modseq)
}

/// Forgets the mark of the flags: what a folder was marked with before it was
/// numbered anew cannot be compared with what it is marked with after. What
/// cannot be read counts as an object without members, and what has no
/// members stays as it is.
pub fn without_modseq(state: Option<&str>) -> (out: String)
    ensures
        match state {
            None => out@ == "{}"@,
            Some(text) => match json_document(text@) {
                Document::Broken => out@ == "{}"@,
                Document::Object(members) => is_written(out@, members.remove("modseq"@)),
                Document::Other(written) => out@ == written,
            },
        },
        (state matches Some(text) && json_document(text@) is Other) || number_member(
            members_in(out@),
            "modseq"@,
        ) is None,
{
    match state {
        None => written(no_members()),
        Some(text) => match read_json(text) {
            Parsed::Broken => written(no_members()),
            Parsed::Object(m) => {
                let mut m = m;
                remove_member(&mut m, "modseq");
                assert(number_member(members_of(m), "modseq"@) is None);
                written(m)
            },
            Parsed::Other(written) => written,
        },
    }
}

// ---------------------------------------------------------------------
// Laws
// ---------------------------------------------------------------------
/// Writing one member down disturbs no other: its flag, its number and, where
/// no floating-point number is in it, the member itself read as they did.
pub proof fn nothing_else_is_disturbed(
    out: Seq<char>,
    members: Map<Seq<char>, Seq<char>>,
    key: Seq<char>,
    value: Seq<char>,
    other: Seq<char>,
)
    requires
        is_written(out, members.insert(key, value)),
        other != key,
    ensures
        members_in(out).contains_key(other) == members.contains_key(other),
        flag_member(members_in(out), other) == flag_member(members, other),
        number_member(members_in(out), other) == number_member(members, other),
        members.contains_key(other) && is_exact(members[other]) ==> members_in(out)[other]
            == members[other],
{
    let after = members_in(out);
    let before = members.insert(key, value);
    assert(after.dom().contains(other) == before.dom().contains(other));
    assert(flag_member(after, other) == flag_member(before, other));
    assert(number_member(after, other) == number_member(before, other));
}

/// Nor does forgetting one, and that one is then gone.
pub proof fn only_that_is_forgotten(
    out: Seq<char>,
    members: Map<Seq<char>, Seq<char>>,
    key: Seq<char>,
    other: Seq<char>,
)
    requires
        is_written(out, members.remove(key)),
        other != key,
    ensures
        !members_in(out).contains_key(key),
        members_in(out).contains_key(other) == members.contains_key(other),
        flag_member(members_in(out), other) == flag_member(members, other),
        number_member(members_in(out), other) == number_member(members, other),
        members.contains_key(other) && is_exact(members[other]) ==> members_in(out)[other]
            == members[other],
{
    let after = members_in(out);
    let before = members.remove(key);
    assert(after.dom().contains(other) == before.dom().contains(other));
    assert(after.dom().contains(key) == before.dom().contains(key));
    assert(flag_member(after, other) == flag_member(before, other));
    assert(number_member(after, other) == number_member(before, other));
}

/// A number that a message can have is read as the number it is, and nothing
/// is read where nothing was written.
pub proof fn a_number_written_is_the_number_read(text: &str, key: Seq<char>, number: u32)
    requires
        number_member(members_in(text@), key) == Some(number as u64),
    ensures
        number_kept(Some(text), key) == Some(number as u64),
        uid_kept(Some(text), key) == Some(number),
        number_kept(None, key) is None,
        uid_kept(None, key) is None,
{
}

/// What is added goes to what was there already, and to nothing where what was
/// there cannot be kept; only what is no object and not `null` either takes
/// nothing.
pub proof fn what_was_there_is_added_to(text: &str)
    ensures
        members_to_extend(None) == Some(Map::<Seq<char>, Seq<char>>::empty()),
        json_document(text@) is Broken ==> members_to_extend(Some(text)) == Some(
            Map::<Seq<char>, Seq<char>>::empty(),
        ),
        json_document(text@) is Object ==> members_to_extend(Some(text)) == Some(
            members_in(text@),
        ),
        json_document(text@) matches Document::Other(written) ==> members_to_extend(Some(text))
            == (if written == "null"@ {
            Some(Map::<Seq<char>, Seq<char>>::empty())
        } else {
            None
        }),
        members_to_extend(Some(text)) is None <==> takes_nothing(Some(text)),
{
}

/// A member is a whole number exactly if it is written in digits and is no
/// more than the largest there is room for, and it is then that number; it is
/// a flag exactly if it is written `true` or `false`.
pub proof fn a_member_is_what_is_written(members: Map<Seq<char>, Seq<char>>, key: Seq<char>, n: u64)
    ensures
        members.contains_key(key) && members[key] == decimal(n as nat) ==> number_member(
            members,
            key,
        ) == Some(n),
        members.contains_key(key) && members[key] == "true"@ ==> flag_member(members, key) == Some(
            true,
        ) && number_member(members, key) is None,
        members.contains_key(key) && members[key] == "false"@ ==> flag_member(members, key)
            == Some(false) && number_member(members, key) is None,
        !members.contains_key(key) ==> flag_member(members, key) is None && number_member(
            members,
            key,
        ) is None,
{
    decimal_reads_back(n as nat);
    reveal_strlit("true");
    reveal_strlit("false");
    assert("true"@.len() == 4 && "true"@[0] == 't');
    assert("false"@.len() == 5 && "false"@[0] == 'f');
    assert(!all_digits("true"@)) by {
        assert(!crate::text::is_digit("true"@[0]));
    }
    assert(!all_digits("false"@)) by {
        assert(!crate::text::is_digit("false"@[0]));
    }
}

} // verus!
