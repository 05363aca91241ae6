//! Accounts: which one is on show, what colour each wears, and what a store
//! of another version needs before it can be read.

use crate::text::{ascii_lowercase, ascii_lowered, chars_of, parse_i64, same_chars, signed_number};
use vstd::prelude::*;

verus! {

// ---------------------------------------------------------------------
// The account on show
// ---------------------------------------------------------------------
/// The number a stored setting holds, if it is one.
pub open spec fn number_in(setting: Option<&str>) -> Option<int> {
    match setting {
        Some(text) => match signed_number(text@) {
            Some(n) => if i64::MIN <= n <= i64::MAX {
                Some(n)
            } else {
                None
            },
            None => None,
        },
        None => None,
    }
}

/// The account on show: the one chosen, if it is still there, and otherwise
/// the first.
pub open spec fn account_shown(setting: Option<&str>, ids: Seq<i64>) -> Option<i64> {
    match number_in(setting) {
        Some(id) => if exists|i: int| 0 <= i < ids.len() && #[trigger] ids[i] == id {
            Some(id as i64)
        } else {
            ids_first(ids)
        },
        None => ids_first(ids),
    }
}

pub open spec fn ids_first(ids: Seq<i64>) -> Option<i64> {
    if ids.len() > 0 {
        Some(ids[0])
    } else {
        None
    }
}

fn first_of(ids: &Vec<i64>) -> (r: Option<i64>)
    ensures
        r == ids_first(ids@),
{
    if ids.len() > 0 {
        Some(ids[0])
    } else {
        None
    }
}

/// Works out which account is on show. `ids` are the accounts there are,
/// oldest first.
pub fn active_account(setting: Option<&str>, ids: &Vec<i64>) -> (r: Option<i64>)
    ensures
        r == account_shown(setting, ids@),
{
    let text = match setting {
        Some(text) => text,
        None => {
            return first_of(ids);
        },
    };
    match parse_i64(&chars_of(text)) {
        Some(id) => {
            let mut i: usize = 0;
            while i < ids.len()
                invariant
                    i <= ids@.len(),
                    number_in(setting) == Some(id as int),
                    forall|j: int| 0 <= j < i ==> ids@[j] != id,
                decreases ids@.len() - i,
            {
                if ids[i] == id {
                    return Some(id);
                }
                i += 1;
            }
            first_of(ids)
        },
        None => first_of(ids),
    }
}

/// An account that has been removed is never the one on show, and while there
/// is an account some account is.
pub proof fn the_account_on_show_is_there(setting: Option<&str>, ids: Seq<i64>)
    ensures
        match account_shown(setting, ids) {
            Some(id) => ids.contains(id),
            None => ids.len() == 0,
        },
{
}

// ---------------------------------------------------------------------
// Colours
// ---------------------------------------------------------------------
/// The colours an account can wear, in the order they are handed out.
pub const ACCOUNT_COLOURS: [&'static str; 6] = [
    "#0E7C86",
    "#9A6B1F",
    "#6B7F87",
    "#3B6EA5",
    "#6B5CA5",
    "#5E7C4A",
];

/// Whether an account wears a colour, however its letters are written.
pub open spec fn is_worn(colour: Seq<char>, used: Seq<String>) -> bool {
    exists|i: int|
        0 <= i < used.len() && ascii_lowercase((#[trigger] used[i])@) == ascii_lowercase(colour)
}

/// The first colour of the palette, from the `i`th on, that nobody wears.
pub open spec fn free_colour(used: Seq<String>, i: int) -> Option<int>
    decreases 6 - i,
{
    if i < 0 || i >= 6 {
        None
    } else if is_worn(ACCOUNT_COLOURS@[i]@, used) {
        free_colour(used, i + 1)
    } else {
        Some(i)
    }
}

/// The colour the next account gets, by its place in the palette. With more
/// accounts than colours they go round again, which is the least bad answer.
pub open spec fn colour_given(used: Seq<String>) -> int {
    match free_colour(used, 0) {
        Some(i) => i,
        None => used.len() as int % 6,
    }
}

fn wears(colour: &str, used: &Vec<String>) -> (r: bool)
    ensures
        r == is_worn(colour@, used@),
{
    let low = ascii_lowered(&chars_of(colour));
    let mut i: usize = 0;
    while i < used.len()
        invariant
            i <= used@.len(),
            low@ == ascii_lowercase(colour@),
            forall|j: int|
                0 <= j < i ==> ascii_lowercase((#[trigger] used@[j])@) != ascii_lowercase(colour@),
        decreases used@.len() - i,
    {
        if same_chars(&ascii_lowered(&chars_of(&used[i])), &low) {
            return true;
        }
        i += 1;
    }
    false
}

/// The first palette colour no other account is wearing. Two accounts of one
/// colour cannot be told apart where the colour is there to be read.
pub fn next_account_colour(used: &Vec<String>) -> (colour: &'static str)
    ensures
        0 <= colour_given(used@) < 6,
        colour@ == ACCOUNT_COLOURS@[colour_given(used@)]@,
{
    let palette = ACCOUNT_COLOURS;
    let mut i: usize = 0;
    while i < 6
        invariant
            i <= 6,
            palette@ == ACCOUNT_COLOURS@,
            free_colour(used@, 0) == free_colour(used@, i as int),
        decreases 6 - i,
    {
        if !wears(palette[i], used) {
            return palette[i];
        }
        i += 1;
    }
    palette[used.len() % 6]
}

/// Whether an account still has to be given a colour.
pub fn needs_colour(colour: Option<&str>) -> (r: bool)
    ensures
        r == match colour {
            Some(c) => c@.len() == 0,
            None => true,
        },
{
    match colour {
        Some(c) => chars_of(c).len() == 0,
        None => true,
    }
}

proof fn free_colours_are_free(used: Seq<String>, i: int)
    requires
        0 <= i,
    ensures
        match free_colour(used, i) {
            Some(k) => i <= k < 6 && !is_worn(ACCOUNT_COLOURS@[k]@, used),
            None => forall|k: int| i <= k < 6 ==> is_worn(#[trigger] ACCOUNT_COLOURS@[k]@, used),
        },
    decreases 6 - i,
{
    if i < 6 && is_worn(ACCOUNT_COLOURS@[i]@, used) {
        free_colours_are_free(used, i + 1);
    }
}

/// While some colour is left, the one given is one that nobody wears.
pub proof fn a_colour_tells_accounts_apart(used: Seq<String>, left: int)
    requires
        0 <= left < 6,
        !is_worn(ACCOUNT_COLOURS@[left]@, used),
    ensures
        !is_worn(ACCOUNT_COLOURS@[colour_given(used)]@, used),
{
    free_colours_are_free(used, 0);
}

// ---------------------------------------------------------------------
// Versions
// ---------------------------------------------------------------------
/// The version of the tables this library writes.
pub const SCHEMA_VERSION: i64 = 24;

/// Bumped whenever text extraction changes; a mismatch forces reindexing.
pub const EXTRACTOR_VERSION: i64 = 1;

/// How the indexed text is derived. Bumped when that changes: the index is
/// built once, when a message arrives, and keeps what older code produced.
pub const EXTRACTION_VERSION: i64 = 5;

/// The steps from one version up to another, each named by the version it
/// leads to.
pub open spec fn steps(from: int, to: int) -> Seq<i64>
    decreases to - from,
{
    if from >= to {
        Seq::empty()
    } else {
        steps(from, to - 1).push(to as i64)
    }
}

/// The version a file counts as being at. A file with no tables says nought.
pub open spec fn standing_at(version: int) -> int {
    if version < 0 {
        0
    } else {
        version
    }
}

/// The steps a file of some version still has to take, in order. A new file
/// takes them all; one that is up to date, or ahead, takes none.
pub fn steps_due(version: i64) -> (due: Vec<i64>)
    ensures
        due@ == steps(standing_at(version as int), SCHEMA_VERSION as int),
{
    let mut due: Vec<i64> = Vec::new();
    let start: i64 = if version < 0 {
        0
    } else {
        version
    };
    if start >= SCHEMA_VERSION {
        return due;
    }
    let mut at: i64 = start;
    while at < SCHEMA_VERSION
        invariant
            start <= at <= SCHEMA_VERSION,
            due@ == steps(start as int, at as int),
        decreases SCHEMA_VERSION - at,
    {
        at += 1;
        due.push(at);
    }
    due
}

/// Whether a file has a version to be brought up to, and so to be recorded.
pub fn is_behind(version: i64) -> (r: bool)
    ensures
        r == (version < SCHEMA_VERSION),
{
    version < SCHEMA_VERSION
}

proof fn steps_join(a: int, b: int, c: int)
    requires
        a <= b <= c,
    ensures
        steps(a, b) + steps(b, c) == steps(a, c),
    decreases c - b,
{
    if b == c {
        assert(steps(b, c) =~= Seq::empty());
        assert(steps(a, b) + steps(b, c) =~= steps(a, c));
    } else {
        steps_join(a, b, c - 1);
        assert(steps(a, b) + steps(b, c) =~= (steps(a, b) + steps(b, c - 1)).push(c as i64));
        if a >= c {
        } else {
            assert(steps(a, c) == steps(a, c - 1).push(c as i64));
        }
    }
}

/// However many releases an upgrade goes through, every step is taken once
/// and in the same order, and a file that has taken them has none left.
pub proof fn an_upgrade_may_stop_on_the_way(version: int, between: int)
    requires
        0 <= version <= between <= SCHEMA_VERSION,
    ensures
        steps(version, between) + steps(between, SCHEMA_VERSION as int) == steps(
            version,
            SCHEMA_VERSION as int,
        ),
        steps(SCHEMA_VERSION as int, SCHEMA_VERSION as int).len() == 0,
{
    steps_join(version, between, SCHEMA_VERSION as int);
}

/// Whether the indexed text was derived by an older version and has to be
/// derived again.
pub fn text_is_stale(setting: Option<&str>) -> (r: bool)
    ensures
        r == (match number_in(setting) {
            Some(held) => held,
            None => 0,
        } < EXTRACTION_VERSION),
{
    let held: i64 = match setting {
        Some(text) => match parse_i64(&chars_of(text)) {
            Some(n) => n,
            None => 0,
        },
        None => 0,
    };
    held < EXTRACTION_VERSION
}

// ---------------------------------------------------------------------
// Laws
// ---------------------------------------------------------------------
/// The account chosen is the one on show for as long as it is there, and the
/// first is where it is not, or where what was chosen is no number.
pub proof fn the_account_chosen_is_shown(setting: Option<&str>, ids: Seq<i64>, id: i64)
    ensures
        number_in(setting) == Some(id as int) && ids.contains(id) ==> account_shown(setting, ids)
            == Some(id),
        number_in(setting) == Some(id as int) && !ids.contains(id) && ids.len() > 0
            ==> account_shown(setting, ids) == Some(ids[0]),
        number_in(setting) is None && ids.len() > 0 ==> account_shown(setting, ids) == Some(ids[0]),
        setting is None ==> number_in(setting) is None,
{
    if ids.contains(id) {
        let i = ids.index_of(id);
        assert(ids[i] == id);
    }
}

/// Colours are handed out in the order of the palette: all before the one
/// given are worn. Where all are worn they go round again.
pub proof fn colours_go_round(used: Seq<String>)
    ensures
        forall|k: int|
            0 <= k < colour_given(used) && !is_worn(
                ACCOUNT_COLOURS@[colour_given(used)]@,
                used,
            ) ==> is_worn(#[trigger] ACCOUNT_COLOURS@[k]@, used),
        (forall|k: int| 0 <= k < 6 ==> is_worn(#[trigger] ACCOUNT_COLOURS@[k]@, used))
            ==> colour_given(used) == used.len() % 6,
{
    free_colours_are_free(used, 0);
    all_before_are_worn(used, 0);
}

proof fn all_before_are_worn(used: Seq<String>, i: int)
    requires
        0 <= i,
    ensures
        free_colour(used, i) matches Some(at) ==> forall|k: int|
            i <= k < at ==> is_worn(#[trigger] ACCOUNT_COLOURS@[k]@, used),
    decreases 6 - i,
{
    if i < 6 && is_worn(ACCOUNT_COLOURS@[i]@, used) {
        all_before_are_worn(used, i + 1);
    }
}

/// Every version from the next one on is a step, one after another.
pub proof fn an_upgrade_skips_nothing(from: int, to: int)
    requires
        0 <= from <= to <= i64::MAX,
    ensures
        steps(from, to).len() == to - from,
        forall|i: int| 0 <= i < to - from ==> #[trigger] steps(from, to)[i] == from + 1 + i,
    decreases to - from,
{
    if from < to {
        an_upgrade_skips_nothing(from, to - 1);
    }
}

} // verus!
