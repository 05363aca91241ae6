//! Folders: places on the server, mirrored here.

use super::error::{is_rejected, refused, StoreError};
use crate::actions::{Prior, PriorState};
use crate::retention::{cutoff, purge_cutoff};
use crate::text::{
    append_chars, ascii_lowercase, ascii_lowered, chars_of, same, same_chars, string_of, trim,
    trimmed,
};
use std::collections::HashSet;
use vstd::prelude::*;
use vstd::slice::slice_subrange;

verus! {

broadcast use vstd::std_specs::hash::group_hash_axioms;

// ---------------------------------------------------------------------
// Names
// ---------------------------------------------------------------------
/// What parts a folder's name from its parent's. Both, because a path is the
/// server's and servers differ.
pub open spec fn is_divider(c: char) -> bool {
    c == '/' || c == '.'
}

/// The last part of a path, for either divider or for the slash alone.
pub open spec fn leaf(path: Seq<char>, dots: bool) -> Seq<char>
    decreases path.len(),
{
    if path.len() == 0 || path.last() == '/' || (dots && path.last() == '.') {
        Seq::empty()
    } else {
        leaf(path.drop_last(), dots).push(path.last())
    }
}

/// What a folder is called where it is shown: the last part of its path.
pub fn leaf_name(path: &str, dots: bool) -> (name: String)
    ensures
        name@ == leaf(path@, dots),
{
    let chars = chars_of(path);
    let mut i: usize = chars.len();
    assert(chars@.take(i as int) + Seq::<char>::empty() =~= chars@);
    assert(chars@.skip(i as int) =~= Seq::<char>::empty());
    assert(leaf(chars@.take(i as int), dots) + chars@.skip(i as int) =~= leaf(chars@, dots)) by {
        assert(chars@.take(i as int) =~= chars@);
    }
    while i > 0 && chars[i - 1] != '/' && !(dots && chars[i - 1] == '.')
        invariant
            i <= chars@.len(),
            leaf(chars@.take(i as int), dots) + chars@.skip(i as int) == leaf(chars@, dots),
        decreases i,
    {
        let ghost here = chars@.take(i as int);
        assert(here.drop_last() =~= chars@.take(i - 1));
        assert(here.last() == chars@[i - 1]);
        assert(leaf(here, dots) == leaf(chars@.take(i - 1), dots).push(chars@[i - 1]));
        assert(leaf(here.drop_last(), dots).push(here.last()) + chars@.skip(i as int) =~= leaf(
            here.drop_last(),
            dots,
        ) + chars@.skip(i - 1));
        i -= 1;
    }
    let ghost here = chars@.take(i as int);
    assert(i > 0 ==> here.last() == chars@[i - 1]);
    assert(leaf(here, dots) =~= Seq::empty());
    let part = slice_subrange(chars.as_slice(), i, chars.len());
    assert(part@ =~= chars@.skip(i as int));
    string_of(part)
}

/// A folder somebody wants by name.
#[derive(Debug, Clone, PartialEq, Eq)]
pub struct NamedFolder {
    pub path: String,
    pub name: String,
}

/// Reads what somebody typed as a folder. White space around it says nothing,
/// and nothing but that is no name.
pub fn named_folder(typed: &str) -> (r: Result<NamedFolder, StoreError>)
    ensures
        match r {
            Ok(f) => {
                &&& trim(typed@).len() > 0
                &&& f.path@ == trim(typed@)
                &&& f.name@ == leaf(trim(typed@), false)
            },
            Err(e) => trim(typed@).len() == 0 && is_rejected(e, "a folder needs a name"@),
        },
{
    let chars = chars_of(typed);
    let path = trimmed(&chars);
    if path.len() == 0 {
        return Err(refused("a folder needs a name"));
    }
    let path = string_of(path);
    let name = leaf_name(&path, false);
    Ok(NamedFolder { path, name })
}

// ---------------------------------------------------------------------
// Renaming
// ---------------------------------------------------------------------
/// Whether a path lies under another.
pub open spec fn is_below(path: Seq<char>, parent: Seq<char>) -> bool {
    &&& path.len() > parent.len()
    &&& path.take(parent.len() as int) == parent
    &&& is_divider(path[parent.len() as int])
}

/// A path once a folder was renamed, where that changes it.
pub open spec fn repointed(path: Seq<char>, old_path: Seq<char>, new_path: Seq<char>) -> Option<
    Seq<char>,
> {
    if path == old_path {
        Some(new_path)
    } else if is_below(path, old_path) {
        Some(new_path + path.skip(old_path.len() as int))
    } else {
        None
    }
}

/// Follows a folder to its new name. A folder that merely begins with the old
/// one is another folder.
pub fn repointed_path(path: &str, old_path: &str, new_path: &str) -> (r: Option<String>)
    ensures
        match r {
            Some(moved) => repointed(path@, old_path@, new_path@) == Some(moved@),
            None => repointed(path@, old_path@, new_path@) is None,
        },
{
    let chars = chars_of(path);
    let old_chars = chars_of(old_path);
    if same_chars(&chars, &old_chars) {
        return Some(string_of(&chars_of(new_path)));
    }
    let n = old_chars.len();
    if chars.len() <= n {
        return None;
    }
    let front = slice_subrange(chars.as_slice(), 0, n);
    assert(front@ =~= path@.take(n as int));
    if same_chars(front, &old_chars) && (chars[n] == '/' || chars[n] == '.') {
        let rest = slice_subrange(chars.as_slice(), n, chars.len());
        assert(rest@ =~= path@.skip(n as int));
        let mut out = chars_of(new_path);
        append_chars(&mut out, rest);
        return Some(string_of(&out));
    }
    None
}

/// What a waiting change remembers, once a folder was renamed.
pub open spec fn repointed_prior(prior: Prior, old_path: Seq<char>, new_path: Seq<char>) -> Prior {
    Prior {
        source_path: match prior.source_path {
            Some(path) => match repointed(path, old_path, new_path) {
                Some(moved) => Some(moved),
                None => Some(path),
            },
            None => None,
        },
        ..prior
    }
}

pub open spec fn is_repointed(prior: Prior, old_path: Seq<char>, new_path: Seq<char>) -> bool {
    prior.source_path matches Some(path) && repointed(path, old_path, new_path) is Some
}

/// Points what a waiting change remembers at a folder's new name. One that
/// went on naming the old folder could never be delivered. Returns whether
/// anything had to be pointed anew.
pub fn repoint(prior: &mut Vec<PriorState>, old_path: &str, new_path: &str) -> (touched: bool)
    ensures
        final(prior)@.len() == old(prior)@.len(),
        forall|i: int|
            0 <= i < final(prior)@.len() ==> (#[trigger] final(prior)@[i])@ == repointed_prior(
                old(prior)@[i]@,
                old_path@,
                new_path@,
            ),
        touched == exists|i: int|
            0 <= i < old(prior)@.len() && is_repointed(
                (#[trigger] old(prior)@[i])@,
                old_path@,
                new_path@,
            ),
{
    let mut touched = false;
    let ghost before = prior@;
    let mut i: usize = 0;
    while i < prior.len()
        invariant
            i <= prior@.len(),
            prior@.len() == before.len(),
            forall|j: int|
                0 <= j < i ==> (#[trigger] prior@[j])@ == repointed_prior(
                    before[j]@,
                    old_path@,
                    new_path@,
                ),
            forall|j: int| i <= j < before.len() ==> #[trigger] prior@[j] == before[j],
            touched == exists|j: int|
                0 <= j < i && is_repointed((#[trigger] before[j])@, old_path@, new_path@),
        decreases before.len() - i,
    {
        let moved = match &prior[i].source_path {
            Some(path) => repointed_path(path, old_path, new_path),
            None => None,
        };
        assert(prior@[i as int] == before[i as int]);
        match moved {
            Some(path) => {
                prior[i].source_path = Some(path);
                assert(is_repointed(before[i as int]@, old_path@, new_path@));
                touched = true;
            },
            None => {},
        }
        assert(prior@[i as int]@ =~= repointed_prior(before[i as int]@, old_path@, new_path@));
        i += 1;
    }
    touched
}

/// Renaming a folder and naming it back leaves everything that was in it where
/// it was.
pub proof fn a_rename_can_be_taken_back(
    path: Seq<char>,
    old_path: Seq<char>,
    new_path: Seq<char>,
)
    requires
        repointed(path, old_path, new_path) is Some,
    ensures
        repointed(repointed(path, old_path, new_path)->0, new_path, old_path) == Some(path),
{
    let moved = repointed(path, old_path, new_path)->0;
    if path != old_path {
        let rest = path.skip(old_path.len() as int);
        assert(moved.take(new_path.len() as int) =~= new_path);
        assert(moved[new_path.len() as int] == rest[0]);
        assert(rest[0] == path[old_path.len() as int]);
        assert(moved.skip(new_path.len() as int) =~= rest);
        assert(old_path + rest =~= path) by {
            assert(path.take(old_path.len() as int) =~= old_path);
        }
        assert(moved != new_path) by {
            assert(moved.len() > new_path.len());
        }
    }
}

/// A folder that only looks like the renamed one is left alone.
pub proof fn a_rename_stays_in_its_folder(
    path: Seq<char>,
    old_path: Seq<char>,
    new_path: Seq<char>,
)
    requires
        path != old_path,
        !is_below(path, old_path),
    ensures
        repointed(path, old_path, new_path) is None,
{
}

/// A folder's row, as far as its name goes.
#[derive(Debug, Clone, PartialEq, Eq)]
pub struct FolderPath {
    pub id: i64,
    pub path: String,
}

#[verifier::ext_equal]
pub struct PathOf {
    pub id: i64,
    pub path: Seq<char>,
}

impl View for FolderPath {
    type V = PathOf;

    open spec fn view(&self) -> PathOf {
        PathOf { id: self.id, path: self.path@ }
    }
}

pub open spec fn paths(all: Seq<FolderPath>) -> Seq<PathOf> {
    all.map_values(|f: FolderPath| f@)
}

/// Whether a folder lies under another, as the database compares names: the
/// case of a letter of ASCII says nothing.
pub open spec fn is_filed_below(path: Seq<char>, parent: Seq<char>) -> bool {
    &&& path.len() > parent.len()
    &&& ascii_lowercase(path.take(parent.len() as int)) == ascii_lowercase(parent)
    &&& is_divider(path[parent.len() as int])
}

fn filed_below(path: &str, parent: &str) -> (r: bool)
    ensures
        r == is_filed_below(path@, parent@),
{
    let chars = chars_of(path);
    let parent_chars = chars_of(parent);
    let n = parent_chars.len();
    if chars.len() <= n {
        return false;
    }
    let front = slice_subrange(chars.as_slice(), 0, n);
    assert(front@ =~= path@.take(n as int));
    same_chars(&ascii_lowered(front), &ascii_lowered(&parent_chars)) && (chars[n] == '/'
        || chars[n] == '.')
}

/// The rows a rename changes, with their new paths: the folder itself and
/// everything under it. The server renames a subtree in one go.
pub open spec fn renamed(
    all: Seq<PathOf>,
    id: i64,
    old_path: Seq<char>,
    new_path: Seq<char>,
) -> Seq<PathOf>
    decreases all.len(),
{
    if all.len() == 0 {
        Seq::empty()
    } else {
        let so_far = renamed(all.drop_last(), id, old_path, new_path);
        let row = all.last();
        if row.id == id {
            so_far.push(PathOf { id, path: new_path })
        } else if is_filed_below(row.path, old_path) {
            so_far.push(
                PathOf { id: row.id, path: new_path + row.path.skip(old_path.len() as int) },
            )
        } else {
            so_far
        }
    }
}

/// Works out what a rename does to an account's folders.
pub fn renamed_folders(all: &Vec<FolderPath>, id: i64, old_path: &str, new_path: &str) -> (out: Vec<
    FolderPath,
>)
    ensures
        paths(out@) == renamed(paths(all@), id, old_path@, new_path@),
{
    let n = chars_of(old_path).len();
    let mut out: Vec<FolderPath> = Vec::new();
    let ghost rows = paths(all@);
    let mut i: usize = 0;
    assert(paths(out@) =~= renamed(rows.take(0), id, old_path@, new_path@));
    while i < all.len()
        invariant
            i <= all@.len(),
            n == old_path@.len(),
            rows == paths(all@),
            paths(out@) == renamed(rows.take(i as int), id, old_path@, new_path@),
        decreases all@.len() - i,
    {
        let ghost before = out@;
        assert(rows.take(i + 1).drop_last() =~= rows.take(i as int));
        assert(rows.take(i + 1).last() == all@[i as int]@);
        if all[i].id == id {
            out.push(FolderPath { id, path: string_of(&chars_of(new_path)) });
            assert(paths(out@) =~= paths(before).push(PathOf { id, path: new_path@ }));
        } else if filed_below(&all[i].path, old_path) {
            let chars = chars_of(&all[i].path);
            let rest = slice_subrange(chars.as_slice(), n, chars.len());
            assert(rest@ =~= all@[i as int].path@.skip(n as int));
            let mut path = chars_of(new_path);
            append_chars(&mut path, rest);
            let row = FolderPath { id: all[i].id, path: string_of(&path) };
            out.push(row);
            assert(paths(out@) =~= paths(before).push(row@));
        }
        i += 1;
    }
    assert(rows.take(i as int) =~= rows);
    out
}

/// A folder and everything filed under it.
pub open spec fn in_subtree(all: Seq<PathOf>, id: i64, path: Seq<char>) -> Seq<PathOf>
    decreases all.len(),
{
    if all.len() == 0 {
        Seq::empty()
    } else {
        let so_far = in_subtree(all.drop_last(), id, path);
        let row = all.last();
        if row.id == id || is_filed_below(row.path, path) {
            so_far.push(row)
        } else {
            so_far
        }
    }
}

/// The folders that "all the mail in here" means: not the one folder but all
/// that is filed under it.
pub fn subtree(all: &Vec<FolderPath>, id: i64, path: &str) -> (out: Vec<FolderPath>)
    ensures
        paths(out@) == in_subtree(paths(all@), id, path@),
{
    let mut out: Vec<FolderPath> = Vec::new();
    let ghost rows = paths(all@);
    let mut i: usize = 0;
    assert(paths(out@) =~= in_subtree(rows.take(0), id, path@));
    while i < all.len()
        invariant
            i <= all@.len(),
            rows == paths(all@),
            paths(out@) == in_subtree(rows.take(i as int), id, path@),
        decreases all@.len() - i,
    {
        let ghost before = out@;
        assert(rows.take(i + 1).drop_last() =~= rows.take(i as int));
        assert(rows.take(i + 1).last() == all@[i as int]@);
        if all[i].id == id || filed_below(&all[i].path, path) {
            let row = FolderPath { id: all[i].id, path: string_of(&chars_of(&all[i].path)) };
            out.push(row);
            assert(paths(out@) =~= paths(before).push(row@));
        }
        i += 1;
    }
    assert(rows.take(i as int) =~= rows);
    out
}

// ---------------------------------------------------------------------
// A survey
// ---------------------------------------------------------------------
/// A folder's row.
#[derive(Debug, Clone, PartialEq, Eq)]
pub struct FolderRow {
    pub id: i64,
    pub path: String,
    /// Empty for a folder somebody made.
    pub role: String,
    /// In this store and nowhere else.
    pub local: bool,
}

/// Whether a folder could be taken for a role: nothing has said what it is
/// for, and it is called by the role's own name.
pub open spec fn may_be_adopted(row: FolderRow, name: Seq<char>) -> bool {
    row.role@.len() == 0 && ascii_lowercase(row.path@) == ascii_lowercase(name)
}

pub open spec fn has_role(all: Seq<FolderRow>, role: Seq<char>) -> bool {
    exists|i: int| 0 <= i < all.len() && (#[trigger] all[i]).role@ == role
}

pub open spec fn adoptable(all: Seq<FolderRow>, name: Seq<char>) -> Seq<i64>
    decreases all.len(),
{
    if all.len() == 0 {
        Seq::empty()
    } else if may_be_adopted(all.last(), name) {
        adoptable(all.drop_last(), name).push(all.last().id)
    } else {
        adoptable(all.drop_last(), name)
    }
}

/// The folders that are given a role because nothing wears it and they are
/// called by its name. A server may simply never mark its archive, and the
/// plain `Archive` there is the archive by every convention; making up another
/// one would put mail where no server will list it.
pub fn adopted(all: &Vec<FolderRow>, role: &str, name: &str) -> (ids: Vec<i64>)
    ensures
        ids@ == if has_role(all@, role@) {
            Seq::<i64>::empty()
        } else {
            adoptable(all@, name@)
        },
{
    let low = ascii_lowered(&chars_of(name));
    let mut ids: Vec<i64> = Vec::new();
    let mut i: usize = 0;
    assert(all@.take(0) =~= Seq::<FolderRow>::empty());
    while i < all.len()
        invariant
            i <= all@.len(),
            low@ == ascii_lowercase(name@),
            ids@ == adoptable(all@.take(i as int), name@),
            forall|j: int| 0 <= j < i ==> (#[trigger] all@[j]).role@ != role@,
        decreases all@.len() - i,
    {
        assert(all@.take(i + 1).drop_last() =~= all@.take(i as int));
        assert(all@.take(i + 1).last() == all@[i as int]);
        if same(&all[i].role, role) {
            return Vec::new();
        }
        let path = chars_of(&all[i].path);
        if chars_of(&all[i].role).len() == 0 && same_chars(&ascii_lowered(&path), &low) {
            ids.push(all[i].id);
        }
        i += 1;
    }
    assert(all@.take(i as int) =~= all@);
    ids
}

/// The role a folder has after a survey. The server may set one; it does not
/// get to unset one.
pub fn role_after(held: &str, said: Option<&str>) -> (role: String)
    ensures
        role@ == match said {
            Some(r) => r@,
            None => held@,
        },
{
    match said {
        Some(r) => string_of(&chars_of(r)),
        None => string_of(&chars_of(held)),
    }
}

pub open spec fn is_listed(path: Seq<char>, known: Seq<String>) -> bool {
    exists|i: int| 0 <= i < known.len() && (#[trigger] known[i])@ == path
}

/// Whether a survey shows that a folder is gone. A local folder is in no
/// survey by definition, and one that wears a role can be here before the
/// server has been told: pruning either would take its mail along.
pub open spec fn is_stale(row: FolderRow, known: Seq<String>) -> bool {
    !is_listed(row.path@, known) && !row.local && row.role@.len() == 0
}

pub open spec fn stale(all: Seq<FolderRow>, known: Seq<String>) -> Seq<i64>
    decreases all.len(),
{
    if all.len() == 0 {
        Seq::empty()
    } else if is_stale(all.last(), known) {
        stale(all.drop_last(), known).push(all.last().id)
    } else {
        stale(all.drop_last(), known)
    }
}

fn listed(path: &str, known: &Vec<String>) -> (r: bool)
    ensures
        r == is_listed(path@, known@),
{
    let mut i: usize = 0;
    while i < known.len()
        invariant
            i <= known@.len(),
            forall|j: int| 0 <= j < i ==> (#[trigger] known@[j])@ != path@,
        decreases known@.len() - i,
    {
        if same(&known[i], path) {
            return true;
        }
        i += 1;
    }
    false
}

/// The folders a survey shows to be gone.
pub fn stale_folders(all: &Vec<FolderRow>, known: &Vec<String>) -> (ids: Vec<i64>)
    ensures
        ids@ == stale(all@, known@),
{
    let mut ids: Vec<i64> = Vec::new();
    let mut i: usize = 0;
    assert(all@.take(0) =~= Seq::<FolderRow>::empty());
    while i < all.len()
        invariant
            i <= all@.len(),
            ids@ == stale(all@.take(i as int), known@),
        decreases all@.len() - i,
    {
        assert(all@.take(i + 1).drop_last() =~= all@.take(i as int));
        assert(all@.take(i + 1).last() == all@[i as int]);
        let row = &all[i];
        if !row.local && chars_of(&row.role).len() == 0 && !listed(&row.path, known) {
            ids.push(row.id);
        }
        i += 1;
    }
    assert(all@.take(i as int) =~= all@);
    ids
}

/// A survey prunes nothing that it lists, nothing that is only here, and
/// nothing that the program itself files mail into.
pub proof fn a_survey_prunes_only_strangers(all: Seq<FolderRow>, known: Seq<String>, id: i64)
    requires
        stale(all, known).contains(id),
    ensures
        exists|i: int| 0 <= i < all.len() && (#[trigger] all[i]).id == id && is_stale(all[i], known),
    decreases all.len(),
{
    if all.len() > 0 {
        let front = all.drop_last();
        if stale(front, known).contains(id) {
            a_survey_prunes_only_strangers(front, known, id);
            let i = choose|i: int|
                0 <= i < front.len() && (#[trigger] front[i]).id == id && is_stale(front[i], known);
            assert(all[i].id == id && is_stale(all[i], known));
        } else {
            assert(is_stale(all.last(), known));
            let ids = stale(all, known);
            let at = choose|k: int| 0 <= k < ids.len() && ids[k] == id;
            if at < ids.len() - 1 {
                assert(stale(front, known)[at] == id);
            }
            assert(all[all.len() - 1].id == id);
        }
    }
}

// ---------------------------------------------------------------------
// A folder the server numbered anew
// ---------------------------------------------------------------------
/// What mending a renumbered folder found.
#[derive(Debug, Clone, PartialEq, Eq)]
pub struct RemapOutcome {
    /// Listed messages whose new number was learned from the Message-ID.
    pub rematched: usize,
    /// Placements dropped because a complete listing proved the folder no
    /// longer holds them. Message rows and blobs are untouched.
    pub dropped: usize,
    /// Numbers on the server that match nothing here: download these in full.
    pub to_fetch: Vec<u32>,
}

/// A message on the server, as a listing gives it.
#[derive(Debug, Clone, PartialEq, Eq)]
pub struct Listed {
    pub uid: u32,
    pub message_id: Option<String>,
}

/// A message placed in the folder, and the key it is kept under.
#[derive(Debug, Clone, PartialEq, Eq)]
pub struct Placed {
    pub message_id: i64,
    pub key: Option<String>,
}

/// What mending comes to.
#[derive(Debug, Clone, PartialEq, Eq)]
pub struct Remap {
    /// The number of each placement now, where one was found.
    pub uids: Vec<Option<u32>>,
    pub outcome: RemapOutcome,
}

pub open spec fn same_key(listed: Listed, placed: Placed) -> bool {
    match (listed.message_id, placed.key) {
        (Some(a), Some(b)) => a@ == b@,
        _ => false,
    }
}

/// The number a placement learns: that of the last message listed under its
/// key. None where nothing is, and the old number never survives.
pub open spec fn uid_learned(placed: Placed, server: Seq<Listed>) -> Option<u32>
    decreases server.len(),
{
    if server.len() == 0 {
        None
    } else if same_key(server.last(), placed) {
        Some(server.last().uid)
    } else {
        uid_learned(placed, server.drop_last())
    }
}

pub open spec fn is_placed(listed: Listed, here: Seq<Placed>) -> bool {
    exists|i: int| 0 <= i < here.len() && same_key(listed, #[trigger] here[i])
}

/// The numbers that match nothing here. A message listed without a Message-ID
/// is among them: it cannot be told from one that is held.
pub open spec fn unmatched(server: Seq<Listed>, here: Seq<Placed>) -> Seq<u32>
    decreases server.len(),
{
    if server.len() == 0 {
        Seq::empty()
    } else if is_placed(server.last(), here) {
        unmatched(server.drop_last(), here)
    } else {
        unmatched(server.drop_last(), here).push(server.last().uid)
    }
}

/// How many placements a listing left without a number.
pub open spec fn lost(here: Seq<Placed>, server: Seq<Listed>) -> nat
    decreases here.len(),
{
    if here.len() == 0 {
        0
    } else {
        lost(here.drop_last(), server) + if uid_learned(here.last(), server) is None {
            1nat
        } else {
            0nat
        }
    }
}

fn keys_agree(listed: &Listed, placed: &Placed) -> (r: bool)
    ensures
        r == same_key(*listed, *placed),
{
    match (&listed.message_id, &placed.key) {
        (Some(a), Some(b)) => same(a, b),
        _ => false,
    }
}

fn learn(placed: &Placed, server: &Vec<Listed>) -> (r: Option<u32>)
    ensures
        r == uid_learned(*placed, server@),
{
    let mut i: usize = server.len();
    assert(server@.take(i as int) =~= server@);
    while i > 0
        invariant
            i <= server@.len(),
            uid_learned(*placed, server@) == uid_learned(*placed, server@.take(i as int)),
        decreases i,
    {
        let ghost here = server@.take(i as int);
        assert(here.last() == server@[i - 1]);
        assert(here.drop_last() =~= server@.take(i - 1));
        if keys_agree(&server[i - 1], placed) {
            return Some(server[i - 1].uid);
        }
        i -= 1;
    }
    assert(server@.take(0) =~= Seq::<Listed>::empty());
    None
}

fn placed_here(listed: &Listed, here: &Vec<Placed>) -> (r: bool)
    ensures
        r == is_placed(*listed, here@),
{
    let mut i: usize = 0;
    while i < here.len()
        invariant
            i <= here@.len(),
            forall|j: int| 0 <= j < i ==> !same_key(*listed, #[trigger] here@[j]),
        decreases here@.len() - i,
    {
        if keys_agree(listed, &here[i]) {
            return true;
        }
        i += 1;
    }
    false
}

/// Mends a folder after the server numbered it anew. The folder is still the
/// folder and the mail is still the mail; what died is the numbering. What the
/// listing does not name is let go of only where the listing was `complete`:
/// one that stopped short proves nothing about what is older.
pub fn remap(here: &Vec<Placed>, server: &Vec<Listed>, complete: bool) -> (r: Remap)
    ensures
        r.uids@.len() == here@.len(),
        forall|i: int|
            0 <= i < here@.len() ==> #[trigger] r.uids@[i] == uid_learned(here@[i], server@),
        r.outcome.to_fetch@ == unmatched(server@, here@),
        r.outcome.rematched + r.outcome.to_fetch@.len() == server@.len(),
        r.outcome.dropped == if complete {
            lost(here@, server@)
        } else {
            0
        },
{
    let mut uids: Vec<Option<u32>> = Vec::new();
    let mut without: usize = 0;
    let mut i: usize = 0;
    assert(here@.take(0) =~= Seq::<Placed>::empty());
    while i < here.len()
        invariant
            i <= here@.len(),
            uids@.len() == i,
            forall|j: int| 0 <= j < i ==> #[trigger] uids@[j] == uid_learned(here@[j], server@),
            without == lost(here@.take(i as int), server@),
            without <= i,
        decreases here@.len() - i,
    {
        assert(here@.take(i + 1).drop_last() =~= here@.take(i as int));
        assert(here@.take(i + 1).last() == here@[i as int]);
        let uid = learn(&here[i], server);
        if uid.is_none() {
            without += 1;
        }
        uids.push(uid);
        i += 1;
    }
    assert(here@.take(i as int) =~= here@);
    let mut to_fetch: Vec<u32> = Vec::new();
    let mut rematched: usize = 0;
    let mut k: usize = 0;
    assert(server@.take(0) =~= Seq::<Listed>::empty());
    while k < server.len()
        invariant
            k <= server@.len(),
            to_fetch@ == unmatched(server@.take(k as int), here@),
            rematched + to_fetch@.len() == k,
        decreases server@.len() - k,
    {
        assert(server@.take(k + 1).drop_last() =~= server@.take(k as int));
        assert(server@.take(k + 1).last() == server@[k as int]);
        if placed_here(&server[k], here) {
            rematched += 1;
        } else {
            to_fetch.push(server[k].uid);
        }
        k += 1;
    }
    assert(server@.take(k as int) =~= server@);
    let dropped = if complete {
        without
    } else {
        0
    };
    Remap { uids, outcome: RemapOutcome { rematched, dropped, to_fetch } }
}

/// A number learned in mending is one that the server gave for that very
/// message: nothing queued is ever sent to whatever took its old number.
pub proof fn a_number_learned_is_the_servers(placed: Placed, server: Seq<Listed>)
    ensures
        match uid_learned(placed, server) {
            Some(uid) => exists|i: int|
                0 <= i < server.len() && same_key(#[trigger] server[i], placed) && server[i].uid
                    == uid,
            None => forall|i: int| 0 <= i < server.len() ==> !same_key(#[trigger] server[i], placed),
        },
    decreases server.len(),
{
    if server.len() > 0 {
        let front = server.drop_last();
        if same_key(server.last(), placed) {
            assert(server[server.len() - 1] == server.last());
        } else {
            a_number_learned_is_the_servers(placed, front);
            match uid_learned(placed, front) {
                Some(uid) => {
                    let i = choose|i: int|
                        0 <= i < front.len() && same_key(#[trigger] front[i], placed)
                            && front[i].uid == uid;
                    assert(server[i] == front[i]);
                },
                None => {
                    assert forall|i: int| 0 <= i < server.len() implies !same_key(
                        #[trigger] server[i],
                        placed,
                    ) by {
                        if i < front.len() {
                            assert(front[i] == server[i]);
                        }
                    }
                },
            }
        }
    }
}

// ---------------------------------------------------------------------
// What the server no longer holds
// ---------------------------------------------------------------------
/// The stored numbers that the server no longer answers for.
pub open spec fn gone(stored: Seq<i64>, present: Set<u32>) -> Seq<i64>
    decreases stored.len(),
{
    if stored.len() == 0 {
        Seq::empty()
    } else if present.contains(stored.last() as u32) {
        gone(stored.drop_last(), present)
    } else {
        gone(stored.drop_last(), present).push(stored.last())
    }
}

/// Works out which placements to drop. Those without a number are not asked
/// about: that the server does not name them is what is known of them.
pub fn absent(stored: &Vec<i64>, present: &HashSet<u32>) -> (out: Vec<i64>)
    ensures
        out@ == gone(stored@, present@),
{
    let mut out: Vec<i64> = Vec::new();
    let mut i: usize = 0;
    assert(stored@.take(0) =~= Seq::<i64>::empty());
    while i < stored.len()
        invariant
            i <= stored@.len(),
            out@ == gone(stored@.take(i as int), present@),
        decreases stored@.len() - i,
    {
        assert(stored@.take(i + 1).drop_last() =~= stored@.take(i as int));
        assert(stored@.take(i + 1).last() == stored@[i as int]);
        let uid: u32 = #[verifier::truncate]
        (stored[i] as u32);
        if !present.contains(&uid) {
            out.push(stored[i]);
        }
        i += 1;
    }
    assert(stored@.take(i as int) =~= stored@);
    out
}

/// Whether something has been in the bin for as long as it is kept. What has
/// no clock yet never has: better a bin that empties late than one that
/// empties what it was not watching.
pub fn has_expired(since_ms: Option<i64>, older_than_days: i64, now_ms: i64) -> (r: bool)
    ensures
        r == match since_ms {
            Some(t) => t <= cutoff(now_ms as int, older_than_days as int),
            None => false,
        },
{
    match since_ms {
        Some(t) => t <= purge_cutoff(now_ms, older_than_days),
        None => false,
    }
}

// ---------------------------------------------------------------------
// Laws
// ---------------------------------------------------------------------
/// A folder's own name is what stands behind the last divider of its path. A
/// dot divides only where the server says so.
pub proof fn a_name_stands_behind_the_last_divider(front: Seq<char>, name: Seq<char>, dots: bool)
    requires
        forall|i: int|
            0 <= i < name.len() ==> #[trigger] name[i] != '/' && (dots ==> name[i] != '.'),
    ensures
        leaf(name, dots) == name,
        leaf(front + seq!['/'] + name, dots) == name,
        dots ==> leaf(front + seq!['.'] + name, dots) == name,
        !dots ==> leaf(seq!['.'] + name, dots) == seq!['.'] + name,
    decreases name.len(),
{
    let slashed = front + seq!['/'] + name;
    let dotted = front + seq!['.'] + name;
    let bare = seq!['.'] + name;
    if name.len() == 0 {
        assert(leaf(name, dots) =~= name);
        assert(slashed.last() == '/');
        assert(dotted.last() == '.');
        assert(bare.drop_last() =~= Seq::<char>::empty());
        assert(leaf(bare.drop_last(), dots) =~= Seq::<char>::empty());
        assert(!dots ==> leaf(bare, dots) =~= bare);
    } else {
        let less = name.drop_last();
        assert forall|i: int| 0 <= i < less.len() implies #[trigger] less[i] != '/' && (dots
            ==> less[i] != '.') by {
            assert(less[i] == name[i]);
        }
        assert(name[name.len() - 1] == name.last());
        a_name_stands_behind_the_last_divider(front, less, dots);
        assert(slashed.drop_last() =~= front + seq!['/'] + less);
        assert(dotted.drop_last() =~= front + seq!['.'] + less);
        assert(bare.drop_last() =~= seq!['.'] + less);
        assert(less.push(name.last()) =~= name);
        assert((seq!['.'] + less).push(name.last()) =~= bare);
    }
}

/// What lies below a folder goes with it, and what only begins with the same
/// letters does not.
pub proof fn what_lies_below_goes_along(
    old_path: Seq<char>,
    new_path: Seq<char>,
    divider: char,
    rest: Seq<char>,
)
    ensures
        repointed(old_path, old_path, new_path) == Some(new_path),
        divider == '/' || divider == '.' ==> repointed(
            old_path + seq![divider] + rest,
            old_path,
            new_path,
        ) == Some(new_path + seq![divider] + rest),
        divider != '/' && divider != '.' ==> repointed(
            old_path + seq![divider] + rest,
            old_path,
            new_path,
        ) is None,
{
    let path = old_path + seq![divider] + rest;
    let n = old_path.len() as int;
    assert(path.take(n) =~= old_path);
    assert(path[n] == divider);
    assert(path.skip(n) =~= seq![divider] + rest);
    assert(new_path + path.skip(n) =~= new_path + seq![divider] + rest);
    assert(path.len() != old_path.len());
}

/// What lies below a folder is told by the path, whatever the case of its
/// letters, up to a divider.
pub proof fn below_is_behind_a_divider(parent: Seq<char>, divider: char, rest: Seq<char>)
    ensures
        is_filed_below(parent + seq![divider] + rest, parent) == (divider == '/' || divider == '.'),
        is_filed_below(ascii_lowercase(parent) + seq![divider] + rest, parent) == (divider == '/'
            || divider == '.'),
        !is_filed_below(parent, parent),
{
    let path = parent + seq![divider] + rest;
    let n = parent.len() as int;
    assert(path.take(n) =~= parent);
    assert(path[n] == divider);
    let low = ascii_lowercase(parent) + seq![divider] + rest;
    assert(low.take(n) =~= ascii_lowercase(parent));
    assert(low[n] == divider);
    assert(ascii_lowercase(ascii_lowercase(parent)) =~= ascii_lowercase(parent));
}

/// A rename changes each row by itself: the folder gets the new path, what
/// lies below it gets the new path in place of the old, and the rest is left.
pub proof fn a_rename_changes_each_row_by_itself(
    a: Seq<PathOf>,
    b: Seq<PathOf>,
    one: PathOf,
    id: i64,
    old_path: Seq<char>,
    new_path: Seq<char>,
)
    ensures
        renamed(a + b, id, old_path, new_path) == renamed(a, id, old_path, new_path) + renamed(
            b,
            id,
            old_path,
            new_path,
        ),
        one.id == id ==> renamed(seq![one], id, old_path, new_path) == seq![
            PathOf { id, path: new_path },
        ],
        one.id != id && is_filed_below(one.path, old_path) ==> renamed(
            seq![one],
            id,
            old_path,
            new_path,
        ) == seq![PathOf { id: one.id, path: new_path + one.path.skip(old_path.len() as int) }],
        one.id != id && !is_filed_below(one.path, old_path) ==> renamed(
            seq![one],
            id,
            old_path,
            new_path,
        ).len() == 0,
    decreases b.len(),
{
    let list = seq![one];
    let none = Seq::<PathOf>::empty();
    assert(list.last() == one);
    assert(list.drop_last() =~= none);
    assert(renamed(list.drop_last(), id, old_path, new_path) =~= none);
    let there = PathOf { id, path: new_path };
    let below = PathOf { id: one.id, path: new_path + one.path.skip(old_path.len() as int) };
    assert(none.push(there) =~= seq![there]);
    assert(none.push(below) =~= seq![below]);
    if b.len() == 0 {
        assert(a + b =~= a);
        assert(renamed(a, id, old_path, new_path) + renamed(b, id, old_path, new_path) =~= renamed(
            a,
            id,
            old_path,
            new_path,
        ));
    } else {
        assert((a + b).drop_last() =~= a + b.drop_last());
        a_rename_changes_each_row_by_itself(a, b.drop_last(), one, id, old_path, new_path);
        assert(renamed(a + b, id, old_path, new_path) =~= renamed(a, id, old_path, new_path)
            + renamed(b, id, old_path, new_path));
    }
}

/// A folder and what lies below it go together, and nothing else does.
pub proof fn a_subtree_is_a_folder_and_what_is_below(
    a: Seq<PathOf>,
    b: Seq<PathOf>,
    one: PathOf,
    id: i64,
    path: Seq<char>,
)
    ensures
        in_subtree(a + b, id, path) == in_subtree(a, id, path) + in_subtree(b, id, path),
        one.id == id || is_filed_below(one.path, path) ==> in_subtree(seq![one], id, path)
            == seq![one],
        one.id != id && !is_filed_below(one.path, path) ==> in_subtree(seq![one], id, path).len()
            == 0,
    decreases b.len(),
{
    let list = seq![one];
    let none = Seq::<PathOf>::empty();
    assert(list.last() == one);
    assert(list.drop_last() =~= none);
    assert(in_subtree(list.drop_last(), id, path) =~= none);
    assert(none.push(one) =~= seq![one]);
    if b.len() == 0 {
        assert(a + b =~= a);
        assert(in_subtree(a, id, path) + in_subtree(b, id, path) =~= in_subtree(a, id, path));
    } else {
        assert((a + b).drop_last() =~= a + b.drop_last());
        a_subtree_is_a_folder_and_what_is_below(a, b.drop_last(), one, id, path);
        assert(in_subtree(a + b, id, path) =~= in_subtree(a, id, path) + in_subtree(b, id, path));
    }
}

/// A folder that has a role keeps it; one without is taken up under a role by
/// its whole path, whatever the case of its letters.
pub proof fn only_a_folder_without_a_role_is_taken_up(
    a: Seq<FolderRow>,
    b: Seq<FolderRow>,
    one: FolderRow,
    name: Seq<char>,
)
    ensures
        adoptable(a + b, name) == adoptable(a, name) + adoptable(b, name),
        one.role@.len() > 0 ==> adoptable(seq![one], name).len() == 0,
        one.role@.len() == 0 && one.path@ == name ==> adoptable(seq![one], name) == seq![one.id],
        one.role@.len() == 0 && ascii_lowercase(one.path@) == ascii_lowercase(name) ==> adoptable(
            seq![one],
            name,
        ) == seq![one.id],
        ascii_lowercase(one.path@) != ascii_lowercase(name) ==> adoptable(seq![one], name).len()
            == 0,
    decreases b.len(),
{
    let list = seq![one];
    let none = Seq::<i64>::empty();
    assert(list.last() == one);
    assert(list.drop_last() =~= Seq::<FolderRow>::empty());
    assert(adoptable(list.drop_last(), name) =~= none);
    assert(none.push(one.id) =~= seq![one.id]);
    if b.len() == 0 {
        assert(a + b =~= a);
        assert(adoptable(a, name) + adoptable(b, name) =~= adoptable(a, name));
    } else {
        assert((a + b).drop_last() =~= a + b.drop_last());
        only_a_folder_without_a_role_is_taken_up(a, b.drop_last(), one, name);
        assert(adoptable(a + b, name) =~= adoptable(a, name) + adoptable(b, name));
    }
}

/// A folder goes where the server no longer lists it. What is kept here only,
/// what has a role and what is listed all stay.
pub proof fn only_what_the_server_dropped_goes(
    a: Seq<FolderRow>,
    b: Seq<FolderRow>,
    one: FolderRow,
    known: Seq<String>,
)
    ensures
        stale(a + b, known) == stale(a, known) + stale(b, known),
        one.local ==> stale(seq![one], known).len() == 0,
        one.role@.len() > 0 ==> stale(seq![one], known).len() == 0,
        (exists|i: int| 0 <= i < known.len() && (#[trigger] known[i])@ == one.path@) ==> stale(
            seq![one],
            known,
        ).len() == 0,
        (!one.local && one.role@.len() == 0 && forall|i: int|
            0 <= i < known.len() ==> (#[trigger] known[i])@ != one.path@) ==> stale(
            seq![one],
            known,
        ) == seq![one.id],
    decreases b.len(),
{
    let list = seq![one];
    let none = Seq::<i64>::empty();
    assert(list.last() == one);
    assert(list.drop_last() =~= Seq::<FolderRow>::empty());
    assert(stale(list.drop_last(), known) =~= none);
    assert(none.push(one.id) =~= seq![one.id]);
    if b.len() == 0 {
        assert(a + b =~= a);
        assert(stale(a, known) + stale(b, known) =~= stale(a, known));
    } else {
        assert((a + b).drop_last() =~= a + b.drop_last());
        only_what_the_server_dropped_goes(a, b.drop_last(), one, known);
        assert(stale(a + b, known) =~= stale(a, known) + stale(b, known));
    }
}

/// Of several messages listed under one key the last gives its number, and a
/// message without a Message-ID gives its number to nothing.
pub proof fn the_last_one_listed_gives_its_number(
    placed: Placed,
    before: Seq<Listed>,
    one: Listed,
)
    ensures
        (one.message_id matches Some(id) && placed.key matches Some(key) && id@ == key@)
            ==> uid_learned(placed, before.push(one)) == Some(one.uid),
        one.message_id is None ==> uid_learned(placed, before.push(one)) == uid_learned(
            placed,
            before,
        ),
        placed.key is None ==> uid_learned(placed, before.push(one)) == uid_learned(placed, before),
        (one.message_id matches Some(id) && placed.key matches Some(key) && id@ != key@)
            ==> uid_learned(placed, before.push(one)) == uid_learned(placed, before),
{
    assert(before.push(one).drop_last() =~= before);
}

/// What is fetched is what is listed and matches nothing here, in the order it
/// is listed, and each placement that no listing answers for counts once.
pub proof fn what_matches_nothing_is_fetched(
    before: Seq<Listed>,
    one: Listed,
    here: Seq<Placed>,
    placed: Placed,
    server: Seq<Listed>,
)
    ensures
        (exists|i: int| 0 <= i < here.len() && same_key(one, #[trigger] here[i])) ==> unmatched(
            before.push(one),
            here,
        ) == unmatched(before, here),
        (forall|i: int| 0 <= i < here.len() ==> !same_key(one, #[trigger] here[i])) ==> unmatched(
            before.push(one),
            here,
        ) == unmatched(before, here).push(one.uid),
        unmatched(Seq::empty(), here).len() == 0,
        lost(Seq::empty(), server) == 0,
        (forall|i: int| 0 <= i < server.len() ==> !same_key(#[trigger] server[i], placed)) ==> lost(
            here.push(placed),
            server,
        ) == lost(here, server) + 1,
        (exists|i: int| 0 <= i < server.len() && same_key(#[trigger] server[i], placed)) ==> lost(
            here.push(placed),
            server,
        ) == lost(here, server),
{
    assert(before.push(one).drop_last() =~= before);
    assert(here.push(placed).drop_last() =~= here);
    a_number_learned_is_the_servers(placed, server);
}

/// What is gone is what the server no longer answers for, in the order it is
/// held.
pub proof fn what_the_server_answers_for_stays(
    before: Seq<i64>,
    uid: u32,
    present: Set<u32>,
)
    ensures
        gone(Seq::empty(), present).len() == 0,
        present.contains(uid) ==> gone(before.push(uid as i64), present) == gone(before, present),
        !present.contains(uid) ==> gone(before.push(uid as i64), present) == gone(
            before,
            present,
        ).push(uid as i64),
{
    assert(before.push(uid as i64).drop_last() =~= before);
    assert(uid as i64 as u32 == uid);
}

/// Once a folder was renamed, a waiting change remembers everything as it did
/// but the name of that folder.
pub proof fn a_rename_changes_the_name_alone(
    prior: Prior,
    old_path: Seq<char>,
    new_path: Seq<char>,
)
    ensures
        ({
            let after = repointed_prior(prior, old_path, new_path);
            &&& after.message_id == prior.message_id
            &&& after.flags == prior.flags
            &&& after.folder_ids == prior.folder_ids
            &&& after.tag_ids == prior.tag_ids
            &&& after.snoozed_until == prior.snoozed_until
            &&& after.source_folder == prior.source_folder
            &&& after.source_uid == prior.source_uid
            &&& prior.source_path == Some(old_path) ==> after.source_path == Some(new_path)
                && is_repointed(prior, old_path, new_path)
            &&& prior.source_path is None ==> after.source_path is None && !is_repointed(
                prior,
                old_path,
                new_path,
            )
            &&& !is_repointed(prior, old_path, new_path) ==> after == prior
        }),
{
}

} // verus!
