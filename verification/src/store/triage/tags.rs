//! Tags: the labels somebody made, and the keywords they travel as.

use crate::keywords::{is_machines, is_system_keyword, keyword_of, tag_keyword};
use crate::store::error::{is_rejected, StoreError};
use crate::text::{
    ascii_lowercase, ascii_lowered, chars_of, put, same, same_chars, string_of, strings, trim,
    trimmed,
};
use vstd::prelude::*;

verus! {

/// A tag an account has.
#[derive(Debug, Clone, PartialEq, Eq)]
pub struct TagName {
    pub name: String,
    pub id: i64,
}

/// A tag a message wears, and whether it has ever been to the server.
#[derive(Debug, Clone, PartialEq, Eq)]
pub struct WornTag {
    pub name: String,
    pub id: i64,
    pub travelled: bool,
}

// ---------------------------------------------------------------------
// From the server
// ---------------------------------------------------------------------
/// What a keyword on a message means here.
#[derive(Debug, Clone, Copy, PartialEq, Eq, Structural)]
pub enum Meaning {
    /// The tag that travels as it.
    Tag(i64),
    /// A machine's, and no tag at all.
    Machine,
    /// One somebody made elsewhere, which becomes a tag of its own name.
    New,
}

/// The first tag that travels as a keyword, of those from the `i`th on.
pub open spec fn tag_for(tags: Seq<TagName>, keyword: Seq<char>, i: int) -> Option<i64>
    decreases tags.len() - i,
{
    if i < 0 || i >= tags.len() {
        None
    } else if keyword_of(tags[i].name@) == keyword {
        Some(tags[i].id)
    } else {
        tag_for(tags, keyword, i + 1)
    }
}

/// A tag comes home to the tag it left from: the way back goes by how each
/// tag's name is munged. A tag named with a dollar is found before the dollar
/// is taken for a machine's.
pub open spec fn meaning_of(tags: Seq<TagName>, keyword: Seq<char>) -> Meaning {
    match tag_for(tags, keyword, 0) {
        Some(id) => Meaning::Tag(id),
        None => if is_machines(keyword) {
            Meaning::Machine
        } else {
            Meaning::New
        },
    }
}

pub fn meaning(tags: &Vec<TagName>, keyword: &str) -> (m: Meaning)
    ensures
        m == meaning_of(tags@, keyword@),
{
    let mut i: usize = 0;
    while i < tags.len()
        invariant
            i <= tags@.len(),
            tag_for(tags@, keyword@, 0) == tag_for(tags@, keyword@, i as int),
        decreases tags@.len() - i,
    {
        if same(&tag_keyword(&tags[i].name), keyword) {
            return Meaning::Tag(tags[i].id);
        }
        i += 1;
    }
    if is_system_keyword(keyword) {
        Meaning::Machine
    } else {
        Meaning::New
    }
}

/// The tags put on a message and taken off it.
#[derive(Debug, Clone, PartialEq, Eq)]
pub struct TagChanges {
    pub put_on: Vec<i64>,
    pub taken_off: Vec<i64>,
}

pub open spec fn wears(current: Seq<WornTag>, id: i64) -> bool {
    exists|i: int| 0 <= i < current.len() && (#[trigger] current[i]).id == id
}

/// Whether a tag a message wears is to come off: it has been to the server,
/// and the message no longer carries its keyword. A tag that never travelled
/// is not the server's to remove.
pub open spec fn comes_off(tag: WornTag, want: Seq<i64>, keywords: Seq<Seq<char>>) -> bool {
    tag.travelled && !want.contains(tag.id) && !keywords.contains(keyword_of(tag.name@))
}

/// The wanted tags a message does not wear yet.
pub open spec fn missing(current: Seq<WornTag>, want: Seq<i64>) -> Seq<i64>
    decreases want.len(),
{
    if want.len() == 0 {
        Seq::empty()
    } else {
        let so_far = missing(current, want.drop_last());
        if wears(current, want.last()) {
            so_far
        } else {
            so_far.push(want.last())
        }
    }
}

/// The tags a message wears that come off.
pub open spec fn gone(
    current: Seq<WornTag>,
    want: Seq<i64>,
    keywords: Seq<Seq<char>>,
) -> Seq<i64>
    decreases current.len(),
{
    if current.len() == 0 {
        Seq::empty()
    } else {
        let so_far = gone(current.drop_last(), want, keywords);
        if comes_off(current.last(), want, keywords) {
            so_far.push(current.last().id)
        } else {
            so_far
        }
    }
}

fn is_worn(current: &Vec<WornTag>, id: i64) -> (r: bool)
    ensures
        r == wears(current@, id),
{
    let mut i: usize = 0;
    while i < current.len()
        invariant
            i <= current@.len(),
            forall|j: int| 0 <= j < i ==> (#[trigger] current@[j]).id != id,
        decreases current@.len() - i,
    {
        if current[i].id == id {
            return true;
        }
        i += 1;
    }
    false
}

fn has_id(ids: &Vec<i64>, id: i64) -> (r: bool)
    ensures
        r == ids@.contains(id),
{
    let mut i: usize = 0;
    while i < ids.len()
        invariant
            i <= ids@.len(),
            forall|j: int| 0 <= j < i ==> ids@[j] != id,
        decreases ids@.len() - i,
    {
        if ids[i] == id {
            return true;
        }
        i += 1;
    }
    false
}

fn has_keyword(keywords: &Vec<String>, keyword: &str) -> (r: bool)
    ensures
        r == strings(keywords@).contains(keyword@),
{
    let mut i: usize = 0;
    while i < keywords.len()
        invariant
            i <= keywords@.len(),
            forall|j: int| 0 <= j < i ==> #[trigger] strings(keywords@)[j] != keyword@,
        decreases keywords@.len() - i,
    {
        assert(strings(keywords@)[i as int] == keywords@[i as int]@);
        if same(&keywords[i], keyword) {
            return true;
        }
        i += 1;
    }
    assert(!strings(keywords@).contains(keyword@));
    false
}

/// What makes a message's tags agree with the keywords the server says it
/// carries. `want` are the tags those keywords mean, each once.
///
/// It reconciles rather than adds: a tag whose keyword is gone comes off,
/// which is what makes untagging in another client mean something here. But a
/// tag that has never been to the server keeps its own life.
pub fn tag_changes(current: &Vec<WornTag>, want: &Vec<i64>, keywords: &Vec<String>) -> (c:
    TagChanges)
    ensures
        c.put_on@ == missing(current@, want@),
        c.taken_off@ == gone(current@, want@, strings(keywords@)),
{
    let mut put_on: Vec<i64> = Vec::new();
    let mut i: usize = 0;
    assert(want@.take(0) =~= Seq::<i64>::empty());
    while i < want.len()
        invariant
            i <= want@.len(),
            put_on@ == missing(current@, want@.take(i as int)),
        decreases want@.len() - i,
    {
        assert(want@.take(i + 1).drop_last() =~= want@.take(i as int));
        if !is_worn(current, want[i]) {
            put_on.push(want[i]);
        }
        i += 1;
    }
    assert(want@.take(i as int) =~= want@);
    let mut taken_off: Vec<i64> = Vec::new();
    let mut k: usize = 0;
    assert(current@.take(0) =~= Seq::<WornTag>::empty());
    while k < current.len()
        invariant
            k <= current@.len(),
            taken_off@ == gone(current@.take(k as int), want@, strings(keywords@)),
        decreases current@.len() - k,
    {
        assert(current@.take(k + 1).drop_last() =~= current@.take(k as int));
        assert(current@.take(k + 1).last() == current@[k as int]);
        if current[k].travelled && !has_id(want, current[k].id) && !has_keyword(
            keywords,
            &tag_keyword(&current[k].name),
        ) {
            taken_off.push(current[k].id);
        }
        k += 1;
    }
    assert(current@.take(k as int) =~= current@);
    TagChanges { put_on, taken_off }
}

/// A tag that went to the server comes home: what it travels as means that
/// tag, or one that travels the same way and stands before it.
pub proof fn a_tag_comes_home(tags: Seq<TagName>, at: int)
    requires
        0 <= at < tags.len(),
    ensures
        ({
            let keyword = keyword_of(tags[at].name@);
            meaning_of(tags, keyword) matches Meaning::Tag(id) && exists|i: int|
                0 <= i <= at && (#[trigger] tags[i]).id == id && keyword_of(tags[i].name@)
                    == keyword
        }),
{
    let keyword = keyword_of(tags[at].name@);
    first_tag_is_found(tags, keyword, 0, at);
}

proof fn first_tag_is_found(tags: Seq<TagName>, keyword: Seq<char>, from: int, at: int)
    requires
        0 <= from <= at < tags.len(),
        keyword_of(tags[at].name@) == keyword,
    ensures
        tag_for(tags, keyword, from) matches Some(id) && exists|i: int|
            from <= i <= at && (#[trigger] tags[i]).id == id && keyword_of(tags[i].name@)
                == keyword,
    decreases at - from,
{
    if keyword_of(tags[from].name@) == keyword {
        assert(tags[from].id == tag_for(tags, keyword, from).unwrap());
    } else {
        first_tag_is_found(tags, keyword, from + 1, at);
    }
}

/// After the changes, a message wears every tag that is wanted. What goes on
/// is what was wanted and not worn; what comes off has been to the server, is
/// not wanted, and its keyword is not carried.
pub proof fn the_tags_agree_with_the_keywords(
    current: Seq<WornTag>,
    want: Seq<i64>,
    keywords: Seq<Seq<char>>,
    id: i64,
)
    ensures
        missing(current, want).contains(id) <==> want.contains(id) && !wears(current, id),
        gone(current, want, keywords).contains(id) <==> exists|i: int|
            0 <= i < current.len() && (#[trigger] current[i]).id == id && comes_off(
                current[i],
                want,
                keywords,
            ),
        want.contains(id) ==> !gone(current, want, keywords).contains(id),
{
    missing_is_what_is_wanted(current, want, id);
    what_goes_comes_off(current, want, keywords, id);
}

/// A tag that has never been to the server stays, whatever the server says.
pub proof fn what_never_travelled_stays(
    current: Seq<WornTag>,
    want: Seq<i64>,
    keywords: Seq<Seq<char>>,
    id: i64,
)
    requires
        forall|i: int|
            0 <= i < current.len() && (#[trigger] current[i]).id == id ==> !current[i].travelled,
    ensures
        !gone(current, want, keywords).contains(id),
{
    what_goes_comes_off(current, want, keywords, id);
}

proof fn missing_is_what_is_wanted(current: Seq<WornTag>, want: Seq<i64>, id: i64)
    ensures
        missing(current, want).contains(id) <==> want.contains(id) && !wears(current, id),
    decreases want.len(),
{
    if want.len() > 0 {
        let front = want.drop_last();
        missing_is_what_is_wanted(current, front, id);
        let before = missing(current, front);
        assert(want.contains(id) <==> front.contains(id) || want.last() == id) by {
            if want.contains(id) {
                let i = choose|i: int| 0 <= i < want.len() && want[i] == id;
                if i < front.len() {
                    assert(front[i] == id);
                }
            }
            if front.contains(id) {
                let i = choose|i: int| 0 <= i < front.len() && front[i] == id;
                assert(want[i] == id);
            }
            if want.last() == id {
                assert(want[want.len() - 1] == id);
            }
        }
        if !wears(current, want.last()) {
            let now = before.push(want.last());
            assert(now.contains(id) <==> before.contains(id) || want.last() == id) by {
                if before.contains(id) {
                    let i = choose|i: int| 0 <= i < before.len() && before[i] == id;
                    assert(now[i] == id);
                }
                assert(now[before.len() as int] == want.last());
            }
        }
    }
}

proof fn what_goes_comes_off(
    current: Seq<WornTag>,
    want: Seq<i64>,
    keywords: Seq<Seq<char>>,
    id: i64,
)
    ensures
        gone(current, want, keywords).contains(id) <==> exists|i: int|
            0 <= i < current.len() && (#[trigger] current[i]).id == id && comes_off(
                current[i],
                want,
                keywords,
            ),
    decreases current.len(),
{
    if current.len() > 0 {
        let front = current.drop_last();
        let last = current.len() - 1;
        what_goes_comes_off(front, want, keywords, id);
        let before = gone(front, want, keywords);
        let now = gone(current, want, keywords);
        assert forall|i: int| 0 <= i < front.len() implies front[i] == #[trigger] current[i] by {}
        if before.contains(id) {
            let k = choose|k: int| 0 <= k < before.len() && before[k] == id;
            assert(now[k] == id);
        }
        if comes_off(current.last(), want, keywords) {
            assert(now[before.len() as int] == current[last].id);
            if now.contains(id) && !before.contains(id) {
                let k = choose|k: int| 0 <= k < now.len() && now[k] == id;
                if k < before.len() {
                    assert(before[k] == id);
                }
                assert(current[last].id == id);
            }
        }
    }
}

// ---------------------------------------------------------------------
// By hand
// ---------------------------------------------------------------------
/// Whose a tag is after it has been asked for again. It only ever becomes
/// somebody's: a tag the server brought and a person then used is theirs.
pub fn origin_after(held: &str, asked: &str) -> (origin: String)
    ensures
        origin@ == (if asked@ == "user"@ {
            "user"@
        } else {
            held@
        }),
{
    if same(asked, "user") {
        string_of(&chars_of("user"))
    } else {
        string_of(&chars_of(held))
    }
}

/// Whether two names are one tag's: `Urgent` and `urgent` are.
pub open spec fn is_same_tag(one: Seq<char>, other: Seq<char>) -> bool {
    ascii_lowercase(one) == ascii_lowercase(other)
}

/// The first tag of a name, of those from the `i`th on.
pub open spec fn named(tags: Seq<TagName>, name: Seq<char>, i: int) -> Option<i64>
    decreases tags.len() - i,
{
    if i < 0 || i >= tags.len() {
        None
    } else if is_same_tag(tags[i].name@, name) {
        Some(tags[i].id)
    } else {
        named(tags, name, i + 1)
    }
}

/// The tag of a name, if there is one. The spelling already stored wins.
pub fn tag_named(tags: &Vec<TagName>, name: &str) -> (r: Option<i64>)
    ensures
        r == named(tags@, name@, 0),
{
    let low = ascii_lowered(&chars_of(name));
    let mut i: usize = 0;
    while i < tags.len()
        invariant
            i <= tags@.len(),
            low@ == ascii_lowercase(name@),
            named(tags@, name@, 0) == named(tags@, name@, i as int),
        decreases tags@.len() - i,
    {
        if same_chars(&ascii_lowered(&chars_of(&tags[i].name)), &low) {
            return Some(tags[i].id);
        }
        i += 1;
    }
    None
}

/// Whether another tag has this name already.
pub open spec fn clashes(tags: Seq<TagName>, id: i64, name: Seq<char>) -> bool {
    exists|i: int|
        0 <= i < tags.len() && (#[trigger] tags[i]).id != id && is_same_tag(tags[i].name@, name)
}

/// The name a tag takes when it is renamed, or why it cannot: it needs one,
/// and two tags of one name could not be told apart. `tags` are all of the
/// account's.
pub fn renaming(tags: &Vec<TagName>, id: i64, name: &str) -> (r: Result<String, StoreError>)
    ensures
        match r {
            Ok(new) => new@ == trim(name@) && trim(name@).len() > 0 && !clashes(
                tags@,
                id,
                trim(name@),
            ),
            Err(e) => if trim(name@).len() == 0 {
                is_rejected(e, "a tag needs a name"@)
            } else {
                clashes(tags@, id, trim(name@)) && is_rejected(
                    e,
                    "a tag called "@ + trim(name@) + " already exists"@,
                )
            },
        },
{
    let chars = chars_of(name);
    let new = trimmed(&chars);
    if new.len() == 0 {
        return Err(StoreError::Rejected(string_of(&chars_of("a tag needs a name"))));
    }
    let low = ascii_lowered(new);
    let mut i: usize = 0;
    while i < tags.len()
        invariant
            i <= tags@.len(),
            new@ == trim(name@),
            new@.len() > 0,
            low@ == ascii_lowercase(new@),
            forall|j: int|
                0 <= j < i ==> (#[trigger] tags@[j]).id == id || !is_same_tag(
                    tags@[j].name@,
                    new@,
                ),
        decreases tags@.len() - i,
    {
        if tags[i].id != id && same_chars(&ascii_lowered(&chars_of(&tags[i].name)), &low) {
            assert(tags@[i as int].id != id);
            let mut why: Vec<char> = Vec::new();
            put(&mut why, "a tag called ");
            crate::text::append_chars(&mut why, new);
            put(&mut why, " already exists");
            assert(why@ =~= "a tag called "@ + new@ + " already exists"@);
            return Err(StoreError::Rejected(string_of(&why)));
        }
        i += 1;
    }
    Ok(string_of(new))
}

// ---------------------------------------------------------------------
// Laws
// ---------------------------------------------------------------------
proof fn passed_over(tags: Seq<TagName>, keyword: Seq<char>, from: int, to: int)
    requires
        0 <= from <= to <= tags.len(),
        forall|i: int| from <= i < to ==> keyword_of((#[trigger] tags[i]).name@) != keyword,
    ensures
        tag_for(tags, keyword, from) == tag_for(tags, keyword, to),
    decreases to - from,
{
    if from < to {
        assert(keyword_of(tags[from].name@) != keyword);
        passed_over(tags, keyword, from + 1, to);
    }
}

/// A keyword means the first tag that travels as it. One that no tag travels
/// as is a machine's where it begins as those do, and otherwise becomes a tag
/// of its own.
pub proof fn a_keyword_means_the_first_tag_that_travels_as_it(
    tags: Seq<TagName>,
    keyword: Seq<char>,
    at: int,
)
    ensures
        (0 <= at < tags.len() && keyword_of(tags[at].name@) == keyword && forall|i: int|
            0 <= i < at ==> keyword_of((#[trigger] tags[i]).name@) != keyword) ==> meaning_of(
            tags,
            keyword,
        ) == Meaning::Tag(tags[at].id),
        (forall|i: int|
            0 <= i < tags.len() ==> keyword_of((#[trigger] tags[i]).name@) != keyword) ==> {
            &&& keyword.len() > 0 && (keyword[0] == '$' || keyword[0] == '\\') ==> meaning_of(
                tags,
                keyword,
            ) == Meaning::Machine
            &&& !(keyword.len() > 0 && (keyword[0] == '$' || keyword[0] == '\\')) ==> meaning_of(
                tags,
                keyword,
            ) == Meaning::New
        },
{
    if 0 <= at < tags.len() && keyword_of(tags[at].name@) == keyword && forall|i: int|
        0 <= i < at ==> keyword_of((#[trigger] tags[i]).name@) != keyword {
        passed_over(tags, keyword, 0, at);
    }
    if forall|i: int| 0 <= i < tags.len() ==> keyword_of((#[trigger] tags[i]).name@) != keyword {
        passed_over(tags, keyword, 0, tags.len() as int);
    }
}

/// A tag comes off where another client took its keyword off, and nowhere
/// else: not while it is wanted, not while its keyword is carried, and not
/// before it has ever been to the server.
pub proof fn a_tag_comes_off_with_its_keyword(
    before: Seq<WornTag>,
    tag: WornTag,
    want: Seq<i64>,
    keywords: Seq<Seq<char>>,
)
    ensures
        !tag.travelled || want.contains(tag.id) || keywords.contains(keyword_of(tag.name@))
            ==> gone(before.push(tag), want, keywords) == gone(before, want, keywords),
        tag.travelled && !want.contains(tag.id) && !keywords.contains(keyword_of(tag.name@))
            ==> gone(before.push(tag), want, keywords) == gone(before, want, keywords).push(tag.id),
{
    assert(before.push(tag).drop_last() =~= before);
}

proof fn passed_by_name(tags: Seq<TagName>, name: Seq<char>, from: int, to: int)
    requires
        0 <= from <= to <= tags.len(),
        forall|i: int|
            from <= i < to ==> ascii_lowercase((#[trigger] tags[i]).name@) != ascii_lowercase(name),
    ensures
        named(tags, name, from) == named(tags, name, to),
    decreases to - from,
{
    if from < to {
        assert(ascii_lowercase(tags[from].name@) != ascii_lowercase(name));
        passed_by_name(tags, name, from + 1, to);
    }
}

/// A tag is found by its name, whatever the case of its letters, and the
/// first of that name is the one found.
pub proof fn a_tag_is_found_by_its_name(tags: Seq<TagName>, name: Seq<char>, at: int)
    ensures
        (0 <= at < tags.len() && ascii_lowercase(tags[at].name@) == ascii_lowercase(name)
            && forall|i: int|
            0 <= i < at ==> ascii_lowercase((#[trigger] tags[i]).name@) != ascii_lowercase(name))
            ==> named(tags, name, 0) == Some(tags[at].id),
        (forall|i: int|
            0 <= i < tags.len() ==> ascii_lowercase((#[trigger] tags[i]).name@) != ascii_lowercase(
                name,
            )) ==> named(tags, name, 0) is None,
{
    if 0 <= at < tags.len() && ascii_lowercase(tags[at].name@) == ascii_lowercase(name)
        && forall|i: int|
        0 <= i < at ==> ascii_lowercase((#[trigger] tags[i]).name@) != ascii_lowercase(name) {
        passed_by_name(tags, name, 0, at);
    }
    if forall|i: int|
        0 <= i < tags.len() ==> ascii_lowercase((#[trigger] tags[i]).name@) != ascii_lowercase(
            name,
        ) {
        passed_by_name(tags, name, 0, tags.len() as int);
    }
}

/// A tag may take its own name again, in another case or the same, and may not
/// take another's.
pub proof fn a_tag_clashes_with_another_and_not_with_itself(
    tags: Seq<TagName>,
    id: i64,
    name: Seq<char>,
    at: int,
)
    requires
        0 <= at < tags.len(),
    ensures
        tags[at].id != id && ascii_lowercase(tags[at].name@) == ascii_lowercase(name) ==> clashes(
            tags,
            id,
            name,
        ),
        (forall|i: int| 0 <= i < tags.len() ==> (#[trigger] tags[i]).id == id) ==> !clashes(
            tags,
            id,
            name,
        ),
{
    if tags[at].id != id && ascii_lowercase(tags[at].name@) == ascii_lowercase(name) {
        assert(is_same_tag(tags[at].name@, name));
    }
}

} // verus!
