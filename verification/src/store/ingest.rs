//! What a message becomes when it is taken in.

use super::index_text::{preview, preview_of};
use super::listing::{wire_id, COPY_MARK, HASH_KEY};
use crate::message::{or_empty, AddressLine, ParsedAttachment, ParsedMessage};
use crate::text::{
    append_chars, at_most, chars_of, decimal, decimal_chars, decimal_reads_back, find_from,
    find_from_is_first, first_chars, has, join, joined, lower, lowered, occurs_at, put, starts,
    string_of, texts,
};
use crate::threading::{normalize_subject, normalized};
use vstd::prelude::*;

verus! {

/// Outcome of ingesting one raw message.
#[derive(Debug, Clone, PartialEq, Eq)]
pub struct Ingested {
    pub message_id: i64,
    pub blob_hash: String,
    /// False when this was a re-ingest of a message already stored (a resync).
    pub was_new: bool,
}

/// Which row a message taken in belongs in.
#[derive(Debug, Clone, Copy, PartialEq, Eq, Structural)]
pub enum Row {
    /// One that is there already. Its deletion, if it was deleted, is taken
    /// back: the server just handed the message over.
    Held(i64),
    New,
}

impl Row {
    pub fn of(existing: Option<i64>) -> (row: Row)
        ensures
            row == match existing {
                Some(id) => Row::Held(id),
                None => Row::New,
            },
    {
        match existing {
            Some(id) => Row::Held(id),
            None => Row::New,
        }
    }
}

// ---------------------------------------------------------------------
// The key
// ---------------------------------------------------------------------
/// What names a message before any copy is told from another: its Message-ID,
/// or failing that what its bytes hash to.
pub open spec fn base_key(message_id: Option<Seq<char>>, hash: Seq<char>) -> Seq<char> {
    match message_id {
        Some(id) => id,
        None => HASH_KEY@ + hash,
    }
}

/// The key a message is kept under.
pub open spec fn key_of(
    message_id: Option<Seq<char>>,
    hash: Seq<char>,
    copy: Option<nat>,
) -> Seq<char> {
    match copy {
        Some(n) => base_key(message_id, hash) + COPY_MARK@ + decimal(n),
        None => base_key(message_id, hash),
    }
}

pub open spec fn text_in(s: Option<&str>) -> Option<Seq<char>> {
    match s {
        Some(t) => Some(t@),
        None => None,
    }
}

pub open spec fn copy_number(copy: Option<u32>) -> Option<nat> {
    match copy {
        Some(n) => Some(n as nat),
        None => None,
    }
}

/// The key a message is kept under, which a second delivery of it finds again.
/// A second copy that the server really holds is told apart by its number
/// there.
pub fn dedupe_key(message_id: Option<&str>, hash: &str, copy: Option<u32>) -> (key: String)
    ensures
        key@ == key_of(text_in(message_id), hash@, copy_number(copy)),
{
    let mut out = match message_id {
        Some(id) => chars_of(id),
        None => {
            let mut chars = chars_of(HASH_KEY);
            put(&mut chars, hash);
            chars
        },
    };
    if let Some(n) = copy {
        put(&mut out, COPY_MARK);
        append_chars(&mut out, &decimal_chars(n as u64));
    }
    string_of(&out)
}

/// The mark of a copy cannot begin inside what stands before one: its last
/// character is nowhere else in it.
proof fn no_mark_straddles(base: Seq<char>, rest: Seq<char>, i: int)
    requires
        has(base, COPY_MARK@) == false,
        0 <= i < base.len(),
    ensures
        !occurs_at(base + COPY_MARK@ + rest, COPY_MARK@, i),
{
    reveal_strlit("::copy-");
    let mark = COPY_MARK@;
    let whole = base + mark + rest;
    let at = base.len() as int;
    if occurs_at(whole, mark, i) {
        let here = whole.subrange(i, i + 7);
        if i + 7 <= at {
            assert(base.subrange(i, i + 7) =~= here);
            assert(occurs_at(base, mark, i));
        } else {
            assert(here[6] == whole[i + 6]);
            assert(whole[i + 6] == mark[i + 6 - at]);
        }
    }
}

proof fn the_first_mark_is_ours(base: Seq<char>, rest: Seq<char>)
    requires
        has(base, COPY_MARK@) == false,
    ensures
        find_from(base + COPY_MARK@ + rest, COPY_MARK@, 0) == Some(base.len() as int),
{
    let mark = COPY_MARK@;
    let whole = base + mark + rest;
    let at = base.len() as int;
    assert(whole.subrange(at, at + mark.len()) =~= mark);
    assert(occurs_at(whole, mark, at));
    find_from_is_first(whole, mark, 0);
    let found = find_from(whole, mark, 0)->0;
    if found < at {
        no_mark_straddles(base, rest, found);
    }
}

/// A reply can be given the Message-ID behind any key that has one: the key
/// alone says it, whether or not it names a second copy. A message without a
/// Message-ID has none to give, and none is made up. (A Message-ID that looks
/// like one of the made-up keys is taken for one.)
pub proof fn a_key_gives_back_its_message_id(
    message_id: Option<Seq<char>>,
    hash: Seq<char>,
    copy: Option<nat>,
)
    requires
        match message_id {
            Some(id) => {
                &&& id.len() > 0
                &&& !starts(id, HASH_KEY@)
                &&& has(id, COPY_MARK@) == false
                &&& copy is Some ==> id + seq![':'] != HASH_KEY@
            },
            None => true,
        },
    ensures
        wire_id(key_of(message_id, hash, copy)) == message_id,
{
    reveal_strlit("blake3:");
    reveal_strlit("::copy-");
    let key = key_of(message_id, hash, copy);
    match message_id {
        None => {
            assert(key.subrange(0, HASH_KEY@.len() as int) =~= HASH_KEY@);
            assert(starts(key, HASH_KEY@));
        },
        Some(id) => {
            match copy {
                None => {
                    find_from_is_first(id, COPY_MARK@, 0);
                },
                Some(n) => {
                    the_first_mark_is_ours(id, decimal(n));
                    assert(key.take(id.len() as int) =~= id);
                    if starts(key, HASH_KEY@) {
                        // Seven letters, none of them a colon but the last.
                        assert(forall|i: int|
                            0 <= i < 7 ==> key.subrange(0, 7)[i] == #[trigger] key[i]);
                        assert(HASH_KEY@.len() == 7);
                        if id.len() >= 7 {
                            assert(id.subrange(0, 7) =~= key.subrange(0, 7));
                            assert(starts(id, HASH_KEY@));
                        } else if id.len() == 6 {
                            assert(id + seq![':'] =~= key.subrange(0, 7));
                        } else {
                            assert(key[id.len() as int] == ':');
                        }
                    }
                },
            }
        },
    }
}

/// No two messages share a key: two that do have one Message-ID, or failing
/// that the same bytes, and are the same copy.
pub proof fn a_key_names_one_copy(
    first: Option<Seq<char>>,
    first_hash: Seq<char>,
    first_copy: Option<nat>,
    second: Option<Seq<char>>,
    second_hash: Seq<char>,
    second_copy: Option<nat>,
)
    requires
        has(base_key(first, first_hash), COPY_MARK@) == false,
        has(base_key(second, second_hash), COPY_MARK@) == false,
        key_of(first, first_hash, first_copy) == key_of(second, second_hash, second_copy),
    ensures
        base_key(first, first_hash) == base_key(second, second_hash),
        first_copy == second_copy,
{
    let a = base_key(first, first_hash);
    let b = base_key(second, second_hash);
    let key = key_of(first, first_hash, first_copy);
    find_from_is_first(key, COPY_MARK@, 0);
    match first_copy {
        Some(n) => {
            the_first_mark_is_ours(a, decimal(n));
            match second_copy {
                Some(m) => {
                    the_first_mark_is_ours(b, decimal(m));
                    assert(a =~= key.take(a.len() as int));
                    assert(b =~= key.take(a.len() as int));
                    let rest = a.len() + COPY_MARK@.len();
                    assert(decimal(n) =~= key.skip(rest as int));
                    assert(decimal(m) =~= key.skip(rest as int));
                    decimal_reads_back(n);
                    decimal_reads_back(m);
                },
                None => {},
            }
        },
        None => match second_copy {
            Some(m) => {
                the_first_mark_is_ours(b, decimal(m));
            },
            None => {},
        },
    }
}

// ---------------------------------------------------------------------
// What is written
// ---------------------------------------------------------------------
/// The names of those attachments that have one.
pub open spec fn filenames(all: Seq<ParsedAttachment>) -> Seq<Seq<char>>
    decreases all.len(),
{
    if all.len() == 0 {
        Seq::empty()
    } else {
        match all.last().filename {
            Some(name) => filenames(all.drop_last()).push(name@),
            None => filenames(all.drop_last()),
        }
    }
}

fn filename_parts(all: &Vec<ParsedAttachment>) -> (out: Vec<Vec<char>>)
    ensures
        texts(out@) == filenames(all@),
{
    let mut out: Vec<Vec<char>> = Vec::new();
    let mut i: usize = 0;
    assert(texts(out@) =~= filenames(all@.take(0)));
    while i < all.len()
        invariant
            i <= all@.len(),
            texts(out@) == filenames(all@.take(i as int)),
        decreases all@.len() - i,
    {
        assert(all@.take(i + 1).drop_last() =~= all@.take(i as int));
        assert(all@.take(i + 1).last() == all@[i as int]);
        if let Some(name) = &all[i].filename {
            let ghost before = out@;
            out.push(chars_of(name));
            assert(texts(out@) =~= texts(before).push(name@));
        }
        i += 1;
    }
    assert(all@.take(i as int) =~= all@);
    out
}

/// An address as it is searched: with the name before it where there is one.
pub open spec fn address_text(line: AddressLine) -> Seq<char> {
    match line.name {
        Some(name) => name@ + " "@ + line.addr@,
        None => line.addr@,
    }
}

pub open spec fn address_texts(all: Seq<AddressLine>) -> Seq<Seq<char>> {
    all.map_values(|line: AddressLine| address_text(line))
}

fn address_parts(all: &Vec<AddressLine>) -> (out: Vec<Vec<char>>)
    ensures
        texts(out@) == address_texts(all@),
{
    let mut out: Vec<Vec<char>> = Vec::new();
    let mut i: usize = 0;
    while i < all.len()
        invariant
            i <= all@.len(),
            out@.len() == i,
            forall|j: int| 0 <= j < i ==> (#[trigger] out@[j])@ == address_text(all@[j]),
        decreases all@.len() - i,
    {
        let mut part: Vec<char> = Vec::new();
        if let Some(name) = &all[i].name {
            put(&mut part, name);
            put(&mut part, " ");
        }
        put(&mut part, &all[i].addr);
        assert(part@ =~= address_text(all@[i as int]));
        out.push(part);
        i += 1;
    }
    assert(texts(out@) =~= address_texts(all@));
    out
}

pub open spec fn bare_addresses(all: Seq<AddressLine>) -> Seq<Seq<char>> {
    all.map_values(|line: AddressLine| line.addr@)
}

fn bare_parts(all: &Vec<AddressLine>) -> (out: Vec<Vec<char>>)
    ensures
        texts(out@) == bare_addresses(all@),
{
    let mut out: Vec<Vec<char>> = Vec::new();
    let mut i: usize = 0;
    while i < all.len()
        invariant
            i <= all@.len(),
            out@.len() == i,
            forall|j: int| 0 <= j < i ==> (#[trigger] out@[j])@ == all@[j].addr@,
        decreases all@.len() - i,
    {
        out.push(chars_of(&all[i].addr));
        i += 1;
    }
    assert(texts(out@) =~= bare_addresses(all@));
    out
}

/// What is written to the index when a message is taken out of the bin again.
#[derive(Debug, Clone, PartialEq, Eq)]
pub struct RestoredText {
    pub subject: String,
    pub addrs: String,
    pub attachment_names: String,
}

pub fn restored_text(parsed: &ParsedMessage) -> (r: RestoredText)
    ensures
        r.subject@ == or_empty(parsed.subject),
        r.addrs@ == joined(bare_addresses(parsed.addresses@), " "@),
        r.attachment_names@ == joined(filenames(parsed.attachments@), " "@),
{
    RestoredText {
        subject: match &parsed.subject {
            Some(s) => string_of(&chars_of(s)),
            None => string_of(&Vec::new()),
        },
        addrs: string_of(&join(&bare_parts(&parsed.addresses), " ")),
        attachment_names: string_of(&join(&filename_parts(&parsed.attachments), " ")),
    }
}

/// A row of the attachment table.
#[derive(Debug, Clone, PartialEq, Eq)]
pub struct AttachmentRow {
    pub part_id: i64,
    pub filename: Option<String>,
    pub mime: String,
    pub size: i64,
}

pub open spec fn same_text(a: Option<String>, b: Option<String>) -> bool {
    match (a, b) {
        (Some(x), Some(y)) => x@ == y@,
        (None, None) => true,
        _ => false,
    }
}

/// Whether a row holds the attachment at a position.
pub open spec fn holds_attachment(row: AttachmentRow, a: ParsedAttachment, at: int) -> bool {
    &&& row.part_id == at
    &&& same_text(row.filename, a.filename)
    &&& row.mime@ == a.content_type@
    &&& row.size == a.size as i64
}

fn copied(s: &Option<String>) -> (out: Option<String>)
    ensures
        same_text(out, *s),
{
    match s {
        Some(text) => Some(string_of(&chars_of(text))),
        None => None,
    }
}

fn attachment_rows(all: &Vec<ParsedAttachment>) -> (out: Vec<AttachmentRow>)
    requires
        all@.len() <= i64::MAX,
    ensures
        out@.len() == all@.len(),
        forall|i: int| 0 <= i < all@.len() ==> holds_attachment(#[trigger] out@[i], all@[i], i),
{
    let mut out: Vec<AttachmentRow> = Vec::new();
    let mut i: usize = 0;
    while i < all.len()
        invariant
            i <= all@.len() <= i64::MAX,
            out@.len() == i,
            forall|j: int| 0 <= j < i ==> holds_attachment(#[trigger] out@[j], all@[j], j),
        decreases all@.len() - i,
    {
        let a = &all[i];
        let row = AttachmentRow {
            part_id: i as i64,
            filename: copied(&a.filename),
            mime: string_of(&chars_of(&a.content_type)),
            size: #[verifier::truncate]
            (a.size as i64),
        };
        out.push(row);
        i += 1;
    }
    out
}

/// Everything a message taken in writes, but for where its bytes are.
#[derive(Debug, Clone, PartialEq, Eq)]
pub struct Record {
    pub key: String,
    pub date_ms: i64,
    pub subject_text: String,
    pub subject_norm: String,
    pub snippet: String,
    pub addrs_text: String,
    pub attachment_names: String,
    pub has_attachments: bool,
    pub attachments: Vec<AttachmentRow>,
}

/// What is written of a message. The row that is listed and the text that is
/// searched come of one reading, so neither can drift from the other.
pub open spec fn is_record_of(
    r: Record,
    parsed: ParsedMessage,
    hash: Seq<char>,
    copy: Option<nat>,
) -> bool {
    &&& r.key@ == key_of(
        match parsed.message_id {
            Some(id) => Some(id@),
            None => None,
        },
        hash,
        copy,
    )
    &&& r.date_ms == match parsed.date_ms {
        Some(ms) => ms,
        None => 0,
    }
    &&& r.subject_text@ == or_empty(parsed.subject)
    &&& r.subject_norm@ == normalized(or_empty(parsed.subject))
    &&& r.snippet@ == preview(parsed.index_text@)
    &&& r.addrs_text@ == joined(address_texts(parsed.addresses@), " "@)
    &&& r.attachment_names@ == joined(filenames(parsed.attachments@), " "@)
    &&& r.has_attachments == (parsed.attachments@.len() > 0)
    &&& r.attachments@.len() == parsed.attachments@.len()
    &&& forall|i: int|
        0 <= i < parsed.attachments@.len() ==> holds_attachment(
            #[trigger] r.attachments@[i],
            parsed.attachments@[i],
            i,
        )
}

/// Works out what a message writes.
pub fn record(parsed: &ParsedMessage, hash: &str, copy: Option<u32>) -> (r: Record)
    requires
        parsed.attachments@.len() <= i64::MAX,
    ensures
        is_record_of(r, *parsed, hash@, copy_number(copy)),
{
    let key = match &parsed.message_id {
        Some(id) => dedupe_key(Some(id), hash, copy),
        None => dedupe_key(None, hash, copy),
    };
    let subject = match &parsed.subject {
        Some(s) => string_of(&chars_of(s)),
        None => string_of(&Vec::new()),
    };
    let norm = normalize_subject(&subject);
    Record {
        key,
        date_ms: match parsed.date_ms {
            Some(ms) => ms,
            None => 0,
        },
        subject_text: subject,
        subject_norm: norm,
        snippet: preview_of(&parsed.index_text),
        addrs_text: string_of(&join(&address_parts(&parsed.addresses), " ")),
        attachment_names: string_of(&join(&filename_parts(&parsed.attachments), " ")),
        has_attachments: parsed.attachments.len() > 0,
        attachments: attachment_rows(&parsed.attachments),
    }
}

/// The folder a message is filed in on arrival. Not while something done to
/// it here is still waiting to be sent: a resync that filed an archived
/// message back in the inbox would undo the archiving.
pub fn files_into(folder: Option<i64>, waiting: bool) -> (r: Option<i64>)
    ensures
        r == if waiting {
            None
        } else {
            folder
        },
{
    if waiting {
        None
    } else {
        folder
    }
}

/// What ingesting a message reports.
pub fn ingested(id: i64, hash: &str, row: Row) -> (r: Ingested)
    ensures
        r.message_id == id,
        r.blob_hash@ == hash@,
        r.was_new == (row == Row::New),
{
    Ingested {
        message_id: id,
        blob_hash: string_of(&chars_of(hash)),
        was_new: match row {
            Row::New => true,
            Row::Held(_) => false,
        },
    }
}

// ---------------------------------------------------------------------
// Messages put in without bytes
// ---------------------------------------------------------------------
/// A message that has only what a row and the index hold.
#[derive(Debug, Clone, PartialEq, Eq)]
pub struct NewMessage {
    pub account_id: i64,
    pub date_ms: i64,
    pub from_addr: String,
    pub from_display: String,
    pub to_addr: String,
    pub subject: String,
    pub body_text: String,
}

/// The columns worked out for such a message.
#[derive(Debug, Clone, PartialEq, Eq)]
pub struct NewRow {
    pub snippet: String,
    pub from_norm: String,
    pub to_norm: String,
    pub addrs: String,
}

pub fn new_row(m: &NewMessage) -> (r: NewRow)
    ensures
        r.snippet@ == at_most(m.body_text@, 120),
        r.from_norm@ == lower(m.from_addr@),
        r.to_norm@ == lower(m.to_addr@),
        r.addrs@ == m.from_addr@ + " "@ + m.from_display@ + " "@ + m.to_addr@,
{
    let mut addrs = chars_of(&m.from_addr);
    put(&mut addrs, " ");
    put(&mut addrs, &m.from_display);
    put(&mut addrs, " ");
    put(&mut addrs, &m.to_addr);
    NewRow {
        snippet: string_of(&first_chars(&chars_of(&m.body_text), 120)),
        from_norm: lowered(&m.from_addr),
        to_norm: lowered(&m.to_addr),
        addrs: string_of(&addrs),
    }
}

// ---------------------------------------------------------------------
// Laws
// ---------------------------------------------------------------------
/// A message's key is its Message-ID as it came, and a message without one
/// has the digest of its bytes behind a word that no Message-ID begins with.
/// A second copy has its number on the end.
pub proof fn a_key_says_what_it_is(id: Seq<char>, hash: Seq<char>, n: nat)
    ensures
        key_of(Some(id), hash, None) == id,
        key_of(None, hash, None) == "blake3:"@ + hash,
        key_of(Some(id), hash, Some(n)) == id + "::copy-"@ + decimal(n),
        key_of(None, hash, Some(n)) == "blake3:"@ + hash + "::copy-"@ + decimal(n),
{
}

/// What is kept of a message is what was read of it, part for part.
pub proof fn a_record_keeps_what_was_read(
    r: Record,
    parsed: ParsedMessage,
    hash: Seq<char>,
    copy: Option<nat>,
    i: int,
)
    requires
        is_record_of(r, parsed, hash, copy),
    ensures
        parsed.date_ms matches Some(ms) ==> r.date_ms == ms,
        parsed.date_ms is None ==> r.date_ms == 0,
        parsed.message_id matches Some(id) ==> (copy is None ==> r.key@ == id@),
        parsed.message_id is None && copy is None ==> r.key@ == "blake3:"@ + hash,
        parsed.subject matches Some(s) ==> r.subject_text@ == s@ && r.subject_norm@ == normalized(
            s@,
        ),
        r.has_attachments <==> parsed.attachments@.len() > 0,
        r.attachments@.len() == parsed.attachments@.len(),
        0 <= i < parsed.attachments@.len() ==> {
            let row = r.attachments@[i];
            let a = parsed.attachments@[i];
            &&& row.part_id == i
            &&& row.mime@ == a.content_type@
            &&& a.filename matches Some(name) ==> (row.filename matches Some(kept) && kept@
                == name@)
            &&& a.filename is None ==> row.filename is None
        },
{
    if 0 <= i < parsed.attachments@.len() {
        assert(holds_attachment(r.attachments@[i], parsed.attachments@[i], i));
    }
}

/// Every attachment that has a name is searched for by it, in order.
pub proof fn every_name_is_searched(
    a: Seq<ParsedAttachment>,
    b: Seq<ParsedAttachment>,
    one: ParsedAttachment,
)
    ensures
        filenames(a + b) == filenames(a) + filenames(b),
        filenames(seq![one]) == match one.filename {
            Some(name) => seq![name@],
            None => Seq::<Seq<char>>::empty(),
        },
    decreases b.len(),
{
    let list = seq![one];
    let none = Seq::<Seq<char>>::empty();
    assert(list.drop_last() =~= Seq::<ParsedAttachment>::empty());
    assert(filenames(list.drop_last()) =~= none);
    if let Some(name) = one.filename {
        assert(none.push(name@) =~= seq![name@]);
    }
    if b.len() == 0 {
        assert(a + b =~= a);
        assert(filenames(a) + filenames(b) =~= filenames(a));
    } else {
        assert((a + b).drop_last() =~= a + b.drop_last());
        every_name_is_searched(a, b.drop_last(), one);
        assert(filenames(a + b) =~= filenames(a) + filenames(b));
    }
}

/// An address is found by itself, and by the name before it where it has one.
pub proof fn an_address_is_found_by_its_name(line: AddressLine)
    ensures
        line.name is None ==> address_text(line) == line.addr@,
        line.name matches Some(name) ==> address_text(line) == name@ + " "@ + line.addr@,
{
}

} // verus!
