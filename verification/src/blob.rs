//! Content-addressed blobs: compressed, and named by the hash of what is in
//! them. Since the name is a checksum, what is read back is checked against
//! it, and rot turns into an error that can be healed by fetching again.

use crate::text::{chars_of, put, same_chars, starts, string_of};
use vstd::prelude::*;
use vstd::string::*;
use vstd::utf8::{
    decode_utf8, encode_utf8, encode_utf8_decode_utf8, encode_utf8_valid_utf8, is_char_boundary,
    is_char_boundary_iff_not_is_continuation_byte, is_char_boundary_start_end_of_seq,
    valid_utf8_split,
};

verus! {

/// An error of input or output.
#[verifier::external_type_specification]
#[verifier::external_body]
pub struct ExIoError(std::io::Error);

#[derive(Debug)]
pub enum BlobError {
    Io(std::io::Error),
    /// The stored bytes are not what they are filed under.
    Corrupt(String),
}

// ---------------------------------------------------------------------
// What other crates compute
// ---------------------------------------------------------------------
/// The BLAKE3 hash of some bytes, in hexadecimal.
pub uninterp spec fn content_hash(bytes: Seq<u8>) -> Seq<char>;

/// What zstd makes of some bytes at a level, if it makes anything of them.
pub uninterp spec fn compressed(bytes: Seq<u8>, level: int) -> Option<Seq<u8>>;

/// What zstd frames hold, if they are sound.
pub uninterp spec fn decompressed(stored: Seq<u8>) -> Option<Seq<u8>>;

/// A text as Rust writes it for a programmer to read: in quotes, escaped.
pub uninterp spec fn debug_text(s: Seq<char>) -> Seq<char>;

pub open spec fn is_hex(c: char) -> bool {
    '0' <= c <= '9' || 'a' <= c <= 'f'
}

/// Calls `blake3::hash` and writes the hash with `Hash::to_hex`: sixty-four
/// figures of hexadecimal, in lower case. Which ones is named `content_hash`.
#[verifier::external_body]
fn blake3_hex(bytes: &[u8]) -> (hash: String)
    ensures
        hash@ == content_hash(bytes@),
        hash@.len() == 64,
        forall|i: int| 0 <= i < 64 ==> is_hex(#[trigger] hash@[i]),
{
    blake3::hash(bytes).to_hex().to_string()
}

/// Calls `zstd::encode_all` at a level. What it makes of the bytes, or that it
/// makes nothing of them, is named `compressed`, and `decode_all` gives the
/// bytes back. On which bytes it fails is not said: it reads from memory and
/// writes to memory, and hands on whatever error the library reports.
#[verifier::external_body]
fn zstd_encode(bytes: &[u8], level: i32) -> (r: Result<Vec<u8>, std::io::Error>)
    requires
        1 <= level <= 19,
    ensures
        match r {
            Ok(v) => compressed(bytes@, level as int) == Some(v@) && decompressed(v@) == Some(
                bytes@,
            ),
            Err(_) => compressed(bytes@, level as int) is None,
        },
{
    zstd::encode_all(bytes, level)
}

/// Calls `zstd::decode_all`. What the bytes hold, or that they hold nothing
/// sound, is named `decompressed`.
#[verifier::external_body]
fn zstd_decode(stored: &[u8]) -> (r: Result<Vec<u8>, std::io::Error>)
    ensures
        match r {
            Ok(v) => decompressed(stored@) == Some(v@),
            Err(_) => decompressed(stored@) is None,
        },
{
    zstd::decode_all(stored)
}

/// Writes an error with its `Display`. Which words come is left unsaid: they
/// are the library's own.
#[verifier::external_body]
fn io_error_text(e: &std::io::Error) -> (text: String) {
    e.to_string()
}

/// Writes a text with its `Debug`, named `debug_text`.
#[verifier::external_body]
fn debugged(s: &str) -> (text: String)
    ensures
        text@ == debug_text(s@),
{
    format!("{s:?}")
}

// ---------------------------------------------------------------------
// Where a blob lives
// ---------------------------------------------------------------------
/// The directories and the file of a blob, two levels deep so that no
/// directory holds a hundred thousand files.
#[derive(Debug, Clone, PartialEq, Eq)]
pub struct BlobPlace {
    pub outer: String,
    pub inner: String,
    pub file: String,
}

/// A place, as a value.
pub struct Shelf {
    pub outer: Seq<char>,
    pub inner: Seq<char>,
    pub file: Seq<char>,
}

impl View for BlobPlace {
    type V = Shelf;

    open spec fn view(&self) -> Shelf {
        Shelf { outer: self.outer@, inner: self.inner@, file: self.file@ }
    }
}

/// Where a blob of this name lives: its first two bytes, its next two, and
/// itself. Nowhere, for a name that cannot be cut there: it is no hash.
pub open spec fn place(hash: Seq<char>) -> Option<Shelf> {
    let b = encode_utf8(hash);
    if b.len() < 4 || !is_char_boundary(b, 2) || !is_char_boundary(b, 4) {
        None
    } else {
        Some(
            Shelf {
                outer: decode_utf8(b.subrange(0, 2)),
                inner: decode_utf8(b.subrange(2, 4)),
                file: hash + ".zst"@,
            },
        )
    }
}

fn with_ending(hash: &str, ending: &str) -> (out: String)
    ensures
        out@ == hash@ + ending@,
{
    let mut out = chars_of(hash);
    put(&mut out, ending);
    string_of(&out)
}

/// Where a blob lives, or nothing for a name that is not a hash: "this
/// message has no stored body" is an ordinary thing to find.
pub fn place_of(hash: &str) -> (r: Option<BlobPlace>)
    ensures
        match (r, place(hash@)) {
            (Some(p), Some(s)) => p@ == s,
            (None, None) => true,
            _ => false,
        },
{
    let ghost b = encode_utf8(hash@);
    let length = hash.as_bytes().len();
    if length < 4 || !hash.is_char_boundary(2) || !hash.is_char_boundary(4) {
        return None;
    }
    let (outer, rest) = hash.split_at(2);
    proof {
        encode_utf8_valid_utf8(hash@);
        let r = b.subrange(2, b.len() as int);
        valid_utf8_split(b, 2);
        if b.len() > 4 {
            is_char_boundary_iff_not_is_continuation_byte(b, 4);
            assert(r[2] == b[4]);
            is_char_boundary_iff_not_is_continuation_byte(r, 2);
        } else {
            is_char_boundary_start_end_of_seq(r);
        }
    }
    let (inner, _) = rest.split_at(2);
    proof {
        encode_utf8_decode_utf8(outer@);
        encode_utf8_decode_utf8(inner@);
        assert(inner.spec_bytes() =~= b.subrange(2, 4));
    }
    Some(
        BlobPlace {
            outer: string_of(&chars_of(outer)),
            inner: string_of(&chars_of(inner)),
            file: with_ending(hash, ".zst"),
        },
    )
}

/// What a blob is called while it is being written.
pub fn part_name(hash: &str) -> (out: String)
    ensures
        out@ == hash@ + ".part"@,
{
    with_ending(hash, ".part")
}

/// The hash of some bytes and where a blob of them lives. The same bytes have
/// one hash and one place, so a blob is kept once however often it is
/// written.
pub fn address_of(bytes: &[u8]) -> (r: (String, BlobPlace))
    ensures
        r.0@ == content_hash(bytes@),
        place(content_hash(bytes@)) == Some(r.1@),
{
    let hash = blake3_hex(bytes);
    proof {
        assert(vstd::utf8::is_ascii_chars(hash@)) by {
            assert forall|i: int| 0 <= i < hash@.len() implies (#[trigger] hash@[i] as nat)
                < 128 by {
                assert(is_hex(hash@[i]));
            }
        }
        let b = encode_utf8(hash@);
        vstd::utf8::is_ascii_chars_encode_utf8(hash@);
        encode_utf8_valid_utf8(hash@);
        a_hex_figure_is_a_whole_character(hash@, 2);
        a_hex_figure_is_a_whole_character(hash@, 4);
    }
    match place_of(&hash) {
        Some(p) => (hash, p),
        None => {
            assert(false);
            (hash, BlobPlace { outer: String::new(), inner: String::new(), file: String::new() })
        },
    }
}

proof fn a_hex_figure_is_a_whole_character(hash: Seq<char>, at: int)
    requires
        vstd::utf8::is_ascii_chars(hash),
        0 <= at < hash.len(),
        is_hex(hash[at]),
    ensures
        is_char_boundary(encode_utf8(hash), at),
        encode_utf8(hash).len() == hash.len(),
{
    let b = encode_utf8(hash);
    vstd::utf8::is_ascii_chars_encode_utf8(hash);
    encode_utf8_valid_utf8(hash);
    is_char_boundary_iff_not_is_continuation_byte(b, at);
    let c = hash[at];
    assert(b[at] == c as u8);
    assert(c as u8 <= 102);
}

// ---------------------------------------------------------------------
// What a blob holds
// ---------------------------------------------------------------------
/// What a stored blob gives back under a name: what is in it, if that is
/// sound and has that hash.
pub open spec fn stored_content(hash: Seq<char>, stored: Seq<u8>) -> Option<Seq<u8>> {
    match decompressed(stored) {
        Some(bytes) => if content_hash(bytes) == hash {
            Some(bytes)
        } else {
            None
        },
        None => None,
    }
}

/// Whether these are the bytes that are stored for a blob: what it is
/// compressed to, which under the blob's own hash gives it back.
pub open spec fn is_packed(bytes: Seq<u8>, stored: Seq<u8>) -> bool {
    &&& compressed(bytes, 3) == Some(stored)
    &&& stored_content(content_hash(bytes), stored) == Some(bytes)
}

/// The bytes to store for a blob. Reading them under the blob's own hash
/// gives back what went in. It fails only where the bytes cannot be
/// compressed at all.
pub fn pack(bytes: &[u8]) -> (r: Result<Vec<u8>, BlobError>)
    ensures
        match r {
            Ok(stored) => is_packed(bytes@, stored@),
            Err(e) => e is Io && compressed(bytes@, 3) is None,
        },
{
    match zstd_encode(bytes, 3) {
        Ok(stored) => Ok(stored),
        Err(e) => Err(BlobError::Io(e)),
    }
}

/// What is read from a stored blob, checked against its own name. Bytes that
/// are not what they are filed under are never handed out. What cannot be
/// decompressed is said to be so, and then in the library's own words why.
pub fn unpack(hash: &str, stored: &[u8]) -> (r: Result<Vec<u8>, BlobError>)
    ensures
        match r {
            Ok(bytes) => stored_content(hash@, stored@) == Some(bytes@),
            Err(BlobError::Corrupt(why)) => stored_content(hash@, stored@) is None && match decompressed(
                stored@,
            ) {
                Some(found) => why@ == hash@ + ": content hash mismatch (found "@ + content_hash(
                    found,
                ) + ")"@,
                None => starts(why@, hash@ + ": decompression failed: "@),
            },
            Err(BlobError::Io(_)) => false,
        },
{
    let bytes = match zstd_decode(stored) {
        Ok(bytes) => bytes,
        Err(e) => {
            let mut why = chars_of(hash);
            put(&mut why, ": decompression failed: ");
            let ghost said = why@;
            put(&mut why, &io_error_text(&e));
            assert(why@.subrange(0, said.len() as int) =~= said);
            return Err(BlobError::Corrupt(string_of(&why)));
        },
    };
    let actual = blake3_hex(&bytes);
    if !same_chars(&chars_of(&actual), &chars_of(hash)) {
        let mut why = chars_of(hash);
        put(&mut why, ": content hash mismatch (found ");
        put(&mut why, &actual);
        put(&mut why, ")");
        assert(why@ =~= hash@ + ": content hash mismatch (found "@ + actual@ + ")"@);
        return Err(BlobError::Corrupt(string_of(&why)));
    }
    Ok(bytes)
}

/// Whether a stored blob passes verification.
pub fn is_intact(hash: &str, stored: &[u8]) -> (r: bool)
    ensures
        r == stored_content(hash@, stored@) is Some,
{
    unpack(hash, stored).is_ok()
}

/// The error for a name that no blob can have.
pub fn not_a_hash(hash: &str) -> (e: BlobError)
    ensures
        e matches BlobError::Corrupt(why) && why@ == debug_text(hash@) + " is not a blob hash"@,
{
    let mut why = chars_of(&debugged(hash));
    put(&mut why, " is not a blob hash");
    BlobError::Corrupt(string_of(&why))
}

impl BlobError {
    /// What is wrong, in words.
    pub fn to_text(&self) -> (out: String)
        ensures
            self matches BlobError::Corrupt(why) ==> out@ == "corrupt blob: "@ + why@,
            self is Io ==> starts(out@, "io: "@),
    {
        let mut out: Vec<char> = Vec::new();
        match self {
            BlobError::Io(e) => {
                put(&mut out, "io: ");
                put(&mut out, &io_error_text(e));
                assert(out@.subrange(0, "io: "@.len() as int) =~= "io: "@);
            },
            BlobError::Corrupt(why) => {
                put(&mut out, "corrupt blob: ");
                put(&mut out, why);
                assert(out@ =~= "corrupt blob: "@ + why@);
            },
        }
        string_of(&out)
    }
}

/// Whatever the stored bytes have become, nothing is read back under a name
/// but what has that hash.
pub proof fn rot_is_never_read(hash: Seq<char>, stored: Seq<u8>)
    ensures
        stored_content(hash, stored) matches Some(bytes) ==> content_hash(bytes) == hash
            && decompressed(stored) == Some(bytes),
{
}

// ---------------------------------------------------------------------
// A store of blobs
// ---------------------------------------------------------------------
/// What is in each place of a store.
pub type Shelves = Map<Shelf, Seq<u8>>;

/// A store after a blob was written to it. What is in its place already is
/// left as it is.
pub open spec fn written(shelves: Shelves, bytes: Seq<u8>, stored: Seq<u8>) -> Shelves {
    match place(content_hash(bytes)) {
        Some(at) => if shelves.contains_key(at) {
            shelves
        } else {
            shelves.insert(at, stored)
        },
        None => shelves,
    }
}

/// What is read from a store under a name.
pub open spec fn read_from(shelves: Shelves, hash: Seq<char>) -> Option<Seq<u8>> {
    match place(hash) {
        Some(at) => if shelves.contains_key(at) {
            stored_content(hash, shelves[at])
        } else {
            None
        },
        None => None,
    }
}

/// Whether the place of a blob is free, or the blob is in it.
pub open spec fn is_untouched(shelves: Shelves, bytes: Seq<u8>) -> bool {
    place(content_hash(bytes)) matches Some(at) && (shelves.contains_key(at) ==> stored_content(
        content_hash(bytes),
        shelves[at],
    ) == Some(bytes))
}

/// What is written to a store is read from it under its hash, and is still
/// read after anything else is written. Writing it again, however it is
/// compressed that time, leaves the store as it is.
pub proof fn what_is_written_is_read(
    shelves: Shelves,
    bytes: Seq<u8>,
    stored: Seq<u8>,
    more: Seq<u8>,
    also: Seq<u8>,
)
    requires
        is_untouched(shelves, bytes),
        is_packed(bytes, stored),
    ensures
        read_from(written(shelves, bytes, stored), content_hash(bytes)) == Some(bytes),
        read_from(written(written(shelves, bytes, stored), more, also), content_hash(bytes))
            == Some(bytes),
        written(written(shelves, bytes, stored), bytes, also) == written(shelves, bytes, stored),
{
}

/// Nothing is read from a store, whatever is in it, but what has the hash it
/// is read under.
pub proof fn what_is_read_has_its_name(shelves: Shelves, hash: Seq<char>)
    ensures
        read_from(shelves, hash) matches Some(bytes) ==> content_hash(bytes) == hash,
{
}

/// No two names share a place.
pub proof fn a_place_has_one_name(one: Seq<char>, other: Seq<char>)
    requires
        place(one) is Some,
        place(one) == place(other),
    ensures
        one == other,
{
    let a = place(one).unwrap().file;
    assert(a.take(a.len() - ".zst"@.len()) =~= one);
    assert(a.take(a.len() - ".zst"@.len()) =~= other);
}

/// A name shorter than four bytes has no place, so nothing is read under it.
pub proof fn a_short_name_has_no_place(shelves: Shelves, hash: Seq<char>)
    requires
        encode_utf8(hash).len() < 4,
    ensures
        place(hash) is None,
        read_from(shelves, hash) is None,
{
}

} // verus!
