//! mbox files: writing them and reading them back.
//!
//! The writer separates messages with a `From ` line, escapes the lines of a
//! message that begin `From ` to `>From `, turns line endings to LF, and
//! leaves a blank line after each message. The reader inverts exactly that.
//! The dialect has one known flaw: a line that was `>From ` to begin with
//! cannot be told from an escaped one and comes back without its mark.

pub mod read_back;
pub mod stamp;

pub use stamp::format_asctime;

use vstd::prelude::*;

verus! {

pub const LF: u8 = 10;

pub const CR: u8 = 13;

/// `>`, the mark in front of a line that would otherwise separate messages.
pub const MARK: u8 = 62;

/// What a separator begins with: `From `.
pub open spec fn from_word() -> Seq<u8> {
    seq![70u8, 114u8, 111u8, 109u8, 32u8]
}

pub open spec fn crlf() -> Seq<u8> {
    seq![CR, LF]
}

// ---------------------------------------------------------------------
// Lines
// ---------------------------------------------------------------------
/// The first position of a line feed, or the end.
pub open spec fn line_end(s: Seq<u8>) -> int
    decreases s.len(),
{
    if s.len() == 0 || s[0] == LF {
        0
    } else {
        line_end(s.skip(1)) + 1
    }
}

pub proof fn line_end_is_first(s: Seq<u8>)
    ensures
        0 <= line_end(s) <= s.len(),
        line_end(s) < s.len() ==> s[line_end(s)] == LF,
        forall|i: int| 0 <= i < line_end(s) ==> s[i] != LF,
    decreases s.len(),
{
    if s.len() > 0 && s[0] != LF {
        let rest = s.skip(1);
        line_end_is_first(rest);
        assert forall|i: int| 0 <= i < line_end(s) implies s[i] != LF by {
            if i > 0 {
                assert(rest[i - 1] == s[i]);
            }
        }
        assert(line_end(rest) < rest.len() ==> rest[line_end(rest)] == s[line_end(rest) + 1]);
    }
}

/// What lies between line feeds. There is always a last line, if an empty
/// one.
pub open spec fn lines(s: Seq<u8>) -> Seq<Seq<u8>>
    decreases s.len(),
{
    proof {
        line_end_is_first(s);
    }
    let end = line_end(s);
    if end >= s.len() {
        seq![s]
    } else {
        seq![s.take(end)] + lines(s.skip(end + 1))
    }
}

/// A line without the carriage return at its end.
pub open spec fn line_text(line: Seq<u8>) -> Seq<u8> {
    if line.len() > 0 && line.last() == CR {
        line.drop_last()
    } else {
        line
    }
}

pub open spec fn begins(line: Seq<u8>, word: Seq<u8>) -> bool {
    word.len() <= line.len() && line.take(word.len() as int) == word
}

fn position_of_lf(s: &[u8], from: usize) -> (end: usize)
    requires
        from <= s@.len(),
    ensures
        from <= end <= s@.len(),
        end - from == line_end(s@.skip(from as int)),
{
    let mut i: usize = from;
    while i < s.len() && s[i] != LF
        invariant
            from <= i <= s@.len(),
            line_end(s@.skip(from as int)) == line_end(s@.skip(i as int)) + i - from,
        decreases s@.len() - i,
    {
        assert(s@.skip(i as int).skip(1) =~= s@.skip(i + 1));
        assert(s@.skip(i as int)[0] == s@[i as int]);
        i += 1;
    }
    i
}

fn text_end(s: &[u8], from: usize, end: usize) -> (to: usize)
    requires
        from <= end <= s@.len(),
    ensures
        from <= to <= end,
        s@.subrange(from as int, to as int) == line_text(s@.subrange(from as int, end as int)),
{
    let ghost line = s@.subrange(from as int, end as int);
    if end > from && s[end - 1] == CR {
        assert(line.last() == s@[end - 1]);
        assert(s@.subrange(from as int, end - 1) =~= line.drop_last());
        end - 1
    } else {
        assert(line.len() > 0 ==> line.last() == s@[end - 1]);
        end
    }
}

fn begins_from(s: &[u8], from: usize, to: usize) -> (r: bool)
    requires
        from <= to <= s@.len(),
    ensures
        r == begins(s@.subrange(from as int, to as int), from_word()),
{
    let ghost line = s@.subrange(from as int, to as int);
    let r = to - from >= 5 && s[from] == 70u8 && s[from + 1] == 114u8 && s[from + 2] == 111u8
        && s[from + 3] == 109u8 && s[from + 4] == 32u8;
    proof {
        if line.len() >= 5 {
            assert(line.take(5).len() == 5);
            assert(line[0] == s@[from as int]);
            assert(line[1] == s@[from + 1]);
            assert(line[2] == s@[from + 2]);
            assert(line[3] == s@[from + 3]);
            assert(line[4] == s@[from + 4]);
            if r {
                assert(line.take(5) =~= from_word());
            } else if line.take(5) == from_word() {
                assert(line.take(5)[0] == from_word()[0]);
                assert(line.take(5)[1] == from_word()[1]);
                assert(line.take(5)[2] == from_word()[2]);
                assert(line.take(5)[3] == from_word()[3]);
                assert(line.take(5)[4] == from_word()[4]);
            }
        }
    }
    r
}

fn append_part(out: &mut Vec<u8>, s: &[u8], from: usize, to: usize)
    requires
        from <= to <= s@.len(),
    ensures
        final(out)@ == old(out)@ + s@.subrange(from as int, to as int),
{
    let mut i: usize = from;
    while i < to
        invariant
            from <= i <= to <= s@.len(),
            out@ == old(out)@ + s@.subrange(from as int, i as int),
        decreases to - i,
    {
        assert(s@.subrange(from as int, i + 1) =~= s@.subrange(from as int, i as int).push(
            s@[i as int],
        ));
        out.push(s[i]);
        i += 1;
    }
}

// ---------------------------------------------------------------------
// Reading
// ---------------------------------------------------------------------
/// A line as the message had it before it was escaped.
pub open spec fn unescaped(line: Seq<u8>) -> Seq<u8> {
    if line.len() > 0 && line[0] == MARK && begins(line.skip(1), from_word()) {
        line.skip(1)
    } else {
        line
    }
}

/// A message without the blank lines at its end: they are the file's
/// punctuation, not the message's.
pub open spec fn without_blank_end(msg: Seq<u8>) -> Seq<u8>
    decreases msg.len(),
{
    let n = msg.len() as int;
    if n >= 4 && msg.skip(n - 4) == crlf() + crlf() {
        without_blank_end(msg.take(n - 2))
    } else {
        msg
    }
}

/// How far a file has been read.
pub struct Reading {
    /// The messages that are complete.
    pub done: Seq<Seq<u8>>,
    /// The one under way, if a separator has been seen.
    pub current: Option<Seq<u8>>,
    /// Whether the line before was blank, or there was none.
    pub after_blank: bool,
}

/// Nothing read yet.
pub open spec fn unread() -> Reading {
    Reading { done: Seq::empty(), current: None, after_blank: true }
}

/// The messages, with the one under way made complete.
pub open spec fn finished(r: Reading) -> Seq<Seq<u8>> {
    match r.current {
        Some(msg) => r.done.push(without_blank_end(msg)),
        None => r.done,
    }
}

/// One more line. A separator begins `From ` and follows a blank line, both:
/// an unescaped `From ` inside a paragraph does not shear a message in two.
/// Any other line is the message's, and its ending becomes CRLF.
pub open spec fn read_line(r: Reading, raw_line: Seq<u8>) -> Reading {
    let line = line_text(raw_line);
    if r.after_blank && begins(line, from_word()) {
        Reading { done: finished(r), current: Some(Seq::empty()), after_blank: false }
    } else {
        Reading {
            done: r.done,
            current: match r.current {
                Some(msg) => Some(msg + unescaped(line) + crlf()),
                None => None,
            },
            after_blank: line.len() == 0,
        }
    }
}

pub open spec fn read_lines(r: Reading, all: Seq<Seq<u8>>) -> Reading
    decreases all.len(),
{
    if all.len() == 0 {
        r
    } else {
        read_lines(read_line(r, all[0]), all.skip(1))
    }
}

/// The messages in a file.
pub open spec fn messages_in(file: Seq<u8>) -> Seq<Seq<u8>> {
    finished(read_lines(unread(), lines(file)))
}

/// The bytes of some messages.
pub open spec fn contents(msgs: Seq<Vec<u8>>) -> Seq<Seq<u8>> {
    msgs.map_values(|m: Vec<u8>| m@)
}

pub open spec fn content(msg: Option<Vec<u8>>) -> Option<Seq<u8>> {
    match msg {
        Some(m) => Some(m@),
        None => None,
    }
}

fn trim_trailing_blank(msg: Vec<u8>) -> (out: Vec<u8>)
    ensures
        out@ == without_blank_end(msg@),
{
    let mut out = msg;
    loop
        invariant
            without_blank_end(msg@) == without_blank_end(out@),
        ensures
            without_blank_end(msg@) == out@,
        decreases out@.len(),
    {
        let n = out.len();
        let ghost s = out@;
        if n < 4 || out[n - 4] != CR || out[n - 3] != LF || out[n - 2] != CR || out[n - 1] != LF {
            proof {
                if n >= 4 && s.skip(n - 4) == crlf() + crlf() {
                    let tail = crlf() + crlf();
                    assert(s.skip(n - 4)[0] == tail[0]);
                    assert(s.skip(n - 4)[1] == tail[1]);
                    assert(s.skip(n - 4)[2] == tail[2]);
                    assert(s.skip(n - 4)[3] == tail[3]);
                }
            }
            break;
        }
        assert(s.skip(n - 4) =~= crlf() + crlf());
        out.truncate(n - 2);
        assert(out@ =~= s.take(n - 2));
    }
    out
}

/// Splits an mbox file into raw messages, their line endings CRLF.
pub fn split(bytes: &[u8]) -> (msgs: Vec<Vec<u8>>)
    ensures
        contents(msgs@) == messages_in(bytes@),
{
    let mut done: Vec<Vec<u8>> = Vec::new();
    let mut current: Option<Vec<u8>> = None;
    let mut after_blank = true;
    let mut at: usize = 0;
    let ghost mut now = unread();
    assert(contents(done@) =~= Seq::<Seq<u8>>::empty());
    assert(bytes@.skip(0) =~= bytes@);
    loop
        invariant_except_break
            at <= bytes@.len(),
            now == (Reading { done: contents(done@), current: content(current), after_blank }),
            read_lines(unread(), lines(bytes@)) == read_lines(now, lines(bytes@.skip(at as int))),
        ensures
            now == (Reading { done: contents(done@), current: content(current), after_blank }),
            read_lines(unread(), lines(bytes@)) == now,
        decreases bytes@.len() - at,
    {
        let ghost rest = bytes@.skip(at as int);
        let end = position_of_lf(bytes, at);
        let to = text_end(bytes, at, end);
        let ghost raw_line = bytes@.subrange(at as int, end as int);
        let ghost line = bytes@.subrange(at as int, to as int);
        let ghost next = read_line(now, raw_line);
        proof {
            line_end_is_first(rest);
            assert(rest.take(end - at) =~= raw_line);
            if end < bytes@.len() {
                assert(lines(rest) =~= seq![raw_line] + lines(bytes@.skip(end + 1))) by {
                    assert(rest.skip(end - at + 1) =~= bytes@.skip(end + 1));
                }
                assert(lines(rest).skip(1) =~= lines(bytes@.skip(end + 1)));
            } else {
                assert(rest =~= raw_line);
                assert(lines(rest).skip(1) =~= Seq::<Seq<u8>>::empty());
            }
            assert(lines(rest)[0] == raw_line);
            assert(line == line_text(raw_line));
        }
        if after_blank && begins_from(bytes, at, to) {
            let ghost before = done@;
            match current {
                Some(msg) => {
                    let ghost m = msg@;
                    done.push(trim_trailing_blank(msg));
                    assert(contents(done@) =~= contents(before).push(without_blank_end(m)));
                },
                None => {},
            }
            let empty: Vec<u8> = Vec::new();
            assert(empty@ =~= Seq::<u8>::empty());
            current = Some(empty);
            after_blank = false;
        } else {
            current = match current {
                Some(msg) => {
                    let mut msg = msg;
                    let ghost m = msg@;
                    let from: usize = if to > at && bytes[at] == MARK && begins_from(
                        bytes,
                        at + 1,
                        to,
                    ) {
                        at + 1
                    } else {
                        at
                    };
                    append_part(&mut msg, bytes, from, to);
                    msg.push(CR);
                    msg.push(LF);
                    proof {
                        assert(to > at ==> line[0] == bytes@[at as int]);
                        assert(to > at ==> bytes@.subrange(at + 1, to as int) =~= line.skip(1));
                        assert(bytes@.subrange(from as int, to as int) == unescaped(line));
                        assert(msg@ =~= m + unescaped(line) + crlf());
                    }
                    Some(msg)
                },
                None => None,
            };
            after_blank = to == at;
        }
        proof {
            now = next;
        }
        if end == bytes.len() {
            assert(read_lines(next, Seq::<Seq<u8>>::empty()) == next);
            break;
        }
        at = end + 1;
    }
    if let Some(msg) = current {
        let ghost before = done@;
        let ghost m = msg@;
        done.push(trim_trailing_blank(msg));
        assert(contents(done@) =~= contents(before).push(without_blank_end(m)));
    }
    done
}

// ---------------------------------------------------------------------
// Writing
// ---------------------------------------------------------------------
/// A line as it is written: marked where it would separate messages.
pub open spec fn escaped(line: Seq<u8>) -> Seq<u8> {
    if begins(line, from_word()) {
        seq![MARK] + line
    } else {
        line
    }
}

/// Lines as they are written, each with a line feed.
pub open spec fn written_lines(all: Seq<Seq<u8>>) -> Seq<u8>
    decreases all.len(),
{
    if all.len() == 0 {
        Seq::empty()
    } else {
        escaped(line_text(all[0])) + seq![LF] + written_lines(all.skip(1))
    }
}

/// The line that separates messages: who it is from, and when.
pub open spec fn separator(sender: Seq<u8>, stamp: Seq<u8>) -> Seq<u8> {
    from_word() + sender + seq![32u8] + stamp
}

/// A message as it stands in a file.
pub open spec fn entry(sender: Seq<u8>, stamp: Seq<u8>, raw: Seq<u8>) -> Seq<u8> {
    separator(sender, stamp) + seq![LF] + written_lines(lines(raw)) + seq![LF]
}

/// Who a message is said to be from, where it does not say itself.
pub const NO_SENDER: &'static str = "petrel@localhost";

pub open spec fn sender_of(from: Seq<char>) -> Seq<char> {
    if from.len() == 0 {
        NO_SENDER@
    } else {
        from
    }
}

/// Writes a message as it stands in an mbox file.
pub fn mbox_entry(from: &str, date_ms: i64, raw: &[u8]) -> (out: Vec<u8>)
    ensures
        out@ == entry(
            vstd::utf8::encode_utf8(sender_of(from@)),
            vstd::utf8::encode_utf8(stamp::asctime(date_ms as int)),
            raw@,
        ),
{
    let sender = if crate::text::chars_of(from).len() == 0 {
        NO_SENDER
    } else {
        from
    };
    let when_sent = format_asctime(date_ms);
    let mut out: Vec<u8> = Vec::new();
    out.push(70u8);
    out.push(114u8);
    out.push(111u8);
    out.push(109u8);
    out.push(32u8);
    let name = sender.as_bytes();
    append_part(&mut out, name, 0, name.len());
    out.push(32u8);
    let clock = when_sent.as_str().as_bytes();
    append_part(&mut out, clock, 0, clock.len());
    let ghost head = out@;
    proof {
        assert(name@.subrange(0, name@.len() as int) =~= name@);
        assert(clock@.subrange(0, clock@.len() as int) =~= clock@);
        assert(head =~= separator(name@, clock@));
    }
    out.push(LF);
    let ghost start = out@;
    let mut at: usize = 0;
    assert(raw@.skip(0) =~= raw@);
    assert(start + written_lines(lines(raw@)) =~= out@ + written_lines(lines(raw@.skip(0))));
    loop
        invariant_except_break
            at <= raw@.len(),
            start + written_lines(lines(raw@)) == out@ + written_lines(
                lines(raw@.skip(at as int)),
            ),
        ensures
            start + written_lines(lines(raw@)) == out@,
        decreases raw@.len() - at,
    {
        let ghost rest = raw@.skip(at as int);
        let end = position_of_lf(raw, at);
        let to = text_end(raw, at, end);
        let ghost raw_line = raw@.subrange(at as int, end as int);
        let ghost line = raw@.subrange(at as int, to as int);
        let ghost before = out@;
        proof {
            line_end_is_first(rest);
            assert(rest.take(end - at) =~= raw_line);
            if end < raw@.len() {
                assert(rest.skip(end - at + 1) =~= raw@.skip(end + 1));
                assert(lines(rest) =~= seq![raw_line] + lines(raw@.skip(end + 1)));
                assert(lines(rest).skip(1) =~= lines(raw@.skip(end + 1)));
            } else {
                assert(rest =~= raw_line);
                assert(lines(rest).skip(1) =~= Seq::<Seq<u8>>::empty());
            }
            assert(lines(rest)[0] == raw_line);
        }
        if begins_from(raw, at, to) {
            out.push(MARK);
        }
        append_part(&mut out, raw, at, to);
        out.push(LF);
        assert(out@ =~= before + (escaped(line) + seq![LF]));
        if end == raw.len() {
            assert(written_lines(Seq::<Seq<u8>>::empty()) =~= Seq::<u8>::empty());
            assert(written_lines(lines(rest)) =~= escaped(line) + seq![LF]);
            assert(out@ =~= before + written_lines(lines(rest)));
            break;
        }
        assert(written_lines(lines(rest)) =~= escaped(line) + seq![LF] + written_lines(
            lines(raw@.skip(end + 1)),
        ));
        assert(out@ + written_lines(lines(raw@.skip(end + 1))) =~= before + written_lines(
            lines(rest),
        ));
        at = end + 1;
    }
    out.push(LF);
    assert(out@ =~= entry(name@, clock@, raw@));
    out
}

// ---------------------------------------------------------------------
// Laws
// ---------------------------------------------------------------------
/// A separator begins `From ` and stands after a blank line. Anywhere else
/// such a line is the message's own, and so is every other line, with its
/// ending made CRLF.
pub proof fn a_separator_stands_after_a_blank_line(r: Reading, msg: Seq<u8>, rest: Seq<u8>)
    requires
        r.current == Some(msg),
        rest.len() > 0 ==> rest.last() != CR,
    ensures
        r.after_blank ==> read_line(r, "From "@.map_values(|c: char| c as u8) + rest).done
            == r.done.push(without_blank_end(msg)) && read_line(
            r,
            "From "@.map_values(|c: char| c as u8) + rest,
        ).current == Some(Seq::<u8>::empty()),
        !r.after_blank ==> read_line(r, "From "@.map_values(|c: char| c as u8) + rest).done
            == r.done && read_line(r, "From "@.map_values(|c: char| c as u8) + rest).current
            == Some(msg + ("From "@.map_values(|c: char| c as u8) + rest) + seq![13u8, 10u8]),
        read_line(r, Seq::empty()).after_blank && read_line(r, Seq::empty()).current == Some(
            msg + seq![13u8, 10u8],
        ),
        read_line(r, seq![13u8]) == read_line(r, Seq::empty()),
{
    reveal_strlit("From ");
    let word = "From "@.map_values(|c: char| c as u8);
    assert(word =~= from_word());
    let line = word + rest;
    assert(line.take(5) =~= from_word());
    assert(line.last() != CR) by {
        if rest.len() == 0 {
            assert(line =~= word);
            assert(line.last() == 32u8);
        } else {
            assert(line.last() == rest.last());
        }
    }
    assert(line[0] == 70u8);
    let empty = Seq::<u8>::empty();
    assert(seq![13u8].drop_last() =~= empty);
    assert(crlf() =~= seq![13u8, 10u8]);
    assert(msg + unescaped(empty) + crlf() =~= msg + seq![13u8, 10u8]);
}

/// Only a line that would separate messages is marked, with one `>`, and only
/// that mark is taken off again.
pub proof fn only_a_separator_is_marked(rest: Seq<u8>, other: Seq<u8>)
    requires
        !begins(other, from_word()),
    ensures
        escaped(from_word() + rest) == seq![62u8] + from_word() + rest,
        escaped(other) == other,
        unescaped(seq![62u8] + from_word() + rest) == from_word() + rest,
        unescaped(seq![62u8] + other) == seq![62u8] + other,
        unescaped(from_word() + rest) == from_word() + rest,
{
    let line = from_word() + rest;
    assert(line.take(5) =~= from_word());
    assert(seq![62u8] + line =~= seq![62u8] + from_word() + rest);
    assert((seq![62u8] + line).skip(1) =~= line);
    assert((seq![62u8] + other).skip(1) =~= other);
    assert(line[0] == 70u8);
}

/// Blank lines at the end of a message are the file's, all but the one its
/// last line ends with.
pub proof fn blank_lines_at_the_end_are_the_files(msg: Seq<u8>)
    ensures
        without_blank_end(msg + seq![13u8, 10u8] + seq![13u8, 10u8]) == without_blank_end(
            msg + seq![13u8, 10u8],
        ),
        msg.len() > 0 && msg.last() != 10u8 ==> without_blank_end(msg + seq![13u8, 10u8]) == msg
            + seq![13u8, 10u8],
{
    let end = seq![13u8, 10u8];
    assert(end =~= crlf());
    let twice = msg + end + end;
    let n = twice.len() as int;
    assert(twice.skip(n - 4) =~= crlf() + crlf());
    assert(twice.take(n - 2) =~= msg + end);
    if msg.len() > 0 && msg.last() != 10u8 {
        let once = msg + end;
        let m = once.len() as int;
        if m >= 4 && once.skip(m - 4) == crlf() + crlf() {
            assert(once.skip(m - 4)[1] == once[m - 3]);
            assert(once[m - 3] == msg.last());
            assert((crlf() + crlf())[1] == 10u8);
        }
    }
}

/// A message in a file begins with who it is from and when, and ends with a
/// blank line; one that does not say whom it is from is from here.
pub proof fn an_entry_begins_with_its_sender(
    sender: Seq<u8>,
    stamp: Seq<u8>,
    raw: Seq<u8>,
    from: Seq<char>,
)
    ensures
        entry(sender, stamp, raw) == from_word() + sender + seq![32u8] + stamp + seq![10u8]
            + written_lines(lines(raw)) + seq![10u8],
        from.len() > 0 ==> sender_of(from) == from,
        sender_of(Seq::empty()) == "petrel@localhost"@,
{
}

} // verus!
