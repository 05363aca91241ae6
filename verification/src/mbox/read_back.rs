//! What was written reads back.

use super::{
    begins, crlf, entry, escaped, finished, from_word, line_end, line_end_is_first, line_text,
    lines, messages_in, read_line, read_lines, sender_of, separator, unescaped, unread,
    without_blank_end, written_lines, Reading, CR, LF, MARK,
};
use crate::text::has_char;
use vstd::prelude::*;
use vstd::utf8::{encode_scalar, encode_utf8};

verus! {

/// One message of a file: who it is said to be from, when, and what it is.
pub struct Entry {
    pub sender: Seq<u8>,
    pub stamp: Seq<u8>,
    pub raw: Seq<u8>,
}

/// A file of messages.
pub open spec fn file(entries: Seq<Entry>) -> Seq<u8>
    decreases entries.len(),
{
    if entries.len() == 0 {
        Seq::empty()
    } else {
        entry(entries[0].sender, entries[0].stamp, entries[0].raw) + file(entries.skip(1))
    }
}

pub open spec fn is_one_line(s: Seq<u8>) -> bool {
    forall|i: int| 0 <= i < s.len() ==> #[trigger] s[i] != LF
}

/// Lines, each ended with CRLF.
pub open spec fn with_crlf(all: Seq<Seq<u8>>) -> Seq<u8>
    decreases all.len(),
{
    if all.len() == 0 {
        Seq::empty()
    } else {
        line_text(all[0]) + crlf() + with_crlf(all.skip(1))
    }
}

/// A message with its line endings CRLF and no blank lines at its end.
pub open spec fn kept(raw: Seq<u8>) -> Seq<u8> {
    without_blank_end(with_crlf(lines(raw)) + crlf())
}

/// Whether a line begins `>From `.
pub open spec fn looks_escaped(text: Seq<u8>) -> bool {
    text.len() > 0 && text[0] == MARK && begins(text.skip(1), from_word())
}

/// Whether the dialect can tell a line: it does not begin `>From ` of its
/// own accord, and does not end in two carriage returns.
pub open spec fn is_plain_line(line: Seq<u8>) -> bool {
    let text = line_text(line);
    &&& !looks_escaped(text)
    &&& !(text.len() > 0 && text.last() == CR)
}

pub open spec fn is_plain(raw: Seq<u8>) -> bool {
    forall|i: int| 0 <= i < lines(raw).len() ==> is_plain_line(#[trigger] lines(raw)[i])
}

/// A line on its own, with more after it.
proof fn a_line_comes_off(head: Seq<u8>, rest: Seq<u8>)
    requires
        is_one_line(head),
    ensures
        lines(head + seq![LF] + rest) == seq![head] + lines(rest),
{
    let whole = head + seq![LF] + rest;
    line_end_is_first(whole);
    let n = head.len() as int;
    assert(whole[n] == LF);
    let end = line_end(whole);
    assert(end == n) by {
        if end < n {
            assert(whole[end] == head[end]);
        }
    }
    assert(whole.take(n) =~= head);
    assert(whole.skip(n + 1) =~= rest);
}

proof fn lines_are_lines(s: Seq<u8>)
    ensures
        lines(s).len() > 0,
        forall|i: int| 0 <= i < lines(s).len() ==> is_one_line(#[trigger] lines(s)[i]),
    decreases s.len(),
{
    line_end_is_first(s);
    let end = line_end(s);
    if end < s.len() {
        let rest = s.skip(end + 1);
        lines_are_lines(rest);
        assert forall|i: int| 0 <= i < lines(s).len() implies is_one_line(
            #[trigger] lines(s)[i],
        ) by {
            if i > 0 {
                assert(lines(s)[i] == lines(rest)[i - 1]);
            } else {
                assert(lines(s)[0] =~= s.take(end));
            }
        }
    } else {
        assert(lines(s)[0] == s);
    }
}

/// The lines a message is written as.
spec fn as_written(all: Seq<Seq<u8>>) -> Seq<Seq<u8>> {
    all.map_values(|l: Seq<u8>| escaped(line_text(l)))
}

proof fn written_lines_are_lines(all: Seq<Seq<u8>>, rest: Seq<u8>)
    requires
        forall|i: int| 0 <= i < all.len() ==> is_one_line(#[trigger] all[i]),
    ensures
        lines(written_lines(all) + rest) == as_written(all) + lines(rest),
    decreases all.len(),
{
    if all.len() == 0 {
        assert(written_lines(all) + rest =~= rest);
        assert(as_written(all) + lines(rest) =~= lines(rest));
    } else {
        let more = all.skip(1);
        let head = escaped(line_text(all[0]));
        assert forall|i: int| 0 <= i < more.len() implies is_one_line(#[trigger] more[i]) by {
            assert(more[i] == all[i + 1]);
        }
        assert(is_one_line(head)) by {
            assert(is_one_line(all[0]));
            assert forall|i: int| 0 <= i < head.len() implies #[trigger] head[i] != LF by {
                let text = line_text(all[0]);
                if begins(text, from_word()) {
                    if i > 0 {
                        assert(head[i] == all[0][i - 1]);
                    }
                } else {
                    assert(head[i] == all[0][i]);
                }
            }
        }
        written_lines_are_lines(more, rest);
        a_line_comes_off(head, written_lines(more) + rest);
        assert(written_lines(all) + rest =~= head + seq![LF] + (written_lines(more) + rest));
        assert(as_written(all) =~= seq![head] + as_written(more));
        assert(seq![head] + (as_written(more) + lines(rest)) =~= as_written(all) + lines(rest));
    }
}

proof fn reading_goes_on(r: Reading, a: Seq<Seq<u8>>, b: Seq<Seq<u8>>)
    ensures
        read_lines(r, a + b) == read_lines(read_lines(r, a), b),
    decreases a.len(),
{
    if a.len() == 0 {
        assert(a + b =~= b);
    } else {
        assert((a + b).skip(1) =~= a.skip(1) + b);
        reading_goes_on(read_line(r, a[0]), a.skip(1), b);
    }
}

/// A written line is never taken for a separator, and comes back as it was.
proof fn a_line_reads_back(r: Reading, line: Seq<u8>)
    requires
        is_plain_line(line),
        r.current is Some,
    ensures
        read_line(r, escaped(line_text(line))) == (Reading {
            done: r.done,
            current: Some(r.current.unwrap() + line_text(line) + crlf()),
            after_blank: line_text(line).len() == 0,
        }),
{
    let text = line_text(line);
    let e = escaped(text);
    if begins(text, from_word()) {
        assert(e.last() == text.last());
        assert(line_text(e) == e);
        assert(e.skip(1) =~= text);
        assert(e[0] == MARK);
        if begins(e, from_word()) {
            assert(e.take(5)[0] == from_word()[0]);
        }
        assert(unescaped(e) == text);
    } else {
        assert(line_text(e) == e);
        assert(unescaped(e) == text);
    }
}

proof fn a_message_reads_back(r: Reading, all: Seq<Seq<u8>>)
    requires
        forall|i: int| 0 <= i < all.len() ==> is_plain_line(#[trigger] all[i]),
        r.current is Some,
    ensures
        read_lines(r, as_written(all)).done == r.done,
        read_lines(r, as_written(all)).current == Some(r.current.unwrap() + with_crlf(all)),
    decreases all.len(),
{
    let written = as_written(all);
    let m = r.current.unwrap();
    if all.len() == 0 {
        assert(m + with_crlf(all) =~= m);
    } else {
        let more = all.skip(1);
        assert(is_plain_line(all[0]));
        a_line_reads_back(r, all[0]);
        assert forall|i: int| 0 <= i < more.len() implies is_plain_line(#[trigger] more[i]) by {
            assert(more[i] == all[i + 1]);
        }
        assert(written[0] == escaped(line_text(all[0])));
        assert(written.skip(1) =~= as_written(more));
        let next = read_line(r, written[0]);
        a_message_reads_back(next, more);
        assert(m + line_text(all[0]) + crlf() + with_crlf(more) =~= m + with_crlf(all));
    }
}

proof fn crlf_at_the_end(all: Seq<Seq<u8>>)
    requires
        all.len() > 0,
    ensures
        with_crlf(all).len() >= 2,
        with_crlf(all).skip(with_crlf(all).len() - 2) == crlf(),
    decreases all.len(),
{
    let w = with_crlf(all);
    let more = all.skip(1);
    if all.len() == 1 {
        assert(more =~= Seq::<Seq<u8>>::empty());
        assert(with_crlf(more) =~= Seq::<u8>::empty());
        assert(w =~= line_text(all[0]) + crlf());
        assert(w.skip(w.len() - 2) =~= crlf());
    } else {
        crlf_at_the_end(more);
        let rest = with_crlf(more);
        assert(w.skip(w.len() - 2) =~= rest.skip(rest.len() - 2));
    }
}

/// A blank line more at the end of a message makes no difference.
proof fn a_blank_line_comes_off(m: Seq<u8>)
    requires
        m.len() >= 2,
        m.skip(m.len() - 2) == crlf(),
    ensures
        without_blank_end(m + crlf()) == without_blank_end(m),
{
    let x = m + crlf();
    assert(x.skip(x.len() - 4) =~= m.skip(m.len() - 2) + crlf());
    assert(x.take(x.len() - 2) =~= m);
}

proof fn the_rest_reads_back(r: Reading, entries: Seq<Entry>)
    requires
        r.after_blank,
        r.current matches Some(m) ==> m.len() >= 2 && m.skip(m.len() - 2) == crlf(),
        forall|i: int|
            0 <= i < entries.len() ==> is_one_line((#[trigger] entries[i]).sender) && is_one_line(
                entries[i].stamp,
            ) && is_plain(entries[i].raw),
    ensures
        finished(read_lines(r, lines(file(entries)))) == finished(r) + entries.map_values(
            |e: Entry| kept(e.raw),
        ),
    decreases entries.len(),
{
    let f = file(entries);
    let back = entries.map_values(|e: Entry| kept(e.raw));
    if entries.len() == 0 {
        let blank = Seq::<u8>::empty();
        assert(lines(f) =~= seq![blank]);
        assert(seq![blank].skip(1) =~= Seq::<Seq<u8>>::empty());
        let last = read_line(r, blank);
        assert(read_lines(last, Seq::<Seq<u8>>::empty()) == last);
        assert(read_lines(r, lines(f)) == last);
        if let Some(m) = r.current {
            assert(m + blank + crlf() =~= m + crlf());
            a_blank_line_comes_off(m);
        }
        assert(finished(r) + back =~= finished(r));
    } else {
        let e = entries[0];
        let more = entries.skip(1);
        let rest = file(more);
        let all = lines(e.raw);
        let sep = separator(e.sender, e.stamp);
        let blank = Seq::<u8>::empty();
        lines_are_lines(e.raw);
        // The lines of the file, from here on.
        assert(is_one_line(sep)) by {
            assert forall|i: int| 0 <= i < sep.len() implies #[trigger] sep[i] != LF by {
                let n = 5 + e.sender.len();
                if i < 5 {
                    assert(sep[i] == from_word()[i]);
                } else if i < n {
                    assert(sep[i] == e.sender[i - 5]);
                } else if i > n {
                    assert(sep[i] == e.stamp[i - n - 1]);
                }
            }
        }
        let tail = seq![LF] + rest;
        assert(f =~= sep + seq![LF] + (written_lines(all) + tail));
        a_line_comes_off(sep, written_lines(all) + tail);
        written_lines_are_lines(all, tail);
        assert(tail =~= blank + seq![LF] + rest);
        a_line_comes_off(blank, rest);
        let written = as_written(all);
        assert(lines(f) =~= seq![sep] + (written + (seq![blank] + lines(rest))));
        // The separator,
        let r1 = read_line(r, sep);
        assert(lines(f)[0] == sep);
        assert(lines(f).skip(1) =~= written + (seq![blank] + lines(rest)));
        assert(begins(line_text(sep), from_word())) by {
            assert(line_text(sep).take(5) =~= from_word());
        }
        assert(r1.done == finished(r) && r1.current == Some(blank));
        // the message,
        reading_goes_on(r1, written, seq![blank] + lines(rest));
        a_message_reads_back(r1, all);
        let r2 = read_lines(r1, written);
        assert(blank + with_crlf(all) =~= with_crlf(all));
        // the blank line after it,
        let after = seq![blank] + lines(rest);
        assert(after[0] == blank);
        assert(after.skip(1) =~= lines(rest));
        let r3 = read_line(r2, blank);
        assert(!begins(blank, from_word()));
        let m = with_crlf(all) + crlf();
        assert(with_crlf(all) + blank + crlf() =~= m);
        crlf_at_the_end(all);
        assert(m.skip(m.len() - 2) =~= crlf());
        // and what follows.
        assert forall|i: int| 0 <= i < more.len() implies is_one_line((#[trigger] more[i]).sender)
            && is_one_line(more[i].stamp) && is_plain(more[i].raw) by {
            assert(more[i] == entries[i + 1]);
        }
        the_rest_reads_back(r3, more);
        assert(finished(r3) == finished(r).push(kept(e.raw)));
        assert(back =~= seq![kept(e.raw)] + more.map_values(|e: Entry| kept(e.raw)));
        assert(finished(r) + back =~= finished(r3) + more.map_values(|e: Entry| kept(e.raw)));
    }
}

/// Reading a file gives back the messages that were written to it, each with
/// its line endings CRLF and no blank lines at its end: as many as there
/// were, in their order, whatever stands in them, `From ` at the start of a
/// line and after a blank line too. The one exception is the dialect's own:
/// a line that began `>From ` before it was written.
pub proof fn what_is_written_reads_back(entries: Seq<Entry>)
    requires
        forall|i: int|
            0 <= i < entries.len() ==> is_one_line((#[trigger] entries[i]).sender) && is_one_line(
                entries[i].stamp,
            ) && is_plain(entries[i].raw),
    ensures
        messages_in(file(entries)) == entries.map_values(|e: Entry| kept(e.raw)),
{
    the_rest_reads_back(unread(), entries);
    assert(finished(unread()) + entries.map_values(|e: Entry| kept(e.raw))
        =~= entries.map_values(|e: Entry| kept(e.raw)));
}

/// Whether CR and LF stand only in pairs.
pub open spec fn is_paired(s: Seq<u8>) -> bool {
    &&& forall|i: int|
        0 <= i < s.len() && #[trigger] s[i] == CR ==> i + 1 < s.len() && s[i + 1] == LF
    &&& forall|i: int| 0 <= i < s.len() && #[trigger] s[i] == LF ==> i > 0 && s[i - 1] == CR
}

/// Whether a message is as it travels: its line endings are CRLF, it ends in
/// one, not in a blank line, and no line of it begins `>From `.
pub open spec fn is_as_it_travels(raw: Seq<u8>) -> bool {
    &&& is_paired(raw)
    &&& raw.len() >= 2 && raw.skip(raw.len() - 2) == crlf()
    &&& !(raw.len() >= 4 && raw.skip(raw.len() - 4) == crlf() + crlf())
    &&& forall|i: int| 0 <= i < lines(raw).len() ==> !looks_escaped(line_text(#[trigger] lines(raw)[i]))
}

proof fn paired_lines(s: Seq<u8>)
    requires
        is_paired(s),
    ensures
        with_crlf(lines(s)) == s + crlf(),
        forall|i: int|
            0 <= i < lines(s).len() ==> {
                let text = line_text(#[trigger] lines(s)[i]);
                text.len() > 0 ==> text.last() != CR
            },
    decreases s.len(),
{
    line_end_is_first(s);
    let end = line_end(s);
    let all = lines(s);
    if end >= s.len() {
        assert(s.len() > 0 ==> s[s.len() - 1] != CR);
        assert(line_text(s) == s);
        assert(all.skip(1) =~= Seq::<Seq<u8>>::empty());
        assert(with_crlf(all.skip(1)) =~= Seq::<u8>::empty());
        assert(with_crlf(all) =~= s + crlf());
        assert(all[0] == s);
    } else {
        let head = s.take(end);
        let rest = s.skip(end + 1);
        assert(s[end] == LF);
        assert(s[end - 1] == CR);
        assert(head.last() == CR);
        assert(is_paired(rest)) by {
            assert forall|i: int| 0 <= i < rest.len() && #[trigger] rest[i] == CR implies i + 1
                < rest.len() && rest[i + 1] == LF by {
                assert(s[i + end + 1] == CR);
            }
            assert forall|i: int| 0 <= i < rest.len() && #[trigger] rest[i] == LF implies i > 0
                && rest[i - 1] == CR by {
                assert(s[i + end + 1] == LF);
                assert(s[i + end] == CR);
            }
        }
        paired_lines(rest);
        assert(all[0] == head);
        assert(all.skip(1) =~= lines(rest));
        assert(line_text(head) =~= s.take(end - 1));
        assert(with_crlf(all) =~= s + crlf()) by {
            assert(s =~= s.take(end - 1) + crlf() + rest);
        }
        assert forall|i: int| 0 <= i < all.len() implies {
            let text = line_text(#[trigger] all[i]);
            text.len() > 0 ==> text.last() != CR
        } by {
            if i > 0 {
                assert(all[i] == lines(rest)[i - 1]);
            } else if line_text(head).len() > 0 {
                assert(line_text(head).last() == s[end - 2]);
                assert(s[end - 2] == CR ==> s[end - 2 + 1] == LF);
            }
        }
    }
}

proof fn a_message_keeps_its_form(raw: Seq<u8>)
    requires
        is_as_it_travels(raw),
    ensures
        is_plain(raw),
        kept(raw) == raw,
{
    paired_lines(raw);
    let once = raw + crlf();
    assert(once.skip(once.len() - 2) =~= crlf());
    a_blank_line_comes_off(once);
    a_blank_line_comes_off(raw);
}

/// The reader undoes the writer byte for byte, for messages as they travel:
/// lines that begin `From ` and blank lines inside a message included.
pub proof fn messages_as_they_travel_read_back_whole(entries: Seq<Entry>)
    requires
        forall|i: int|
            0 <= i < entries.len() ==> is_one_line((#[trigger] entries[i]).sender) && is_one_line(
                entries[i].stamp,
            ) && is_as_it_travels(entries[i].raw),
    ensures
        messages_in(file(entries)) == entries.map_values(|e: Entry| e.raw),
{
    assert forall|i: int| 0 <= i < entries.len() implies is_plain((#[trigger] entries[i]).raw)
        && kept(entries[i].raw) == entries[i].raw by {
        a_message_keeps_its_form(entries[i].raw);
    }
    what_is_written_reads_back(entries);
    assert(entries.map_values(|e: Entry| kept(e.raw)) =~= entries.map_values(|e: Entry| e.raw));
}

proof fn encoding_adds_no_line_feed(c: u32)
    requires
        c != 10,
    ensures
        is_one_line(encode_scalar(c)),
{
    assert(c < 0x80 && c != 10 ==> vstd::utf8::leading_byte_width_1(c) != 10u8) by (bit_vector);
    assert(vstd::utf8::leading_byte_width_2(c) != 10u8) by (bit_vector);
    assert(vstd::utf8::leading_byte_width_3(c) != 10u8) by (bit_vector);
    assert(vstd::utf8::leading_byte_width_4(c) != 10u8) by (bit_vector);
    assert(vstd::utf8::last_continuation_byte(c) != 10u8) by (bit_vector);
    assert(vstd::utf8::second_last_continuation_byte(c) != 10u8) by (bit_vector);
    assert(vstd::utf8::third_last_continuation_byte(c) != 10u8) by (bit_vector);
}

/// Text without a line feed is one line of bytes, so a sender without one
/// keeps a separator on one line.
pub proof fn text_on_one_line_is_one_line(text: Seq<char>)
    requires
        !has_char(text, '\n'),
    ensures
        is_one_line(encode_utf8(text)),
    decreases text.len(),
{
    if text.len() > 0 {
        let rest = text.drop_first();
        assert forall|i: int| 0 <= i < rest.len() implies rest[i] != '\n' by {
            assert(rest[i] == text[i + 1]);
        }
        text_on_one_line_is_one_line(rest);
        let c = text[0];
        assert(c != '\n');
        vstd::utf8::char_u32_cast(c, c as u32);
        encoding_adds_no_line_feed(text[0] as u32);
        let head = encode_scalar(text[0] as u32);
        let bytes = encode_utf8(text);
        assert forall|i: int| 0 <= i < bytes.len() implies #[trigger] bytes[i] != LF by {
            if i < head.len() {
                assert(bytes[i] == head[i]);
            } else {
                assert(bytes[i] == encode_utf8(rest)[i - head.len()]);
            }
        }
    }
}

/// A message as it is exported: who its row says it is from, when, and what
/// it is.
pub struct Exported {
    pub from: Seq<char>,
    pub stamp: Seq<char>,
    pub raw: Seq<u8>,
}

/// What it is written as.
pub open spec fn as_entry(e: Exported) -> Entry {
    Entry { sender: encode_utf8(sender_of(e.from)), stamp: encode_utf8(e.stamp), raw: e.raw }
}

/// So an export splits into the messages that went into it, byte for byte and
/// in their order, as long as no sender has a line feed in it. No stamp has.
pub proof fn an_export_reads_back_whole(all: Seq<Exported>)
    requires
        forall|i: int|
            0 <= i < all.len() ==> !has_char((#[trigger] all[i]).from, '\n') && !has_char(
                all[i].stamp,
                '\n',
            ) && is_as_it_travels(all[i].raw),
    ensures
        messages_in(file(all.map_values(|e: Exported| as_entry(e)))) == all.map_values(
            |e: Exported| e.raw,
        ),
{
    let entries = all.map_values(|e: Exported| as_entry(e));
    reveal_strlit("petrel@localhost");
    assert forall|i: int| 0 <= i < entries.len() implies is_one_line(
        (#[trigger] entries[i]).sender,
    ) && is_one_line(entries[i].stamp) && is_as_it_travels(entries[i].raw) by {
        assert(entries[i] == as_entry(all[i]));
        text_on_one_line_is_one_line(sender_of(all[i].from));
        text_on_one_line_is_one_line(all[i].stamp);
    }
    messages_as_they_travel_read_back_whole(entries);
    assert(entries.map_values(|e: Entry| e.raw) =~= all.map_values(|e: Exported| e.raw));
}

} // verus!
