//! Filter rules: triage somebody wrote down once, applied on arrival.
//!
//! A rule is conditions over the envelope and actions that are the triage
//! verbs there already are. Rules run in the order they were put in, every
//! enabled one that matches, so that two can each contribute.

pub mod days;
pub mod laws;

pub use days::{date_fits, day_start_ms};

use crate::actions::ActionKind;
use crate::message::{or_empty, ParsedMessage};
use crate::text::{
    append_chars, ascii_lowercase, ascii_lowered, chars_of, contains, ends, ends_with, has, join,
    joined, lower, lowered, parse_u64, put, same_chars, starts, starts_with, string_of, texts, trim,
    trimmed, unsigned_number,
};
use vstd::prelude::*;

verus! {

/// How a condition compares. Text and numbers want different questions, so no
/// field takes all of these.
#[derive(Debug, Clone, Copy, PartialEq, Eq, Structural)]
pub enum Op {
    Contains,
    NotContains,
    Is,
    IsNot,
    StartsWith,
    NotStartsWith,
    EndsWith,
    NotEndsWith,
    /// Size, in kilobytes as it was typed.
    Over,
    Under,
    /// Sent date, against a `YYYY-MM-DD`.
    Before,
    After,
}

pub open spec fn is_negated(op: Op) -> bool {
    op == Op::NotContains || op == Op::IsNot || op == Op::NotStartsWith || op == Op::NotEndsWith
}

impl Op {
    /// The negations, so that each test is stated once and flipped.
    pub fn negated(self) -> (r: bool)
        ensures
            r == is_negated(self),
    {
        matches!(self, Op::NotContains | Op::IsNot | Op::NotStartsWith | Op::NotEndsWith)
    }
}

/// One thing that must be true of the message. All of a rule's conditions
/// must hold; two alternatives are two rules.
#[derive(Debug, Clone, PartialEq, Eq)]
pub struct Condition {
    /// from | to | cc | subject | list_id | body | header | size | date
    pub field: String,
    /// Which header, when `field` is `header`.
    pub header: Option<String>,
    pub op: Op,
    pub value: String,
}

/// What a matching rule does. Any subset of these.
#[derive(Debug, Clone, PartialEq, Eq)]
pub struct Actions {
    pub move_to: Option<i64>,
    pub tag: Option<i64>,
    pub mark_read: bool,
    pub skip_inbox: bool,
    /// Announce this arrival even though the rule files it away.
    pub notify: bool,
}

impl Default for Actions {
    fn default() -> (a: Self)
        ensures
            a.move_to is None,
            a.tag is None,
            !a.mark_read,
            !a.skip_inbox,
            !a.notify,
    {
        Actions { move_to: None, tag: None, mark_read: false, skip_inbox: false, notify: false }
    }
}

#[derive(Debug, Clone, PartialEq, Eq)]
pub struct Rule {
    pub id: i64,
    pub position: i64,
    pub enabled: bool,
    pub name: String,
    pub conditions: Vec<Condition>,
    pub actions: Actions,
}

/// The envelope a rule can see, everything lowercased once when it is built.
#[derive(Debug)]
pub struct Envelope {
    pub from: String,
    pub to: String,
    pub cc: String,
    pub subject: String,
    pub list_id: String,
    /// The text as the index sees it. Matching markup would let a rule for
    /// "invoice" fire on a style sheet.
    pub body: String,
    /// Whole bytes on the wire.
    pub size: u64,
    /// When the message says it was sent, in milliseconds.
    pub date_ms: i64,
    /// Every header: the name in lower case, the value as written.
    pub headers: Vec<(String, String)>,
}

impl Default for Envelope {
    fn default() -> (e: Self)
        ensures
            e.from@.len() == 0,
            e.to@.len() == 0,
            e.cc@.len() == 0,
            e.subject@.len() == 0,
            e.list_id@.len() == 0,
            e.body@.len() == 0,
            e.size == 0,
            e.date_ms == 0,
            e.headers@.len() == 0,
    {
        Envelope {
            from: String::new(),
            to: String::new(),
            cc: String::new(),
            subject: String::new(),
            list_id: String::new(),
            body: String::new(),
            size: 0,
            date_ms: 0,
            headers: Vec::new(),
        }
    }
}

// ---------------------------------------------------------------------
// The envelope of a message
// ---------------------------------------------------------------------
/// An address with the name in front, where there is one.
pub open spec fn named(display: Option<String>, addr: Seq<char>) -> Seq<char> {
    match display {
        Some(d) => if d@.len() > 0 {
            d@ + " "@ + addr
        } else {
            addr
        },
        None => addr,
    }
}

pub open spec fn named_each(addrs: Seq<(Option<String>, String)>) -> Seq<Seq<char>> {
    addrs.map_values(|a: (Option<String>, String)| named(a.0, a.1@))
}

/// Addresses with their names, one after the other.
pub open spec fn listed(addrs: Seq<(Option<String>, String)>) -> Seq<char> {
    joined(named_each(addrs), ", "@)
}

fn name_and_address(display: &Option<String>, addr: &str) -> (out: Vec<char>)
    ensures
        out@ == named(*display, addr@),
{
    let mut out: Vec<char> = Vec::new();
    match display {
        Some(d) => {
            let name = chars_of(d);
            if name.len() > 0 {
                append_chars(&mut out, &name);
                put(&mut out, " ");
            }
        },
        None => {},
    }
    put(&mut out, addr);
    assert(out@ =~= named(*display, addr@));
    out
}

fn list_of(addrs: &Vec<(Option<String>, String)>) -> (out: String)
    ensures
        out@ == listed(addrs@),
{
    let mut parts: Vec<Vec<char>> = Vec::new();
    let mut i: usize = 0;
    assert(texts(parts@) =~= named_each(addrs@.take(0)));
    while i < addrs.len()
        invariant
            i <= addrs@.len(),
            texts(parts@) == named_each(addrs@.take(i as int)),
        decreases addrs@.len() - i,
    {
        let ghost before = parts@;
        parts.push(name_and_address(&addrs[i].0, &addrs[i].1));
        assert(addrs@.take(i + 1) =~= addrs@.take(i as int).push(addrs@[i as int]));
        assert(texts(parts@) =~= texts(before).push(parts@.last()@));
        assert(texts(parts@) =~= named_each(addrs@.take(i + 1)));
        i += 1;
    }
    assert(addrs@.take(i as int) =~= addrs@);
    string_of(&join(&parts, ", "))
}

/// The pairs of two lists of headers hold the same texts.
pub open spec fn same_headers(a: Seq<(String, String)>, b: Seq<(String, String)>) -> bool {
    a.len() == b.len() && forall|i: int|
        0 <= i < a.len() ==> (#[trigger] a[i]).0@ == b[i].0@ && a[i].1@ == b[i].1@
}

fn copy_headers(headers: &Vec<(String, String)>) -> (out: Vec<(String, String)>)
    ensures
        same_headers(out@, headers@),
{
    let mut out: Vec<(String, String)> = Vec::new();
    let mut i: usize = 0;
    while i < headers.len()
        invariant
            i <= headers@.len(),
            same_headers(out@, headers@.take(i as int)),
        decreases headers@.len() - i,
    {
        out.push((string_of(&chars_of(&headers[i].0)), string_of(&chars_of(&headers[i].1))));
        i += 1;
    }
    out
}

fn lowered_or_empty(s: &Option<String>) -> (out: String)
    ensures
        out@ == lower(or_empty(*s)),
{
    match s {
        Some(t) => lowered(t),
        None => {
            let empty = String::new();
            assert(empty@ =~= Seq::<char>::empty());
            lowered(&empty)
        },
    }
}

impl Envelope {
    pub fn new(from: &str, to: &str, subject: &str, list_id: &str) -> (e: Self)
        ensures
            e.from@ == lower(from@),
            e.to@ == lower(to@),
            e.subject@ == lower(subject@),
            e.list_id@ == lower(list_id@),
            e.cc@.len() == 0,
            e.body@.len() == 0,
            e.size == 0,
            e.date_ms == 0,
            e.headers@.len() == 0,
    {
        let rest = Envelope::default();
        Envelope {
            from: lowered(from),
            to: lowered(to),
            cc: rest.cc,
            subject: lowered(subject),
            list_id: lowered(list_id),
            body: rest.body,
            size: rest.size,
            date_ms: rest.date_ms,
            headers: rest.headers,
        }
    }

    /// The envelope as a rule sees a real message.
    ///
    /// Both sides carry display names: matching a recipient by name is what
    /// every client does. Cc is not folded into To, because a condition that
    /// says To and means more cannot be reasoned about.
    pub fn from_message(parsed: &ParsedMessage, size: u64) -> (e: Self)
        ensures
            e.from@ == lower(named(parsed.from_display, or_empty(parsed.from_addr))),
            e.to@ == lower(listed(parsed.to@)),
            e.cc@ == lower(listed(parsed.cc@)),
            e.subject@ == lower(or_empty(parsed.subject)),
            e.list_id@ == lower(or_empty(parsed.list_id)),
            e.body@ == lower(parsed.index_text@),
            e.size == size,
            e.date_ms == match parsed.date_ms {
                Some(ms) => ms,
                None => 0,
            },
            same_headers(e.headers@, parsed.headers@),
    {
        let addr = match &parsed.from_addr {
            Some(a) => string_of(&chars_of(a)),
            None => String::new(),
        };
        assert(addr@ =~= or_empty(parsed.from_addr));
        Envelope {
            from: lowered(&string_of(&name_and_address(&parsed.from_display, &addr))),
            to: lowered(&list_of(&parsed.to)),
            cc: lowered(&list_of(&parsed.cc)),
            subject: lowered_or_empty(&parsed.subject),
            list_id: lowered_or_empty(&parsed.list_id),
            body: lowered(&parsed.index_text),
            size,
            date_ms: match parsed.date_ms {
                Some(ms) => ms,
                None => 0,
            },
            headers: copy_headers(&parsed.headers),
        }
    }
}

// ---------------------------------------------------------------------
// One condition
// ---------------------------------------------------------------------
/// Whether text holds what a condition asks, before any negation. A number's
/// question asked of text never holds.
pub open spec fn plainly_holds(hay: Seq<char>, op: Op, needle: Seq<char>) -> bool {
    match op {
        Op::Contains | Op::NotContains => has(hay, needle),
        Op::Is | Op::IsNot => hay == needle,
        Op::StartsWith | Op::NotStartsWith => starts(hay, needle),
        Op::EndsWith | Op::NotEndsWith => ends(hay, needle),
        Op::Over | Op::Under | Op::Before | Op::After => false,
    }
}

pub open spec fn is_about_text(op: Op) -> bool {
    op != Op::Over && op != Op::Under && op != Op::Before && op != Op::After
}

/// Whether one text satisfies one condition. A half-written condition matches
/// nothing, whichever way it is phrased.
pub open spec fn text_test(hay: Seq<char>, op: Op, needle: Seq<char>) -> bool {
    needle.len() > 0 && is_about_text(op) && plainly_holds(hay, op, lower(needle)) != is_negated(op)
}

/// Whether one text satisfies one condition. The text is in lower case, as an
/// envelope holds it; the needle is lowered here.
pub fn text_holds(hay: &str, op: Op, needle: &str) -> (r: bool)
    ensures
        r == text_test(hay@, op, needle@),
{
    if chars_of(needle).len() == 0 {
        return false;
    }
    let hay_chars = chars_of(hay);
    let low = chars_of(&lowered(needle));
    let plain = match op {
        Op::Contains | Op::NotContains => contains(&hay_chars, &low),
        Op::Is | Op::IsNot => same_chars(&hay_chars, &low),
        Op::StartsWith | Op::NotStartsWith => starts_with(&hay_chars, &low),
        Op::EndsWith | Op::NotEndsWith => ends_with(&hay_chars, &low),
        Op::Over | Op::Under | Op::Before | Op::After => {
            return false;
        },
    };
    plain != op.negated()
}

/// A header is any of its copies for a plain question, and all of them for a
/// negative one: "does not contain" is not met on the strength of one
/// innocent copy. One that is not there contains nothing. But a half-written
/// condition matches nothing here either, header or no header.
pub open spec fn header_test(
    headers: Seq<(String, String)>,
    name: Seq<char>,
    op: Op,
    needle: Seq<char>,
) -> bool {
    needle.len() > 0 && if is_negated(op) {
        forall|i: int|
            0 <= i < headers.len() && (#[trigger] headers[i]).0@ == name ==> text_test(
                lower(headers[i].1@),
                op,
                needle,
            )
    } else {
        exists|i: int|
            0 <= i < headers.len() && (#[trigger] headers[i]).0@ == name && text_test(
                lower(headers[i].1@),
                op,
                needle,
            )
    }
}

fn header_holds(headers: &Vec<(String, String)>, name: &Vec<char>, op: Op, needle: &str) -> (r:
    bool)
    ensures
        r == header_test(headers@, name@, op, needle@),
{
    if chars_of(needle).len() == 0 {
        return false;
    }
    let negated = op.negated();
    let mut i: usize = 0;
    while i < headers.len()
        invariant
            i <= headers@.len(),
            needle@.len() > 0,
            negated == is_negated(op),
            forall|j: int|
                0 <= j < i && (#[trigger] headers@[j]).0@ == name@ ==> text_test(
                    lower(headers@[j].1@),
                    op,
                    needle@,
                ) == negated,
        decreases headers@.len() - i,
    {
        if same_chars(&chars_of(&headers[i].0), name) {
            let held = text_holds(&lowered(&headers[i].1), op, needle);
            if held != negated {
                assert(headers@[i as int].0@ == name@);
                return held;
            }
        }
        i += 1;
    }
    negated
}

/// How many bytes a size condition speaks of: kilobytes as typed.
pub open spec fn asked_bytes(value: Seq<char>) -> Option<int> {
    match unsigned_number(trim(value)) {
        Some(kb) => if kb > u64::MAX {
            None
        } else if kb * 1024 > u64::MAX {
            Some(u64::MAX as int)
        } else {
            Some(kb as int * 1024)
        },
        None => None,
    }
}

pub open spec fn size_test(size: int, op: Op, value: Seq<char>) -> bool {
    match (asked_bytes(value), op) {
        (Some(bytes), Op::Over) => size > bytes,
        (Some(bytes), Op::Under) => size < bytes,
        _ => false,
    }
}

fn size_holds(size: u64, op: Op, value: &str) -> (r: bool)
    ensures
        r == size_test(size as int, op, value@),
{
    let chars = chars_of(value);
    let kb: u64 = match parse_u64(trimmed(&chars)) {
        None => {
            return false;
        },
        Some(kb) => kb,
    };
    let bytes: u64 = if kb > 18014398509481983u64 {
        u64::MAX
    } else {
        kb * 1024
    };
    match op {
        Op::Over => size > bytes,
        Op::Under => size < bytes,
        _ => false,
    }
}

/// "Before the 5th" leaves out the 5th, and "after the 5th" starts at the
/// 6th.
pub open spec fn date_test(date_ms: int, op: Op, value: Seq<char>) -> bool {
    match (days::day_start(value), op) {
        (Some(at), Op::Before) => date_ms < at,
        (Some(at), Op::After) => date_ms >= at + 86_400_000,
        _ => false,
    }
}

/// Whether a condition's day can be counted in milliseconds. Every day for
/// hundreds of millions of years can.
pub open spec fn can_be_dated(c: Condition) -> bool {
    c.field@ == "date"@ ==> days::fits(c.value@)
}

/// Whether one condition holds. A field that is not known never matches,
/// rather than matching everything.
pub open spec fn condition_holds(c: Condition, e: Envelope) -> bool {
    if c.field@ == "from"@ {
        text_test(e.from@, c.op, c.value@)
    } else if c.field@ == "to"@ {
        text_test(e.to@, c.op, c.value@)
    } else if c.field@ == "cc"@ {
        text_test(e.cc@, c.op, c.value@)
    } else if c.field@ == "subject"@ {
        text_test(e.subject@, c.op, c.value@)
    } else if c.field@ == "list_id"@ {
        text_test(e.list_id@, c.op, c.value@)
    } else if c.field@ == "body"@ {
        text_test(e.body@, c.op, c.value@)
    } else if c.field@ == "header"@ {
        match c.header {
            Some(name) => header_test(e.headers@, ascii_lowercase(name@), c.op, c.value@),
            None => false,
        }
    } else if c.field@ == "size"@ {
        size_test(e.size as int, c.op, c.value@)
    } else if c.field@ == "date"@ {
        date_test(e.date_ms as int, c.op, c.value@)
    } else {
        false
    }
}

fn is(field: &Vec<char>, name: &str) -> (r: bool)
    ensures
        r == (field@ == name@),
{
    same_chars(field, &chars_of(name))
}

/// Whether one condition holds.
pub fn holds(c: &Condition, envelope: &Envelope) -> (r: bool)
    requires
        can_be_dated(*c),
    ensures
        r == condition_holds(*c, *envelope),
{
    let field = chars_of(&c.field);
    if is(&field, "from") {
        text_holds(&envelope.from, c.op, &c.value)
    } else if is(&field, "to") {
        text_holds(&envelope.to, c.op, &c.value)
    } else if is(&field, "cc") {
        text_holds(&envelope.cc, c.op, &c.value)
    } else if is(&field, "subject") {
        text_holds(&envelope.subject, c.op, &c.value)
    } else if is(&field, "list_id") {
        text_holds(&envelope.list_id, c.op, &c.value)
    } else if is(&field, "body") {
        text_holds(&envelope.body, c.op, &c.value)
    } else if is(&field, "header") {
        match &c.header {
            None => false,
            Some(name) => {
                let low = ascii_lowered(&chars_of(name));
                header_holds(&envelope.headers, &low, c.op, &c.value)
            },
        }
    } else if is(&field, "size") {
        size_holds(envelope.size, c.op, &c.value)
    } else if is(&field, "date") {
        match day_start_ms(&c.value) {
            None => false,
            Some(at) => match c.op {
                Op::Before => envelope.date_ms < at,
                Op::After => envelope.date_ms >= at + 86_400_000,
                _ => false,
            },
        }
    } else {
        false
    }
}

// ---------------------------------------------------------------------
// A rule
// ---------------------------------------------------------------------
/// Whether a rule matches: it is enabled, it asks something, and everything
/// it asks holds.
pub open spec fn rule_matches(rule: Rule, e: Envelope) -> bool {
    rule.enabled && rule.conditions@.len() > 0 && forall|i: int|
        0 <= i < rule.conditions@.len() ==> condition_holds(#[trigger] rule.conditions@[i], e)
}

/// Whether every condition holds. A rule with no conditions matches nothing:
/// one that matched everything would refile the whole inbox the moment it was
/// half made.
pub fn matches(rule: &Rule, envelope: &Envelope) -> (r: bool)
    requires
        forall|i: int| 0 <= i < rule.conditions@.len() ==> can_be_dated(#[trigger] rule.conditions@[i]),
    ensures
        r == rule_matches(*rule, *envelope),
{
    if !rule.enabled || rule.conditions.len() == 0 {
        return false;
    }
    let mut i: usize = 0;
    while i < rule.conditions.len()
        invariant
            i <= rule.conditions@.len(),
            forall|j: int|
                0 <= j < rule.conditions@.len() ==> can_be_dated(#[trigger] rule.conditions@[j]),
            forall|j: int|
                0 <= j < i ==> condition_holds(#[trigger] rule.conditions@[j], *envelope),
        decreases rule.conditions@.len() - i,
    {
        if !holds(&rule.conditions[i], envelope) {
            assert(!condition_holds(rule.conditions@[i as int], *envelope));
            return false;
        }
        i += 1;
    }
    true
}

/// What a rule's actions come to, in the order they must run. Skipping the
/// inbox is archiving, and archiving after a move would throw the move away:
/// where a destination is named, the move is the skip.
pub open spec fn planned(a: Actions) -> Seq<(ActionKind, Option<i64>)> {
    let filed = match a.move_to {
        Some(folder) => seq![(ActionKind::Move, Some(folder))],
        None => if a.skip_inbox {
            seq![(ActionKind::Archive, None)]
        } else {
            Seq::empty()
        },
    };
    let tagged = match a.tag {
        Some(tag) => seq![(ActionKind::Tag, Some(tag))],
        None => Seq::empty(),
    };
    let read = if a.mark_read {
        seq![(ActionKind::MarkRead, None)]
    } else {
        Seq::empty()
    };
    filed + tagged + read
}

/// The triage actions a matching rule queues, in the order they must run.
pub fn planned_actions(a: &Actions) -> (acts: Vec<(ActionKind, Option<i64>)>)
    ensures
        acts@ == planned(*a),
{
    let mut acts: Vec<(ActionKind, Option<i64>)> = Vec::new();
    match a.move_to {
        Some(folder) => {
            acts.push((ActionKind::Move, Some(folder)));
        },
        None => {
            if a.skip_inbox {
                acts.push((ActionKind::Archive, None));
            }
        },
    }
    if let Some(tag) = a.tag {
        acts.push((ActionKind::Tag, Some(tag)));
    }
    if a.mark_read {
        acts.push((ActionKind::MarkRead, None));
    }
    assert(acts@ =~= planned(*a));
    acts
}

} // verus!
