//! From the characters of the field to its pieces.

use crate::text::{
    ascii_lowercase, ascii_lowered, control, is_ctrl, is_white, same_chars, whitespace,
};
use vstd::prelude::*;
use vstd::slice::slice_subrange;

verus! {

/// One whitespace-separated piece of the field, with its quote marks taken
/// off and a note of where the first one was.
pub struct Piece {
    pub text: Vec<char>,
    /// How much of `text` came before the first quote mark. `Some(0)` is a
    /// phrase, `from:"Dana Wu"` is `Some(5)`, and a bare word is `None`.
    pub quote_at: Option<usize>,
}

pub enum Lexeme {
    Open,
    Close,
    /// The `-` of `-(`: it excludes the group, and is never a word.
    Minus,
    /// The `from:` of `from:(sam OR dana)`: the operator the group is given.
    Shared(Vec<char>),
    Piece(Piece),
}

#[verifier::ext_equal]
pub struct Chunk {
    pub text: Seq<char>,
    pub quote_at: Option<int>,
}

#[verifier::ext_equal]
pub enum Mark {
    Open,
    Close,
    Minus,
    Shared(Seq<char>),
    Piece(Chunk),
}

impl View for Piece {
    type V = Chunk;

    open spec fn view(&self) -> Chunk {
        Chunk {
            text: self.text@,
            quote_at: match self.quote_at {
                Some(at) => Some(at as int),
                None => None,
            },
        }
    }
}

impl View for Lexeme {
    type V = Mark;

    open spec fn view(&self) -> Mark {
        match self {
            Lexeme::Open => Mark::Open,
            Lexeme::Close => Mark::Close,
            Lexeme::Minus => Mark::Minus,
            Lexeme::Shared(key) => Mark::Shared(key@),
            Lexeme::Piece(piece) => Mark::Piece(piece@),
        }
    }
}

pub open spec fn marks(lexemes: Seq<Lexeme>) -> Seq<Mark> {
    lexemes.map_values(|lexeme: Lexeme| lexeme@)
}

/// Curly quotes count as quotes: they are swapped in for straight ones in
/// plenty of places a query might be copied from, and mean nothing else here.
pub open spec fn is_quote_mark(c: char) -> bool {
    c == '"' || c == '\u{201C}' || c == '\u{201D}' || c == '\u{201E}'
}

/// Control characters break a full-text index's own string parser even inside
/// quotes, so they are spacing before they are anything else.
pub open spec fn is_spacing(c: char) -> bool {
    is_white(c) || is_ctrl(c)
}

pub open spec fn is_keyword(s: Seq<char>) -> bool {
    s == "AND"@ || s == "OR"@ || s == "NOT"@
}

/// The operators a bracket can be shared between. Every operator that takes a
/// word or a state: the three dates are left out, and a bracket after one of
/// those stays an ordinary group.
pub open spec fn is_shareable(key: Seq<char>) -> bool {
    key == "from"@ || key == "to"@ || key == "cc"@ || key == "subject"@ || key == "in"@ || key
        == "tag"@ || key == "filename"@ || key == "is"@ || key == "has"@
}

/// How many dashes a text begins with.
pub open spec fn dashes(s: Seq<char>) -> int
    decreases s.len(),
{
    if s.len() > 0 && s[0] == '-' {
        1 + dashes(s.skip(1))
    } else {
        0
    }
}

pub proof fn dashes_are_a_prefix(s: Seq<char>)
    ensures
        0 <= dashes(s) <= s.len(),
        forall|i: int| 0 <= i < dashes(s) ==> s[i] == '-',
        dashes(s) < s.len() ==> s[dashes(s)] != '-',
    decreases s.len(),
{
    if s.len() > 0 && s[0] == '-' {
        let rest = s.skip(1);
        dashes_are_a_prefix(rest);
        assert forall|i: int| 0 <= i < dashes(s) implies s[i] == '-' by {
            if i > 0 {
                assert(rest[i - 1] == '-');
            }
        }
        if dashes(s) < s.len() {
            assert(rest[dashes(rest)] == s[dashes(s)]);
        }
    }
}

/// The operator a `(` is about to be given, if it is: `from:(`, `-tag:(`.
pub open spec fn shared_key_of(text: Seq<char>) -> Option<Seq<char>> {
    let bare = text.skip(dashes(text));
    if bare.len() > 0 && bare.last() == ':' && is_shareable(ascii_lowercase(bare.drop_last())) {
        Some(ascii_lowercase(bare.drop_last()))
    } else {
        None
    }
}

/// Where the reading of the field has got to.
#[verifier::ext_equal]
pub struct Lexing {
    pub out: Seq<Mark>,
    pub text: Seq<char>,
    pub quote_at: Option<int>,
    pub quoted: bool,
    /// What is open, so that a `)` only closes something that exists.
    pub depth: nat,
}

impl Lexing {
    pub open spec fn start() -> Lexing {
        Lexing { out: Seq::empty(), text: Seq::empty(), quote_at: None, quoted: false, depth: 0 }
    }

    /// The piece being read, finished.
    pub open spec fn flushed(self) -> Lexing {
        Lexing {
            out: if self.text.len() > 0 {
                self.out.push(Mark::Piece(Chunk { text: self.text, quote_at: self.quote_at }))
            } else {
                self.out
            },
            text: Seq::empty(),
            quote_at: None,
            ..self
        }
    }

    pub open spec fn opening(self, before: Seq<Mark>) -> Lexing {
        Lexing {
            out: self.out + before.push(Mark::Open),
            text: Seq::empty(),
            depth: self.depth + 1,
            ..self
        }
    }

    /// One more character, with the one after it.
    ///
    /// A bracket groups only where it could not be part of a word: opening at
    /// the start of one or after an operator's colon, closing at the end of
    /// one and only while a bracket is open. So `foo(bar` and `a)b` are text,
    /// and so are `fn(x)` and `:)`.
    pub open spec fn next(self, c: char, after: Option<char>) -> Lexing {
        let bare = !self.quoted && self.quote_at is None;
        if is_quote_mark(c) {
            Lexing {
                quoted: !self.quoted,
                quote_at: match self.quote_at {
                    Some(at) => Some(at),
                    None => Some(self.text.len() as int),
                },
                ..self
            }
        } else if is_spacing(c) {
            if !self.quoted {
                self.flushed()
            } else if self.text.len() > 0 && self.text.last() == ' ' {
                self
            } else {
                // One space however it was typed.
                Lexing { text: self.text.push(' '), ..self }
            }
        } else if c == '(' && bare && self.text.len() == 0 {
            self.opening(Seq::empty())
        } else if c == '(' && bare && dashes(self.text) == self.text.len() {
            // However many dashes, one exclusion.
            self.opening(seq![Mark::Minus])
        } else if c == '(' && bare && shared_key_of(self.text) is Some {
            let key = Mark::Shared(shared_key_of(self.text)->0);
            self.opening(
                if dashes(self.text) > 0 {
                    seq![Mark::Minus, key]
                } else {
                    seq![key]
                },
            )
        } else if c == '(' && bare && is_keyword(self.text) {
            // `NOT(a OR b)`, with no space, is what half of everyone types.
            self.flushed().opening(Seq::empty())
        } else if c == ')' && !self.quoted && self.depth > 0 && ends_a_word(after) {
            let done = self.flushed();
            Lexing { out: done.out.push(Mark::Close), depth: (self.depth - 1) as nat, ..done }
        } else {
            Lexing { text: self.text.push(c), ..self }
        }
    }
}

/// Whether a `)` with this after it can close a group.
pub open spec fn ends_a_word(after: Option<char>) -> bool {
    match after {
        Some(c) => c == ')' || is_spacing(c),
        None => true,
    }
}

/// Reading on through some characters, with the one that comes after them.
pub open spec fn lexed(from: Lexing, s: Seq<char>, after: Option<char>) -> Lexing
    decreases s.len(),
{
    if s.len() == 0 {
        from
    } else {
        lexed(from, s.drop_last(), Some(s.last())).next(s.last(), after)
    }
}

/// The pieces of a field.
pub open spec fn marks_of(s: Seq<char>) -> Seq<Mark> {
    lexed(Lexing::start(), s, None).flushed().out
}

/// The operator a `(` is about to be given, if it is: `from:(`, `-tag:(`.
pub fn shared_key(text: &[char]) -> (key: Option<Vec<char>>)
    ensures
        match key {
            Some(k) => shared_key_of(text@) == Some(k@),
            None => shared_key_of(text@) is None,
        },
{
    let skipped = leading_dashes(text);
    if skipped == text.len() || text[text.len() - 1] != ':' {
        assert(text@.skip(skipped as int).len() > 0 ==> text@.skip(skipped as int).last()
            == text@.last());
        return None;
    }
    let bare = slice_subrange(text, skipped, text.len() - 1);
    assert(bare@ =~= text@.skip(skipped as int).drop_last());
    let key = ascii_lowered(bare);
    if shareable(&key) {
        Some(key)
    } else {
        None
    }
}

pub fn leading_dashes(s: &[char]) -> (n: usize)
    ensures
        n == dashes(s@),
        n <= s@.len(),
{
    let mut i: usize = 0;
    assert(s@.skip(0) =~= s@);
    while i < s.len() && s[i] == '-'
        invariant
            i <= s@.len(),
            dashes(s@) == i + dashes(s@.skip(i as int)),
        decreases s@.len() - i,
    {
        assert(s@.skip(i as int).skip(1) =~= s@.skip(i + 1));
        i += 1;
    }
    i
}

pub fn is_literal(s: &[char], literal: &str) -> (r: bool)
    ensures
        r == (s@ == literal@),
{
    same_chars(s, &crate::text::chars_of(literal))
}

fn shareable(key: &[char]) -> (r: bool)
    ensures
        r == is_shareable(key@),
{
    is_literal(key, "from") || is_literal(key, "to") || is_literal(key, "cc") || is_literal(
        key,
        "subject",
    ) || is_literal(key, "in") || is_literal(key, "tag") || is_literal(key, "filename")
        || is_literal(key, "is") || is_literal(key, "has")
}

fn keyword(s: &[char]) -> (r: bool)
    ensures
        r == is_keyword(s@),
{
    is_literal(s, "AND") || is_literal(s, "OR") || is_literal(s, "NOT")
}

pub fn quote_mark(c: char) -> (r: bool)
    ensures
        r == is_quote_mark(c),
{
    c == '"' || c == '\u{201C}' || c == '\u{201D}' || c == '\u{201E}'
}

pub fn spacing(c: char) -> (r: bool)
    ensures
        r == is_spacing(c),
{
    whitespace(c) || control(c)
}

fn closes_a_word(after: Option<char>) -> (r: bool)
    ensures
        r == ends_a_word(after),
{
    match after {
        Some(c) => c == ')' || spacing(c),
        None => true,
    }
}

/// The reading of the field, under way.
struct Lexer {
    out: Vec<Lexeme>,
    text: Vec<char>,
    quote_at: Option<usize>,
    quoted: bool,
    depth: usize,
}

impl View for Lexer {
    type V = Lexing;

    closed spec fn view(&self) -> Lexing {
        Lexing {
            out: marks(self.out@),
            text: self.text@,
            quote_at: match self.quote_at {
                Some(at) => Some(at as int),
                None => None,
            },
            quoted: self.quoted,
            depth: self.depth as nat,
        }
    }
}

impl Lexer {
    fn flush(&mut self)
        ensures
            final(self)@ == old(self)@.flushed(),
    {
        let quote_at = self.quote_at.take();
        if self.text.len() > 0 {
            let mut text: Vec<char> = Vec::new();
            std::mem::swap(&mut text, &mut self.text);
            self.put(Lexeme::Piece(Piece { text, quote_at }));
        }
        assert(self.text@ =~= Seq::<char>::empty());
    }

    fn put(&mut self, lexeme: Lexeme)
        ensures
            final(self)@ == (Lexing { out: old(self)@.out.push(lexeme@), ..old(self)@ }),
    {
        self.out.push(lexeme);
        assert(marks(self.out@) =~= marks(old(self).out@).push(lexeme@));
    }

    fn open(&mut self)
        requires
            old(self).depth < usize::MAX,
        ensures
            final(self)@ == old(self)@.opening(Seq::empty()),
    {
        self.text.clear();
        self.depth = self.depth + 1;
        self.put(Lexeme::Open);
        assert(self@.out =~= old(self)@.opening(Seq::empty()).out);
    }

    fn step(&mut self, c: char, after: Option<char>)
        requires
            old(self).depth < usize::MAX,
        ensures
            final(self)@ == old(self)@.next(c, after),
            final(self).depth <= old(self).depth + 1,
    {
        let bare = !self.quoted && self.quote_at.is_none();
        if quote_mark(c) {
            self.quoted = !self.quoted;
            if self.quote_at.is_none() {
                self.quote_at = Some(self.text.len());
            }
        } else if spacing(c) {
            if !self.quoted {
                self.flush();
            } else if !(self.text.len() > 0 && self.text[self.text.len() - 1] == ' ') {
                self.text.push(' ');
            }
        } else if c == '(' && bare && self.text.len() == 0 {
            self.open();
        } else if c == '(' && bare && leading_dashes(&self.text) == self.text.len() {
            self.put(Lexeme::Minus);
            self.open();
            assert(self@.out =~= old(self)@.opening(seq![Mark::Minus]).out);
        } else if c == '(' && bare && shared_key(&self.text).is_some() {
            let excluded = leading_dashes(&self.text) > 0;
            if let Some(key) = shared_key(&self.text) {
                let ghost name = key@;
                if excluded {
                    self.put(Lexeme::Minus);
                }
                self.put(Lexeme::Shared(key));
                self.open();
                assert(self@.out =~= old(self)@.next(c, after).out);
            }
        } else if c == '(' && bare && keyword(&self.text) {
            self.flush();
            self.open();
        } else if c == ')' && !self.quoted && self.depth > 0 && closes_a_word(after) {
            self.flush();
            self.depth = self.depth - 1;
            self.put(Lexeme::Close);
        } else {
            self.text.push(c);
        }
    }
}

/// Splits on whitespace, but keeps `from:"Dana Wu"` and `"board pack"`
/// together, and takes brackets off the ends of words.
///
/// A quote that is never closed runs to the end, which is what a phrase looks
/// like while it is still being typed.
pub fn lex(input: &[char]) -> (out: Vec<Lexeme>)
    ensures
        marks(out@) == marks_of(input@),
{
    let mut lexer = Lexer {
        out: Vec::new(),
        text: Vec::new(),
        quote_at: None,
        quoted: false,
        depth: 0,
    };
    let mut i: usize = 0;
    assert(lexer@ =~= Lexing::start());
    while i < input.len()
        invariant
            i <= input@.len(),
            lexer.depth <= i,
            lexer@ == lexed(
                Lexing::start(),
                input@.take(i as int),
                if i < input@.len() {
                    Some(input@[i as int])
                } else {
                    None
                },
            ),
        decreases input@.len() - i,
    {
        let after = if i + 1 < input.len() {
            Some(input[i + 1])
        } else {
            None
        };
        assert(input@.take(i + 1).drop_last() =~= input@.take(i as int));
        lexer.step(input[i], after);
        i += 1;
    }
    assert(input@.take(i as int) =~= input@);
    lexer.flush();
    lexer.out
}

// ---------------------------------------------------------------------
// What the pieces are like
// ---------------------------------------------------------------------
/// How many brackets are open after some pieces.
pub open spec fn mark_depth(marks: Seq<Mark>) -> int
    decreases marks.len(),
{
    if marks.len() == 0 {
        0
    } else {
        mark_depth(marks.drop_last()) + match marks.last() {
            Mark::Open => 1int,
            Mark::Close => -1int,
            _ => 0int,
        }
    }
}

/// A quote mark stood somewhere in the piece it is noted in.
pub open spec fn quote_is_inside(piece: Chunk) -> bool {
    piece.quote_at matches Some(at) ==> 0 <= at <= piece.text.len()
}

pub open spec fn mark_ok(mark: Mark) -> bool {
    mark matches Mark::Piece(piece) ==> quote_is_inside(piece)
}

/// No bracket closes that was not opened, and every piece is in order.
pub open spec fn marks_ok(marks: Seq<Mark>) -> bool
    decreases marks.len(),
{
    marks.len() == 0 || (marks_ok(marks.drop_last()) && mark_ok(marks.last()) && mark_depth(marks)
        >= 0)
}

pub open spec fn lexing_ok(now: Lexing) -> bool {
    &&& marks_ok(now.out)
    &&& mark_depth(now.out) == now.depth
    &&& now.quote_at matches Some(at) ==> 0 <= at <= now.text.len()
}

proof fn one_more_mark(out: Seq<Mark>, mark: Mark)
    requires
        marks_ok(out),
        mark_ok(mark),
        mark is Close ==> mark_depth(out) > 0,
        mark_depth(out) >= 0,
    ensures
        marks_ok(out.push(mark)),
        mark_depth(out.push(mark)) == mark_depth(out) + match mark {
            Mark::Open => 1int,
            Mark::Close => -1int,
            _ => 0int,
        },
{
    assert(out.push(mark).drop_last() =~= out);
}

proof fn next_keeps_order(now: Lexing, c: char, after: Option<char>)
    requires
        lexing_ok(now),
    ensures
        lexing_ok(now.next(c, after)),
{
    let piece = Mark::Piece(Chunk { text: now.text, quote_at: now.quote_at });
    one_more_mark(now.out, piece);
    one_more_mark(now.out, Mark::Open);
    one_more_mark(now.out.push(piece), Mark::Open);
    if now.depth > 0 {
        one_more_mark(now.out, Mark::Close);
        one_more_mark(now.out.push(piece), Mark::Close);
    }
    one_more_mark(now.out, Mark::Minus);
    one_more_mark(now.out.push(Mark::Minus), Mark::Open);
    assert(now.out + Seq::<Mark>::empty().push(Mark::Open) =~= now.out.push(Mark::Open));
    assert(now.out.push(piece) + Seq::<Mark>::empty().push(Mark::Open) =~= now.out.push(
        piece,
    ).push(Mark::Open));
    assert(now.out + seq![Mark::Minus].push(Mark::Open) =~= now.out.push(Mark::Minus).push(
        Mark::Open,
    ));
    if shared_key_of(now.text) is Some {
        let key = Mark::Shared(shared_key_of(now.text)->0);
        one_more_mark(now.out, key);
        one_more_mark(now.out.push(key), Mark::Open);
        one_more_mark(now.out.push(Mark::Minus), key);
        one_more_mark(now.out.push(Mark::Minus).push(key), Mark::Open);
        assert(now.out + seq![key].push(Mark::Open) =~= now.out.push(key).push(Mark::Open));
        assert(now.out + seq![Mark::Minus, key].push(Mark::Open) =~= now.out.push(
            Mark::Minus,
        ).push(key).push(Mark::Open));
    }
}

pub proof fn lexed_in_order(from: Lexing, s: Seq<char>, after: Option<char>)
    requires
        lexing_ok(from),
    ensures
        lexing_ok(lexed(from, s, after)),
    decreases s.len(),
{
    if s.len() > 0 {
        lexed_in_order(from, s.drop_last(), Some(s.last()));
        next_keeps_order(lexed(from, s.drop_last(), Some(s.last())), s.last(), after);
    }
}

/// However the field was bracketed, no bracket closes that was not opened.
pub proof fn field_is_in_order(s: Seq<char>)
    ensures
        marks_ok(marks_of(s)),
{
    lexed_in_order(Lexing::start(), s, None);
    let end = lexed(Lexing::start(), s, None);
    one_more_mark(end.out, Mark::Piece(Chunk { text: end.text, quote_at: end.quote_at }));
}

pub proof fn marks_ok_so_far(marks: Seq<Mark>, n: int)
    requires
        marks_ok(marks),
        0 <= n <= marks.len(),
    ensures
        marks_ok(marks.take(n)),
        n > 0 ==> mark_ok(marks[n - 1]),
        mark_depth(marks.take(n)) >= 0,
    decreases marks.len() - n,
{
    if n < marks.len() {
        marks_ok_so_far(marks, n + 1);
        assert(marks.take(n + 1).drop_last() =~= marks.take(n));
    } else {
        assert(marks.take(n) =~= marks);
    }
}

// ---------------------------------------------------------------------
// Laws
// ---------------------------------------------------------------------
/// A quote mark is one however it is drawn, and spacing is spacing however it
/// was typed, a control character included.
pub proof fn a_mark_is_one_however_it_is_drawn(now: Lexing, c: char, after: Option<char>)
    ensures
        c == '\u{201C}' || c == '\u{201D}' || c == '\u{201E}' ==> now.next(c, after) == now.next(
            '"',
            after,
        ),
        is_white(c) || is_ctrl(c) ==> now.next(c, after) == now.next(' ', after),
        now.next('"', after).quoted == !now.quoted,
        now.next('"', after).text == now.text,
{
}

/// Outside quotes spacing ends a piece, and more of it ends nothing; inside
/// quotes it is one space.
pub proof fn spacing_ends_a_piece(now: Lexing, c: char, after: Option<char>, more: Option<char>)
    requires
        is_white(c) || is_ctrl(c),
        !is_quote_mark(c),
    ensures
        !now.quoted && now.text.len() > 0 ==> now.next(c, after).out == now.out.push(
            Mark::Piece(Chunk { text: now.text, quote_at: now.quote_at }),
        ) && now.next(c, after).text.len() == 0,
        !now.quoted ==> now.next(c, after).next(c, more) == now.next(c, after),
        now.quoted ==> now.next(c, after).next(c, more) == now.next(c, after) && now.next(
            c,
            after,
        ).out == now.out,
        now.quoted && (now.text.len() == 0 || now.text.last() != ' ') ==> now.next(c, after).text
            == now.text.push(' '),
{
    assert(now.flushed().flushed() =~= now.flushed());
}

/// A bracket inside a word, or inside quotes, is a letter of it, and one that
/// closes nothing is too.
pub proof fn a_bracket_in_a_word_is_a_letter(now: Lexing, after: Option<char>, next: char)
    ensures
        now.quoted ==> now.next('(', after).text == now.text.push('(') && now.next('(', after).out
            == now.out && now.next(')', after).text == now.text.push(')') && now.next(
            ')',
            after,
        ).out == now.out,
        now.depth == 0 ==> now.next(')', after).text == now.text.push(')') && now.next(
            ')',
            after,
        ).out == now.out,
        now.text.len() > 0 && now.text[0] != '-' && now.text.last() != ':' && now.text != "AND"@
            && now.text != "OR"@ && now.text != "NOT"@ ==> now.next('(', after).text
            == now.text.push('(') && now.next('(', after).out == now.out,
        !is_white(next) && !is_ctrl(next) && next != ')' ==> now.next(')', Some(next)).text
            == now.text.push(')') && now.next(')', Some(next)).out == now.out,
{
    if now.text.len() > 0 && now.text[0] != '-' {
        assert(dashes(now.text) == 0);
        assert(now.text.skip(0) =~= now.text);
    }
}

/// A bracket where a word could begin opens a group, a dash before it excludes
/// the group, and a bracket that can close one does.
pub proof fn a_bracket_where_a_word_could_begin_opens_a_group(now: Lexing, after: Option<char>)
    requires
        !now.quoted,
        now.quote_at is None,
    ensures
        now.text.len() == 0 ==> now.next('(', after).out == now.out.push(Mark::Open) && now.next(
            '(',
            after,
        ).depth == now.depth + 1,
        now.text == seq!['-'] ==> now.next('(', after).out == now.out.push(Mark::Minus).push(
            Mark::Open,
        ),
        now.text.len() == 0 && now.depth > 0 ==> now.next(')', None).out == now.out.push(
            Mark::Close,
        ) && now.next(')', None).depth == now.depth - 1,
{
    if now.text == seq!['-'] {
        assert(now.text.skip(1) =~= Seq::<char>::empty());
        assert(dashes(now.text.skip(1)) == 0);
        assert(dashes(now.text) == 1);
    }
    let none = Seq::<Mark>::empty();
    assert(now.out + none.push(Mark::Open) =~= now.out.push(Mark::Open));
    assert(now.out + seq![Mark::Minus].push(Mark::Open) =~= now.out.push(Mark::Minus).push(
        Mark::Open,
    ));
}

/// An operator is shared by a bracket where it takes a word or a state, in
/// whatever letters; a date is not shared.
pub proof fn a_word_operator_is_shared(key: Seq<char>)
    requires
        key.len() > 0,
        key[0] != '-',
    ensures
        shared_key_of(key.push(':')) == if is_shareable(ascii_lowercase(key)) {
            Some(ascii_lowercase(key))
        } else {
            None
        },
        shared_key_of(seq!['-'] + key.push(':')) == shared_key_of(key.push(':')),
        is_shareable("from"@) && is_shareable("to"@) && is_shareable("cc"@) && is_shareable(
            "subject"@,
        ) && is_shareable("in"@) && is_shareable("tag"@) && is_shareable("filename"@)
            && is_shareable("is"@) && is_shareable("has"@),
        !is_shareable("after"@) && !is_shareable("before"@) && !is_shareable("date"@),
{
    let text = key.push(':');
    assert(dashes(text) == 0);
    assert(text.skip(0) =~= text);
    assert(text.drop_last() =~= key);
    let dashed = seq!['-'] + text;
    assert(dashed.skip(1) =~= text);
    assert(dashes(dashed) == 1);
    reveal_strlit("after");
    reveal_strlit("before");
    reveal_strlit("date");
    reveal_strlit("from");
    reveal_strlit("to");
    reveal_strlit("cc");
    reveal_strlit("subject");
    reveal_strlit("in");
    reveal_strlit("tag");
    reveal_strlit("filename");
    reveal_strlit("is");
    reveal_strlit("has");
    assert("after"@.len() == 5 && "before"@.len() == 6 && "date"@.len() == 4 && "from"@.len() == 4
        && "to"@.len() == 2 && "cc"@.len() == 2 && "subject"@.len() == 7 && "in"@.len() == 2
        && "tag"@.len() == 3 && "filename"@.len() == 8 && "is"@.len() == 2 && "has"@.len() == 3);
    assert("date"@[0] == 'd' && "from"@[0] == 'f');
}

} // verus!
