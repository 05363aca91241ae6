//! Text on its way into the full-text indexes, and out again as a snippet.
//!
//! Two indexes hold a message's text. One splits on Unicode word boundaries;
//! the other holds Chinese, Japanese and Korean text a character to a token,
//! because those scripts do not put spaces between words.

use crate::text::{
    alphanumeric, append_chars, at_most, char_position, chars_of, control, find, find_char,
    find_char_is_first, find_from, first_char_is_found, first_chars, is_alnum, is_ctrl, is_white, join, joined, replace_all, replaced,
    split_words, string_of, texts, trim, trim_end, trim_is_stretch, trim_start, trim_trims, trimmed,
    whitespace, words_of,
};
use vstd::prelude::*;
use vstd::slice::{slice_subrange, slice_to_vec};

verus! {

/// What wraps a match inside a snippet.
///
/// Private-use codepoints rather than punctuation, because every printable
/// character is something a message might legitimately contain, and one that
/// appears in mail turns the sender's own text into a false highlight.
pub const MARK_START: char = '\u{E000}';

pub const MARK_END: char = '\u{E001}';

// ---------------------------------------------------------------------
// Scripts
// ---------------------------------------------------------------------
/// Hiragana and katakana, the CJK ideographs with their first extension and
/// the compatibility forms, and hangul.
pub open spec fn is_cjk_char(c: char) -> bool {
    ||| '\u{3040}' <= c <= '\u{30FF}'
    ||| '\u{3400}' <= c <= '\u{4DBF}'
    ||| '\u{4E00}' <= c <= '\u{9FFF}'
    ||| '\u{F900}' <= c <= '\u{FAFF}'
    ||| '\u{AC00}' <= c <= '\u{D7AF}'
}

pub open spec fn any_cjk(s: Seq<char>) -> bool {
    exists|i: int| 0 <= i < s.len() && is_cjk_char(#[trigger] s[i])
}

pub open spec fn any_alnum(s: Seq<char>) -> bool {
    exists|i: int| 0 <= i < s.len() && is_alnum(#[trigger] s[i])
}

pub fn is_cjk(c: char) -> (r: bool)
    ensures
        r == is_cjk_char(c),
{
    ('\u{3040}' <= c && c <= '\u{30FF}') || ('\u{3400}' <= c && c <= '\u{4DBF}') || ('\u{4E00}' <= c
        && c <= '\u{9FFF}') || ('\u{F900}' <= c && c <= '\u{FAFF}') || ('\u{AC00}' <= c && c
        <= '\u{D7AF}')
}

pub fn chars_have_cjk(s: &[char]) -> (r: bool)
    ensures
        r == any_cjk(s@),
{
    let mut i: usize = 0;
    while i < s.len()
        invariant
            i <= s@.len(),
            forall|j: int| 0 <= j < i ==> !is_cjk_char(#[trigger] s@[j]),
        decreases s@.len() - i,
    {
        if is_cjk(s[i]) {
            return true;
        }
        i += 1;
    }
    false
}

pub fn has_cjk(s: &str) -> (r: bool)
    ensures
        r == any_cjk(s@),
{
    chars_have_cjk(&chars_of(s))
}

pub fn chars_have_alnum(s: &[char]) -> (r: bool)
    ensures
        r == any_alnum(s@),
{
    let mut i: usize = 0;
    while i < s.len()
        invariant
            i <= s@.len(),
            forall|j: int| 0 <= j < i ==> !is_alnum(#[trigger] s@[j]),
        decreases s@.len() - i,
    {
        if alphanumeric(s[i]) {
            return true;
        }
        i += 1;
    }
    false
}

/// A text with every CJK character set apart by spaces.
pub open spec fn spaced_out(s: Seq<char>) -> Seq<char>
    decreases s.len(),
{
    if s.len() == 0 {
        Seq::empty()
    } else if is_cjk_char(s.last()) {
        spaced_out(s.drop_last()) + seq![' ', s.last(), ' ']
    } else {
        spaced_out(s.drop_last()).push(s.last())
    }
}

/// Space-separates CJK characters so that the tokenizer emits one token per
/// character. Non-CJK text passes through untouched, so a mixed subject still
/// tokenises its Latin words normally. This is what makes one- and
/// two-character CJK queries matchable at all.
pub fn cjk_spaced(s: &str) -> (out: String)
    ensures
        out@ == spaced_out(s@),
{
    let chars = chars_of(s);
    let mut out: Vec<char> = Vec::new();
    let mut i: usize = 0;
    assert(s@.take(0) =~= Seq::<char>::empty());
    while i < chars.len()
        invariant
            i <= chars@.len(),
            chars@ == s@,
            out@ == spaced_out(s@.take(i as int)),
        decreases chars@.len() - i,
    {
        let c = chars[i];
        let ghost before = out@;
        assert(s@.take(i + 1).drop_last() =~= s@.take(i as int));
        if is_cjk(c) {
            out.push(' ');
            out.push(c);
            out.push(' ');
            assert(out@ =~= before + seq![' ', c, ' ']);
        } else {
            out.push(c);
        }
        i += 1;
    }
    assert(s@.take(i as int) =~= s@);
    string_of(&out)
}

// ---------------------------------------------------------------------
// Quoting
// ---------------------------------------------------------------------
/// A text as one quoted phrase, any quote mark in it doubled.
pub open spec fn phrase_of(s: Seq<char>) -> Seq<char> {
    seq!['"'] + replace_all(s, seq!['"'], seq!['"', '"']) + seq!['"']
}

pub fn quoted_chars(s: &[char]) -> (out: Vec<char>)
    ensures
        out@ == phrase_of(s@),
{
    let mut one: Vec<char> = Vec::new();
    one.push('"');
    let mut two: Vec<char> = Vec::new();
    two.push('"');
    two.push('"');
    assert(one@ =~= seq!['"']);
    assert(two@ =~= seq!['"', '"']);
    let inner = replaced(s, &one, &two);
    let mut out: Vec<char> = Vec::new();
    out.push('"');
    append_chars(&mut out, &inner);
    out.push('"');
    assert(out@ =~= phrase_of(s@));
    out
}

pub fn quote_token(w: &str) -> (out: String)
    ensures
        out@ == phrase_of(w@),
{
    string_of(&quoted_chars(&chars_of(w)))
}

/// Whether, reading from inside a quoted phrase or from outside one, nothing
/// outside the quotes is more than a space or the mark of a prefix.
pub open spec fn only_phrases(s: Seq<char>, inside: bool) -> bool
    decreases s.len(),
{
    if s.len() == 0 {
        !inside
    } else if s[0] == '"' {
        only_phrases(s.skip(1), !inside)
    } else {
        (inside || s[0] == ' ' || s[0] == '*') && only_phrases(s.skip(1), inside)
    }
}

proof fn phrases_follow(a: Seq<char>, b: Seq<char>, inside: bool)
    requires
        only_phrases(a, inside),
        only_phrases(b, false),
    ensures
        only_phrases(a + b, inside),
    decreases a.len(),
{
    if a.len() == 0 {
        assert(a + b =~= b);
    } else {
        assert((a + b).skip(1) =~= a.skip(1) + b);
        phrases_follow(a.skip(1), b, if a[0] == '"' {
            !inside
        } else {
            inside
        });
    }
}

proof fn quoted_inside(s: Seq<char>)
    ensures
        only_phrases(replace_all(s, seq!['"'], seq!['"', '"']) + seq!['"'], true),
    decreases s.len(),
{
    reveal_with_fuel(only_phrases, 3);
    let q = seq!['"'];
    let qq = seq!['"', '"'];
    if s.len() == 0 {
        assert(replace_all(s, q, qq) + q =~= q);
        assert(q.skip(1) =~= Seq::<char>::empty());
    } else {
        quoted_inside(s.skip(1));
        let rest = replace_all(s.skip(1), q, qq) + q;
        assert(s.subrange(0, 1) =~= seq![s[0]]);
        if s[0] == '"' {
            assert(crate::text::starts(s, q));
            let whole = replace_all(s, q, qq) + q;
            assert(whole =~= qq + rest);
            assert(whole.skip(1) =~= q + rest);
            assert((q + rest).skip(1) =~= rest);
        } else {
            assert(!crate::text::starts(s, q)) by {
                assert(q[0] == '"');
                assert(s.subrange(0, 1)[0] == s[0]);
            }
            let whole = replace_all(s, q, qq) + q;
            assert(whole =~= seq![s[0]] + rest);
            assert(whole.skip(1) =~= rest);
        }
    }
}

/// Whatever is typed, a phrase made of it is one quoted phrase and no more.
pub proof fn a_phrase_is_one_phrase(s: Seq<char>)
    ensures
        only_phrases(phrase_of(s), false),
{
    quoted_inside(s);
    let inner = replace_all(s, seq!['"'], seq!['"', '"']) + seq!['"'];
    assert(phrase_of(s) =~= seq!['"'] + inner);
    assert(phrase_of(s).skip(1) =~= inner);
}

// ---------------------------------------------------------------------
// A field as a MATCH expression
// ---------------------------------------------------------------------
#[verifier::ext_equal]
pub struct Tok {
    pub text: Seq<char>,
    /// Typed in quotes.
    pub phrase: bool,
}

/// Control characters break the index's own string parser even when quoted,
/// so they are token boundaries before they are anything else.
pub open spec fn uncontrolled(s: Seq<char>) -> Seq<char> {
    s.map_values(
        |c: char|
            if is_ctrl(c) {
                ' '
            } else {
                c
            },
    )
}

/// Where the word that starts at `from` ends: at white space or a quote mark.
pub open spec fn word_end(s: Seq<char>, from: int) -> int
    decreases s.len() - from,
{
    if from >= s.len() || is_white(s[from]) || s[from] == '"' {
        from
    } else {
        word_end(s, from + 1)
    }
}

proof fn word_end_is_next(s: Seq<char>, from: int)
    requires
        0 <= from <= s.len(),
    ensures
        from <= word_end(s, from) <= s.len(),
        from < s.len() && !is_white(s[from]) && s[from] != '"' ==> word_end(s, from) > from,
    decreases s.len() - from,
{
    if from < s.len() && !is_white(s[from]) && s[from] != '"' {
        word_end_is_next(s, from + 1);
    }
}

/// The words and quoted phrases of a text, from `from` on.
pub open spec fn toks(s: Seq<char>, from: int) -> Seq<Tok>
    decreases s.len() - from,
{
    if from < 0 || from >= s.len() {
        Seq::empty()
    } else if is_white(s[from]) {
        toks(s, from + 1)
    } else if s[from] == '"' {
        let end = find_char(s, '"', from + 1);
        let text = s.subrange(from + 1, end);
        let here = if trim(text).len() > 0 {
            seq![Tok { text, phrase: true }]
        } else {
            Seq::empty()
        };
        if end <= from || end >= s.len() {
            here
        } else {
            here + toks(s, end + 1)
        }
    } else {
        let end = word_end(s, from);
        let here = seq![Tok { text: s.subrange(from, end), phrase: false }];
        if end <= from || end > s.len() {
            here
        } else {
            here + toks(s, end)
        }
    }
}

/// One word or phrase as it is asked: quoted, and a prefix if it is the last
/// word and two characters or more.
pub open spec fn asked_tok(all: Seq<Tok>, i: int, prefix_last: bool) -> Seq<char> {
    let tok = all[i];
    if !tok.phrase && prefix_last && i == all.len() - 1 && tok.text.len() >= 2 {
        phrase_of(tok.text).push('*')
    } else {
        phrase_of(tok.text)
    }
}

pub open spec fn asked_toks(all: Seq<Tok>, prefix_last: bool) -> Seq<Seq<char>> {
    Seq::new(all.len(), |i: int| asked_tok(all, i, prefix_last))
}

/// A field as a MATCH expression, or nothing when there is no word in it.
pub open spec fn match_text(query: Seq<char>, prefix_last: bool) -> Option<Seq<char>> {
    let all = toks(uncontrolled(query), 0);
    if all.len() == 0 {
        None
    } else {
        Some(joined(asked_toks(all, prefix_last), seq![' ']))
    }
}

struct Token {
    text: Vec<char>,
    phrase: bool,
}

spec fn tok_views(all: Seq<Token>) -> Seq<Tok> {
    all.map_values(|t: Token| Tok { text: t.text@, phrase: t.phrase })
}

fn without_controls(s: &[char]) -> (out: Vec<char>)
    ensures
        out@ == uncontrolled(s@),
{
    let mut out: Vec<char> = Vec::new();
    let mut i: usize = 0;
    while i < s.len()
        invariant
            i <= s@.len(),
            out@ == uncontrolled(s@.take(i as int)),
        decreases s@.len() - i,
    {
        assert(uncontrolled(s@.take(i + 1)) =~= uncontrolled(s@.take(i as int)).push(
            if is_ctrl(s@[i as int]) {
                ' '
            } else {
                s@[i as int]
            },
        ));
        if control(s[i]) {
            out.push(' ');
        } else {
            out.push(s[i]);
        }
        i += 1;
    }
    assert(s@.take(i as int) =~= s@);
    out
}

fn tokens(s: &[char]) -> (out: Vec<Token>)
    ensures
        tok_views(out@) == toks(s@, 0),
{
    let mut out: Vec<Token> = Vec::new();
    let mut i: usize = 0;
    assert(tok_views(out@) + toks(s@, 0) =~= toks(s@, 0));
    while i < s.len()
        invariant
            i <= s@.len(),
            tok_views(out@) + toks(s@, i as int) == toks(s@, 0),
        decreases s@.len() - i,
    {
        let ghost before = out@;
        if whitespace(s[i]) {
            i += 1;
        } else if s[i] == '"' {
            let end = char_position(s, '"', i + 1);
            let text = slice_subrange(s, i + 1, end);
            let said = trimmed(text).len() > 0;
            let ghost tok = Tok { text: text@, phrase: true };
            if said {
                out.push(Token { text: slice_to_vec(text), phrase: true });
                assert(tok_views(out@) =~= tok_views(before).push(tok));
            }
            let next: usize = if end < s.len() {
                end + 1
            } else {
                s.len()
            };
            assert(tok_views(out@) + toks(s@, next as int) =~= tok_views(before) + toks(
                s@,
                i as int,
            ));
            i = next;
        } else {
            proof {
                word_end_is_next(s@, i as int);
            }
            let end = end_of_word(s, i);
            let text = slice_subrange(s, i, end);
            let ghost tok = Tok { text: text@, phrase: false };
            out.push(Token { text: slice_to_vec(text), phrase: false });
            assert(tok_views(out@) =~= tok_views(before).push(tok));
            assert(tok_views(out@) + toks(s@, end as int) =~= tok_views(before) + toks(
                s@,
                i as int,
            ));
            i = end;
        }
    }
    assert(tok_views(out@) + Seq::<Tok>::empty() =~= tok_views(out@));
    out
}

fn end_of_word(s: &[char], from: usize) -> (end: usize)
    requires
        from <= s@.len(),
    ensures
        end == word_end(s@, from as int),
        end <= s@.len(),
{
    let mut i: usize = from;
    while i < s.len() && !whitespace(s[i]) && s[i] != '"'
        invariant
            from <= i <= s@.len(),
            word_end(s@, from as int) == word_end(s@, i as int),
        decreases s@.len() - i,
    {
        i += 1;
    }
    i
}

pub open spec fn text_of(s: Option<String>) -> Option<Seq<char>> {
    match s {
        Some(text) => Some(text@),
        None => None,
    }
}

/// Build a safe MATCH expression: every token is a quoted phrase (internal
/// quotes doubled), bare tokens AND together, and the final bare token becomes
/// a prefix query for as-you-type search. User text never reaches MATCH
/// unquoted.
pub fn match_expr(query: &str, prefix_last: bool) -> (expr: Option<String>)
    ensures
        text_of(expr) == match_text(query@, prefix_last),
        expr matches Some(e) ==> only_phrases(e@, false),
{
    let cleaned = without_controls(&chars_of(query));
    let all = tokens(&cleaned);
    if all.len() == 0 {
        return None;
    }
    let ghost views = tok_views(all@);
    let mut parts: Vec<Vec<char>> = Vec::new();
    let mut i: usize = 0;
    while i < all.len()
        invariant
            i <= all@.len(),
            views == tok_views(all@),
            texts(parts@) == asked_toks(views, prefix_last).take(i as int),
        decreases all@.len() - i,
    {
        let ghost before = parts@;
        let mut part = quoted_chars(&all[i].text);
        if !all[i].phrase && prefix_last && i == all.len() - 1 && all[i].text.len() >= 2 {
            part.push('*');
        }
        parts.push(part);
        assert(part@ == asked_tok(views, i as int, prefix_last));
        assert(texts(parts@) =~= texts(before).push(part@));
        assert(texts(parts@) =~= asked_toks(views, prefix_last).take(i + 1));
        i += 1;
    }
    assert(asked_toks(views, prefix_last).take(i as int) =~= asked_toks(views, prefix_last));
    let out = join(&parts, " ");
    proof {
        reveal_strlit(" ");
        assert(" "@ =~= seq![' ']);
        match_text_is_phrases(query@, prefix_last);
    }
    Some(string_of(&out))
}

/// User text never reaches MATCH unquoted: outside the quotes of an expression
/// there are only spaces and the mark of a prefix.
pub proof fn match_text_is_phrases(query: Seq<char>, prefix_last: bool)
    ensures
        match_text(query, prefix_last) matches Some(e) ==> only_phrases(e, false),
{
    let all = toks(uncontrolled(query), 0);
    joined_toks_are_phrases(asked_toks(all, prefix_last), all, prefix_last);
}

proof fn joined_toks_are_phrases(parts: Seq<Seq<char>>, all: Seq<Tok>, prefix_last: bool)
    requires
        parts.len() <= all.len(),
        forall|i: int| 0 <= i < parts.len() ==> #[trigger] parts[i] == asked_tok(all, i, prefix_last),
    ensures
        only_phrases(joined(parts, seq![' ']), false),
    decreases parts.len(),
{
    reveal_with_fuel(only_phrases, 2);
    if parts.len() > 0 {
        let last = parts.last();
        assert(last == parts[parts.len() - 1]);
        let tok = all[parts.len() - 1];
        a_phrase_is_one_phrase(tok.text);
        let star = seq!['*'];
        assert(star.skip(1) =~= Seq::<char>::empty());
        assert(only_phrases(star, false));
        phrases_follow(phrase_of(tok.text), star, false);
        assert(phrase_of(tok.text).push('*') =~= phrase_of(tok.text) + star);
        if parts.len() > 1 {
            joined_toks_are_phrases(parts.drop_last(), all, prefix_last);
            let space = seq![' '];
            assert(space.skip(1) =~= Seq::<char>::empty());
            assert(only_phrases(space, false));
            phrases_follow(joined(parts.drop_last(), space), space, false);
            phrases_follow(joined(parts.drop_last(), space) + space, last, false);
        }
    }
}

/// Whether there is nothing in a text to ask for: spacing and quote marks
/// only.
pub open spec fn asks_nothing(query: Seq<char>) -> bool {
    forall|i: int|
        0 <= i < query.len() ==> is_white(#[trigger] query[i]) || is_ctrl(query[i]) || query[i]
            == '"'
}

/// Whether the last thing typed is a bare word of two characters or more.
pub open spec fn ends_in_a_word(query: Seq<char>) -> bool {
    let all = toks(uncontrolled(query), 0);
    all.len() > 0 && !all.last().phrase && all.last().text.len() >= 2
}

/// There is an expression unless there is nothing to ask for.
pub proof fn nothing_is_asked_of_nothing(query: Seq<char>, prefix_last: bool)
    ensures
        match_text(query, prefix_last) is None <==> asks_nothing(query),
{
    let s = uncontrolled(query);
    no_toks_in_blank(s, 0);
    if asks_nothing(query) {
        assert forall|i: int| 0 <= i < s.len() implies is_white(#[trigger] s[i]) || s[i] == '"' by {
            assert(is_white(query[i]) || is_ctrl(query[i]) || query[i] == '"');
        }
    }
    if toks(s, 0).len() == 0 {
        assert forall|i: int| 0 <= i < query.len() implies is_white(#[trigger] query[i]) || is_ctrl(
            query[i],
        ) || query[i] == '"' by {
            assert(is_white(s[i]) || s[i] == '"');
        }
    }
}

proof fn no_toks_in_blank(s: Seq<char>, from: int)
    requires
        0 <= from <= s.len(),
    ensures
        toks(s, from).len() == 0 <==> forall|i: int|
            from <= i < s.len() ==> is_white(#[trigger] s[i]) || s[i] == '"',
    decreases s.len() - from,
{
    if from < s.len() {
        if is_white(s[from]) {
            no_toks_in_blank(s, from + 1);
        } else if s[from] == '"' {
            find_char_is_first(s, '"', from + 1);
            let end = find_char(s, '"', from + 1);
            let text = s.subrange(from + 1, end);
            blank_is_white(text);
            assert(forall|i: int| from < i < end ==> s[i] == #[trigger] text[i - from - 1]);
            if trim(text).len() == 0 {
                assert forall|i: int| from < i < end implies is_white(#[trigger] s[i]) by {
                    assert(s[i] == text[i - from - 1]);
                }
            } else {
                let k = choose|k: int| 0 <= k < text.len() && !is_white(#[trigger] text[k]);
                assert(s[k + from + 1] == text[k]);
                assert(s[k + from + 1] != '"');
            }
            if end < s.len() {
                no_toks_in_blank(s, end + 1);
            }
        } else {
            word_end_is_next(s, from);
        }
    }
}

/// What trims to nothing is white throughout.
proof fn blank_is_white(s: Seq<char>)
    ensures
        trim(s).len() == 0 <==> forall|i: int| 0 <= i < s.len() ==> is_white(#[trigger] s[i]),
{
    let at = trim_is_stretch(s);
    trim_trims(s);
    let t = trim(s);
    if t.len() > 0 {
        assert(t[0] == s[at]);
    } else {
        trim_start_drops_white(s);
        let rest = trim_start(s);
        if rest.len() > 0 {
            white_end_is_all_that_goes(rest);
        }
    }
}

proof fn trim_start_drops_white(s: Seq<char>)
    ensures
        trim_start(s).len() == 0 ==> forall|i: int| 0 <= i < s.len() ==> is_white(#[trigger] s[i]),
        trim_start(s).len() > 0 ==> !is_white(trim_start(s)[0]),
    decreases s.len(),
{
    if s.len() > 0 && is_white(s[0]) {
        let rest = s.skip(1);
        trim_start_drops_white(rest);
        if trim_start(s).len() == 0 {
            assert forall|i: int| 0 <= i < s.len() implies is_white(#[trigger] s[i]) by {
                if i > 0 {
                    assert(rest[i - 1] == s[i]);
                }
            }
        }
    }
}

proof fn white_end_is_all_that_goes(s: Seq<char>)
    requires
        s.len() > 0,
        !is_white(s[0]),
    ensures
        trim_end(s).len() > 0,
    decreases s.len(),
{
    if is_white(s.last()) {
        white_end_is_all_that_goes(s.drop_last());
    }
}

/// An expression is the words and phrases in their order, each in quotes, with
/// one space between them. As it is typed it is the same, with the mark of a
/// prefix at the end exactly when it ends in a bare word of two characters or
/// more.
pub proof fn an_expression_is_phrases(query: Seq<char>)
    ensures
        match_text(query, false) matches Some(e) ==> e == joined(
            toks(uncontrolled(query), 0).map_values(|t: Tok| phrase_of(t.text)),
            seq![' '],
        ),
        match_text(query, true) == match match_text(query, false) {
            Some(e) => Some(
                if ends_in_a_word(query) {
                    e.push('*')
                } else {
                    e
                },
            ),
            None => None,
        },
{
    let all = toks(uncontrolled(query), 0);
    let plain = asked_toks(all, false);
    let typed = asked_toks(all, true);
    let space = seq![' '];
    assert(plain =~= all.map_values(|t: Tok| phrase_of(t.text)));
    if all.len() > 0 {
        assert(plain.drop_last() =~= typed.drop_last());
        if ends_in_a_word(query) {
            assert(typed.last() == plain.last().push('*'));
            if all.len() > 1 {
                let front = joined(plain.drop_last(), space) + space;
                assert(front + plain.last().push('*') =~= (front + plain.last()).push('*'));
            }
        } else {
            assert(typed.last() == plain.last());
            assert(plain =~= typed);
        }
    }
}

/// No control character is in an expression: one would break the index's own
/// parser even inside quotes.
pub proof fn an_expression_has_no_controls(query: Seq<char>, prefix_last: bool)
    ensures
        match_text(query, prefix_last) matches Some(e) ==> is_uncontrolled(e),
{
    let s = uncontrolled(query);
    let all = toks(s, 0);
    assert(is_uncontrolled(s));
    toks_have_no_controls(s, 0);
    let parts = asked_toks(all, prefix_last);
    assert forall|i: int| 0 <= i < parts.len() implies is_uncontrolled(#[trigger] parts[i]) by {
        assert(is_uncontrolled(all[i].text));
        doubling_adds_no_controls(all[i].text);
    }
    joining_adds_no_controls(parts);
}

pub open spec fn is_uncontrolled(s: Seq<char>) -> bool {
    forall|i: int| 0 <= i < s.len() ==> !is_ctrl(#[trigger] s[i])
}

proof fn toks_have_no_controls(s: Seq<char>, from: int)
    requires
        0 <= from <= s.len(),
        is_uncontrolled(s),
    ensures
        forall|k: int|
            0 <= k < toks(s, from).len() ==> is_uncontrolled((#[trigger] toks(s, from)[k]).text),
    decreases s.len() - from,
{
    let all = toks(s, from);
    if from < s.len() {
        if is_white(s[from]) {
            toks_have_no_controls(s, from + 1);
            assert(all == toks(s, from + 1));
        } else if s[from] == '"' {
            find_char_is_first(s, '"', from + 1);
            let end = find_char(s, '"', from + 1);
            let text = s.subrange(from + 1, end);
            assert(is_uncontrolled(text));
            if end < s.len() {
                toks_have_no_controls(s, end + 1);
                let rest = toks(s, end + 1);
                assert forall|k: int| 0 <= k < all.len() implies is_uncontrolled(
                    (#[trigger] all[k]).text,
                ) by {
                    let n = all.len() - rest.len();
                    if k >= n {
                        assert(all[k] == rest[k - n]);
                    } else {
                        assert(all[k].text == text);
                    }
                }
            } else {
                assert forall|k: int| 0 <= k < all.len() implies is_uncontrolled(
                    (#[trigger] all[k]).text,
                ) by {
                    assert(all[k].text == text);
                }
            }
        } else {
            word_end_is_next(s, from);
            let end = word_end(s, from);
            assert(is_uncontrolled(s.subrange(from, end)));
            toks_have_no_controls(s, end);
            let rest = toks(s, end);
            assert forall|k: int| 0 <= k < all.len() implies is_uncontrolled(
                (#[trigger] all[k]).text,
            ) by {
                if k > 0 {
                    assert(all[k] == rest[k - 1]);
                } else {
                    assert(all[k].text == s.subrange(from, end));
                }
            }
        }
    }
}

proof fn doubling_adds_no_controls(s: Seq<char>)
    requires
        is_uncontrolled(s),
    ensures
        is_uncontrolled(phrase_of(s)),
    decreases s.len(),
{
    let q = seq!['"'];
    let qq = seq!['"', '"'];
    assert(is_uncontrolled(replace_all(s, q, qq))) by {
        if s.len() > 0 {
            let rest = s.skip(1);
            assert(is_uncontrolled(rest));
            doubling_adds_no_controls(rest);
            let inner = replace_all(rest, q, qq);
            assert forall|i: int| 0 <= i < inner.len() implies !is_ctrl(#[trigger] inner[i]) by {
                assert(phrase_of(rest)[i + 1] == inner[i]);
            }
        }
    }
}

proof fn joining_adds_no_controls(parts: Seq<Seq<char>>)
    requires
        forall|i: int| 0 <= i < parts.len() ==> is_uncontrolled(#[trigger] parts[i]),
    ensures
        is_uncontrolled(joined(parts, seq![' '])),
    decreases parts.len(),
{
    if parts.len() > 1 {
        joining_adds_no_controls(parts.drop_last());
        assert(is_uncontrolled(parts[parts.len() - 1]));
    } else if parts.len() == 1 {
        assert(is_uncontrolled(parts[0]));
    }
}

// ---------------------------------------------------------------------
// The same for the CJK index
// ---------------------------------------------------------------------
/// What has been read of a CJK query.
#[verifier::ext_equal]
pub struct CjkReading {
    pub parts: Seq<Seq<char>>,
    pub run: Seq<char>,
    pub word: Seq<char>,
}

pub open spec fn one_apiece(run: Seq<char>) -> Seq<Seq<char>> {
    run.map_values(|c: char| seq![c])
}

impl CjkReading {
    /// A run of CJK characters is a phrase of single characters, so that it
    /// matches only where they are adjacent.
    pub open spec fn run_done(self) -> CjkReading {
        if self.run.len() > 0 {
            CjkReading {
                parts: self.parts.push(
                    seq!['"'] + joined(one_apiece(self.run), seq![' ']) + seq!['"'],
                ),
                run: Seq::empty(),
                ..self
            }
        } else {
            self
        }
    }

    pub open spec fn word_done(self) -> CjkReading {
        CjkReading {
            parts: if any_alnum(self.word) {
                self.parts.push(phrase_of(self.word))
            } else {
                self.parts
            },
            word: Seq::empty(),
            ..self
        }
    }

    pub open spec fn next(self, c: char) -> CjkReading {
        if is_ctrl(c) {
            self
        } else if is_cjk_char(c) {
            let now = self.word_done();
            CjkReading { run: now.run.push(c), ..now }
        } else if is_white(c) {
            self.run_done().word_done()
        } else {
            let now = self.run_done();
            CjkReading { word: now.word.push(c), ..now }
        }
    }
}

pub open spec fn cjk_read(s: Seq<char>) -> CjkReading
    decreases s.len(),
{
    if s.len() == 0 {
        CjkReading { parts: Seq::empty(), run: Seq::empty(), word: Seq::empty() }
    } else {
        cjk_read(s.drop_last()).next(s.last())
    }
}

/// The phrases a CJK query asks for.
pub open spec fn cjk_phrases(s: Seq<char>) -> Seq<Seq<char>> {
    cjk_read(s).run_done().word_done().parts
}

struct CjkReader {
    parts: Vec<Vec<char>>,
    run: Vec<char>,
    word: Vec<char>,
}

impl View for CjkReader {
    type V = CjkReading;

    closed spec fn view(&self) -> CjkReading {
        CjkReading { parts: texts(self.parts@), run: self.run@, word: self.word@ }
    }
}

fn singles(run: &[char]) -> (out: Vec<Vec<char>>)
    ensures
        texts(out@) == one_apiece(run@),
{
    let mut out: Vec<Vec<char>> = Vec::new();
    let mut i: usize = 0;
    while i < run.len()
        invariant
            i <= run@.len(),
            texts(out@) == one_apiece(run@.take(i as int)),
        decreases run@.len() - i,
    {
        let ghost before = out@;
        let mut one: Vec<char> = Vec::new();
        one.push(run[i]);
        out.push(one);
        assert(one@ =~= seq![run@[i as int]]);
        assert(texts(out@) =~= texts(before).push(one@));
        assert(one_apiece(run@.take(i + 1)) =~= one_apiece(run@.take(i as int)).push(
            seq![run@[i as int]],
        ));
        i += 1;
    }
    assert(run@.take(i as int) =~= run@);
    out
}

impl CjkReader {
    fn finish_run(&mut self)
        ensures
            final(self)@ == old(self)@.run_done(),
    {
        if self.run.len() > 0 {
            let spaced = join(&singles(&self.run), " ");
            let mut part: Vec<char> = Vec::new();
            part.push('"');
            append_chars(&mut part, &spaced);
            part.push('"');
            self.parts.push(part);
            self.run.clear();
            proof {
                reveal_strlit(" ");
                assert(" "@ =~= seq![' ']);
                assert(part@ =~= seq!['"'] + spaced@ + seq!['"']);
                assert(texts(self.parts@) =~= texts(old(self).parts@).push(part@));
                assert(self.run@ =~= Seq::<char>::empty());
            }
        }
    }

    fn finish_word(&mut self)
        ensures
            final(self)@ == old(self)@.word_done(),
    {
        if chars_have_alnum(&self.word) {
            let part = quoted_chars(&self.word);
            self.parts.push(part);
            assert(texts(self.parts@) =~= texts(old(self).parts@).push(part@));
        }
        self.word.clear();
        assert(self.word@ =~= Seq::<char>::empty());
    }

    fn step(&mut self, c: char)
        ensures
            final(self)@ == old(self)@.next(c),
    {
        if control(c) {
        } else if is_cjk(c) {
            self.finish_word();
            self.run.push(c);
        } else if whitespace(c) {
            self.finish_run();
            self.finish_word();
        } else {
            self.finish_run();
            self.word.push(c);
        }
    }
}

/// The phrases a CJK query asks for.
pub fn cjk_parts(query: &[char]) -> (parts: Vec<Vec<char>>)
    ensures
        texts(parts@) == cjk_phrases(query@),
{
    let mut reader = CjkReader { parts: Vec::new(), run: Vec::new(), word: Vec::new() };
    let mut i: usize = 0;
    assert(query@.take(0) =~= Seq::<char>::empty());
    assert(reader@ =~= cjk_read(query@.take(0)));
    while i < query.len()
        invariant
            i <= query@.len(),
            reader@ == cjk_read(query@.take(i as int)),
        decreases query@.len() - i,
    {
        assert(query@.take(i + 1).drop_last() =~= query@.take(i as int));
        reader.step(query[i]);
        i += 1;
    }
    assert(query@.take(i as int) =~= query@);
    reader.finish_run();
    reader.finish_word();
    reader.parts
}

/// The CJK counterpart to `match_expr`: each run of CJK characters becomes a
/// *phrase* of single-character tokens, so `東京` matches only where the two
/// characters are adjacent, the precision a per-character index would
/// otherwise lose. Latin words in the same query are quoted as ordinary
/// tokens.
pub fn cjk_match_expr(query: &str) -> (expr: Option<String>)
    ensures
        text_of(expr) == if cjk_phrases(query@).len() == 0 {
            None
        } else {
            Some(joined(cjk_phrases(query@), seq![' ']))
        },
{
    let parts = cjk_parts(&chars_of(query));
    assert(texts(parts@).len() == parts@.len());
    if parts.len() == 0 {
        None
    } else {
        proof {
            reveal_strlit(" ");
            assert(" "@ =~= seq![' ']);
        }
        Some(string_of(&join(&parts, " ")))
    }
}

// ---------------------------------------------------------------------
// Snippets
// ---------------------------------------------------------------------
/// Where the first CJK character at or after `from` is, or the end.
pub open spec fn cjk_start(s: Seq<char>, from: int) -> int
    decreases s.len() - from,
{
    if from >= s.len() || is_cjk_char(s[from]) {
        from
    } else {
        cjk_start(s, from + 1)
    }
}

/// Where the run of CJK characters at `from` ends.
pub open spec fn cjk_end(s: Seq<char>, from: int) -> int
    decreases s.len() - from,
{
    if from >= s.len() || !is_cjk_char(s[from]) {
        from
    } else {
        cjk_end(s, from + 1)
    }
}

/// The first contiguous CJK run of a text.
pub open spec fn cjk_run(s: Seq<char>) -> Seq<char> {
    s.subrange(cjk_start(s, 0), cjk_end(s, cjk_start(s, 0)))
}

fn cjk_run_chars(s: &[char]) -> (out: Vec<char>)
    ensures
        out@ == cjk_run(s@),
{
    let mut from: usize = 0;
    while from < s.len() && !is_cjk(s[from])
        invariant
            from <= s@.len(),
            cjk_start(s@, 0) == cjk_start(s@, from as int),
        decreases s@.len() - from,
    {
        from += 1;
    }
    let mut end: usize = from;
    while end < s.len() && is_cjk(s[end])
        invariant
            from <= end <= s@.len(),
            cjk_end(s@, from as int) == cjk_end(s@, end as int),
        decreases s@.len() - end,
    {
        end += 1;
    }
    slice_to_vec(slice_subrange(s, from, end))
}

/// First contiguous CJK run in the query: what a snippet should highlight.
pub fn first_cjk_run(query: &str) -> (out: String)
    ensures
        out@ == cjk_run(query@),
{
    string_of(&cjk_run_chars(&chars_of(query)))
}

/// The opening of a text, on one line.
pub open spec fn preview(s: Seq<char>) -> Seq<char> {
    at_most(joined(words_of(s), seq![' ']), 160)
}

/// The row preview: the opening of a message, on one line.
pub fn preview_of(text: &str) -> (out: String)
    ensures
        out@ == preview(text@),
{
    let line = join(&split_words(&chars_of(text)), " ");
    proof {
        reveal_strlit(" ");
        assert(" "@ =~= seq![' ']);
    }
    string_of(&first_chars(&line, 160))
}

/// How much of the text stands on either side of a marked match.
pub const PAD: usize = 24;

pub open spec fn marked_at(body: Seq<char>, at: int, n: int) -> Seq<char> {
    let start = if at > PAD {
        at - PAD
    } else {
        0
    };
    let end = if at + n + PAD < body.len() {
        at + n + PAD
    } else {
        body.len() as int
    };
    let before = if start > 0 {
        seq!['…']
    } else {
        Seq::empty()
    };
    let after = if end < body.len() {
        seq!['…']
    } else {
        Seq::empty()
    };
    before + body.subrange(start, at) + seq![MARK_START] + body.subrange(at, at + n)
        + seq![MARK_END] + body.subrange(at + n, end) + after
}

/// The text around the first place a query's CJK run stands in a body, with
/// the run marked, or the opening of the body.
pub open spec fn cjk_snippet_text(body: Seq<char>, query: Seq<char>) -> Seq<char> {
    let needle = cjk_run(query);
    match find_from(body, needle, 0) {
        Some(at) if needle.len() > 0 => marked_at(body, at, needle.len() as int),
        _ => at_most(body, 96),
    }
}

/// Snippets come from the text as it stands, never from the space-separated index
/// copy, which would render with gaps between every character.
pub fn cjk_snippet(body: &str, query: &str) -> (out: String)
    ensures
        out@ == cjk_snippet_text(body@, query@),
{
    let needle = cjk_run_chars(&chars_of(query));
    let chars = chars_of(body);
    if needle.len() == 0 {
        return string_of(&first_chars(&chars, 96));
    }
    match find(&chars, &needle, 0) {
        None => string_of(&first_chars(&chars, 96)),
        Some(at) => {
            let n = needle.len();
            let start: usize = if at > PAD {
                at - PAD
            } else {
                0
            };
            let room = chars.len() - at - n;
            let end: usize = if room > PAD {
                at + n + PAD
            } else {
                chars.len()
            };
            let mut out: Vec<char> = Vec::new();
            if start > 0 {
                out.push('…');
            }
            append_chars(&mut out, slice_subrange(&chars, start, at));
            out.push(MARK_START);
            append_chars(&mut out, slice_subrange(&chars, at, at + n));
            out.push(MARK_END);
            append_chars(&mut out, slice_subrange(&chars, at + n, end));
            if end < chars.len() {
                out.push('…');
            }
            assert(out@ =~= marked_at(body@, at as int, n as int));
            string_of(&out)
        },
    }
}

// ---------------------------------------------------------------------
// The word still being typed
// ---------------------------------------------------------------------
/// Where a text's last letter or digit is, plus one.
pub open spec fn last_alnum_end(s: Seq<char>) -> int
    decreases s.len(),
{
    if s.len() == 0 || is_alnum(s.last()) {
        s.len() as int
    } else {
        last_alnum_end(s.drop_last())
    }
}

/// Where the run of letters and digits that ends at the end begins.
pub open spec fn alnum_start(s: Seq<char>) -> int
    decreases s.len(),
{
    if s.len() == 0 || !is_alnum(s.last()) {
        s.len() as int
    } else {
        alnum_start(s.drop_last())
    }
}

/// The last run of letters and digits in a text.
pub open spec fn last_run(s: Seq<char>) -> Seq<char> {
    let end = last_alnum_end(s);
    s.subrange(alnum_start(s.take(end)), end)
}

/// The last run of letters and digits in a text.
pub fn last_alnum_run(s: &[char]) -> (out: Vec<char>)
    ensures
        out@ == last_run(s@),
{
    let mut end: usize = s.len();
    assert(s@.take(end as int) =~= s@);
    while end > 0 && !alphanumeric(s[end - 1])
        invariant
            end <= s@.len(),
            last_alnum_end(s@) == last_alnum_end(s@.take(end as int)),
        decreases end,
    {
        assert(s@.take(end as int).drop_last() =~= s@.take(end - 1));
        end -= 1;
    }
    let mut start: usize = end;
    let ghost head = s@.take(end as int);
    assert(head.take(start as int) =~= head);
    while start > 0 && alphanumeric(s[start - 1])
        invariant
            start <= end <= s@.len(),
            head == s@.take(end as int),
            alnum_start(head) == alnum_start(head.take(start as int)),
        decreases start,
    {
        assert(head.take(start as int).drop_last() =~= head.take(start - 1));
        start -= 1;
    }
    slice_to_vec(slice_subrange(s, start, end))
}

// ---------------------------------------------------------------------
// Laws
// ---------------------------------------------------------------------
/// The scripts that are written without spaces: kana, the ideographs, their
/// compatibility forms, and hangul; nothing in between and nothing beside.
pub proof fn a_script_is_a_range(c: char)
    ensures
        is_cjk_char(c) <==> {
            let n = c as u32;
            ||| 0x3040 <= n <= 0x30FF
            ||| 0x3400 <= n <= 0x4DBF
            ||| 0x4E00 <= n <= 0x9FFF
            ||| 0xAC00 <= n <= 0xD7AF
            ||| 0xF900 <= n <= 0xFAFF
        },
{
}

/// Each character is set apart for itself: one of those scripts between two
/// spaces, and any other as it is.
pub proof fn each_character_is_set_apart(a: Seq<char>, b: Seq<char>, c: char)
    ensures
        spaced_out(a + b) == spaced_out(a) + spaced_out(b),
        is_cjk_char(c) ==> spaced_out(seq![c]) == seq![' ', c, ' '],
        !is_cjk_char(c) ==> spaced_out(seq![c]) == seq![c],
    decreases b.len(),
{
    let none = Seq::<char>::empty();
    assert(seq![c].drop_last() =~= none);
    assert(spaced_out(seq![c].drop_last()) =~= none);
    assert(none + seq![' ', c, ' '] =~= seq![' ', c, ' ']);
    assert(none.push(c) =~= seq![c]);
    if b.len() == 0 {
        assert(a + b =~= a);
        assert(spaced_out(a) + spaced_out(b) =~= spaced_out(a));
    } else {
        assert((a + b).drop_last() =~= a + b.drop_last());
        each_character_is_set_apart(a, b.drop_last(), c);
        assert(spaced_out(a + b) =~= spaced_out(a) + spaced_out(b));
    }
}

proof fn a_word_goes_on(s: Seq<char>, from: int)
    requires
        0 <= from <= s.len(),
        forall|i: int| from <= i < s.len() ==> !is_white(#[trigger] s[i]) && s[i] != '"',
    ensures
        word_end(s, from) == s.len(),
    decreases s.len() - from,
{
    if from < s.len() {
        a_word_goes_on(s, from + 1);
    }
}

/// One word asks for itself, and for what begins with it while it is still
/// being typed, from the second letter on.
pub proof fn a_word_asks_for_itself(word: Seq<char>)
    requires
        word.len() > 0,
        forall|i: int|
            0 <= i < word.len() ==> !is_white(#[trigger] word[i]) && !is_ctrl(word[i]) && word[i]
                != '"',
    ensures
        match_text(word, false) == Some(phrase_of(word)),
        word.len() >= 2 ==> match_text(word, true) == Some(phrase_of(word).push('*')),
        word.len() == 1 ==> match_text(word, true) == Some(phrase_of(word)),
{
    let s = uncontrolled(word);
    assert(s =~= word);
    a_word_goes_on(word, 0);
    let tok = Tok { text: word.subrange(0, word.len() as int), phrase: false };
    assert(tok.text =~= word);
    assert(toks(word, word.len() as int).len() == 0);
    assert(toks(word, 0) =~= seq![tok]);
    let all = toks(word, 0);
    assert(asked_toks(all, false) =~= seq![asked_tok(all, 0, false)]);
    assert(asked_toks(all, true) =~= seq![asked_tok(all, 0, true)]);
}

/// What stands in quotes asks for itself as it stands, typed or not.
pub proof fn a_phrase_asks_for_itself(phrase: Seq<char>, prefix_last: bool)
    requires
        trim(phrase).len() > 0,
        forall|i: int| 0 <= i < phrase.len() ==> !is_ctrl(#[trigger] phrase[i]) && phrase[i] != '"',
    ensures
        match_text(seq!['"'] + phrase + seq!['"'], prefix_last) == Some(phrase_of(phrase)),
{
    let query = seq!['"'] + phrase + seq!['"'];
    assert forall|i: int| 0 <= i < query.len() implies !is_ctrl(#[trigger] query[i]) by {
        if 0 < i < query.len() - 1 {
            assert(query[i] == phrase[i - 1]);
        }
    }
    assert(uncontrolled(query) =~= query);
    let end = query.len() - 1;
    assert forall|i: int| 1 <= i < end implies query[i] != '"' by {
        assert(query[i] == phrase[i - 1]);
    }
    first_char_is_found(query, '"', 1, end);
    assert(query.subrange(1, end) =~= phrase);
    let tok = Tok { text: phrase, phrase: true };
    assert(toks(query, end + 1).len() == 0);
    assert(toks(query, 0) =~= seq![tok]);
    let all = toks(query, 0);
    assert(asked_toks(all, prefix_last) =~= seq![asked_tok(all, 0, prefix_last)]);
}

proof fn reading_goes_on(before: CjkReading, first: Seq<char>, s: Seq<char>)
    requires
        cjk_read(first) == before,
        before.run.len() == 0,
        before.word.len() == 0,
    ensures
        ({
            let now = cjk_read(first + s);
            let alone = cjk_read(s);
            &&& now.parts == before.parts + alone.parts
            &&& now.run == alone.run
            &&& now.word == alone.word
        }),
    decreases s.len(),
{
    if s.len() == 0 {
        assert(first + s =~= first);
        assert(before.parts + cjk_read(s).parts =~= before.parts);
        assert(before.run =~= cjk_read(s).run);
        assert(before.word =~= cjk_read(s).word);
    } else {
        assert((first + s).drop_last() =~= first + s.drop_last());
        reading_goes_on(before, first, s.drop_last());
        let now = cjk_read(first + s);
        let alone = cjk_read(s);
        assert(now.parts =~= before.parts + alone.parts);
    }
}

/// What stands on two sides of a space is asked for side by side, and a
/// control character says nothing.
pub proof fn a_space_parts_what_is_asked(a: Seq<char>, b: Seq<char>, space: char, c: char)
    requires
        is_white(space),
        !is_ctrl(space),
        !is_cjk_char(space),
    ensures
        cjk_phrases(a + seq![space] + b) == cjk_phrases(a) + cjk_phrases(b),
        is_ctrl(c) ==> cjk_phrases(a.push(c)) == cjk_phrases(a),
{
    let first = a.push(space);
    assert(first.drop_last() =~= a);
    assert(a + seq![space] + b =~= first + b);
    let before = cjk_read(first);
    assert(before.parts == cjk_phrases(a));
    reading_goes_on(before, first, b);
    assert(cjk_phrases(first + b) =~= cjk_phrases(a) + cjk_phrases(b));
    assert(a.push(c).drop_last() =~= a);
}

/// Characters of those scripts that stand together are asked for together, in
/// their order, and a word of letters is asked for as a word.
pub proof fn what_stands_together_is_asked_together(run: Seq<char>, word: Seq<char>)
    requires
        forall|i: int| 0 <= i < run.len() ==> is_cjk_char(#[trigger] run[i]) && !is_ctrl(run[i]),
        forall|i: int|
            0 <= i < word.len() ==> !is_cjk_char(#[trigger] word[i]) && !is_ctrl(word[i])
                && !is_white(word[i]),
    ensures
        run.len() > 0 ==> cjk_phrases(run) == seq![
            seq!['"'] + joined(run.map_values(|c: char| seq![c]), seq![' ']) + seq!['"'],
        ],
        any_alnum(word) ==> cjk_phrases(word) == seq![phrase_of(word)],
        !any_alnum(word) ==> cjk_phrases(word).len() == 0,
{
    a_run_is_read(run);
    a_word_is_read(word);
    assert(run.map_values(|c: char| seq![c]) =~= one_apiece(run));
    let none = Seq::<Seq<char>>::empty();
    let part = seq!['"'] + joined(one_apiece(run), seq![' ']) + seq!['"'];
    assert(none.push(part) =~= seq![part]);
    assert(none.push(phrase_of(word)) =~= seq![phrase_of(word)]);
}

proof fn a_run_is_read(run: Seq<char>)
    requires
        forall|i: int| 0 <= i < run.len() ==> is_cjk_char(#[trigger] run[i]) && !is_ctrl(run[i]),
    ensures
        cjk_read(run).parts == Seq::<Seq<char>>::empty(),
        cjk_read(run).run == run,
        cjk_read(run).word == Seq::<char>::empty(),
    decreases run.len(),
{
    if run.len() > 0 {
        let front = run.drop_last();
        assert forall|i: int| 0 <= i < front.len() implies is_cjk_char(#[trigger] front[i])
            && !is_ctrl(front[i]) by {
            assert(front[i] == run[i]);
        }
        a_run_is_read(front);
        assert(is_cjk_char(run[run.len() - 1]));
        assert(front.push(run.last()) =~= run);
    } else {
        assert(cjk_read(run).run =~= run);
    }
}

proof fn a_word_is_read(word: Seq<char>)
    requires
        forall|i: int|
            0 <= i < word.len() ==> !is_cjk_char(#[trigger] word[i]) && !is_ctrl(word[i])
                && !is_white(word[i]),
    ensures
        cjk_read(word).parts == Seq::<Seq<char>>::empty(),
        cjk_read(word).run == Seq::<char>::empty(),
        cjk_read(word).word == word,
    decreases word.len(),
{
    if word.len() > 0 {
        let front = word.drop_last();
        assert forall|i: int| 0 <= i < front.len() implies !is_cjk_char(#[trigger] front[i])
            && !is_ctrl(front[i]) && !is_white(front[i]) by {
            assert(front[i] == word[i]);
        }
        a_word_is_read(front);
        assert(!is_cjk_char(word[word.len() - 1]));
        assert(front.push(word.last()) =~= word);
    } else {
        assert(cjk_read(word).word =~= word);
    }
}

/// What a snippet marks is the first run of those scripts, whole.
pub proof fn the_first_run_is_the_whole_run(before: Seq<char>, run: Seq<char>, after: Seq<char>)
    requires
        forall|i: int| 0 <= i < before.len() ==> !is_cjk_char(#[trigger] before[i]),
        forall|i: int| 0 <= i < run.len() ==> is_cjk_char(#[trigger] run[i]),
        run.len() > 0,
        after.len() > 0 ==> !is_cjk_char(after[0]),
    ensures
        cjk_run(before + run + after) == run,
{
    let s = before + run + after;
    let a = before.len() as int;
    let b = a + run.len();
    assert forall|i: int| 0 <= i < a implies !is_cjk_char(#[trigger] s[i]) by {
        assert(s[i] == before[i]);
    }
    assert forall|i: int| a <= i < b implies is_cjk_char(#[trigger] s[i]) by {
        assert(s[i] == run[i - a]);
    }
    if b < s.len() {
        assert(s[b] == after[0]);
    }
    run_starts(s, 0, a);
    run_ends(s, a, b);
    assert(s.subrange(a, b) =~= run);
}

proof fn run_starts(s: Seq<char>, from: int, at: int)
    requires
        0 <= from <= at < s.len(),
        forall|i: int| from <= i < at ==> !is_cjk_char(#[trigger] s[i]),
        is_cjk_char(s[at]),
    ensures
        cjk_start(s, from) == at,
    decreases at - from,
{
    if from < at {
        run_starts(s, from + 1, at);
    }
}

proof fn run_ends(s: Seq<char>, from: int, at: int)
    requires
        0 <= from <= at <= s.len(),
        forall|i: int| from <= i < at ==> is_cjk_char(#[trigger] s[i]),
        at < s.len() ==> !is_cjk_char(s[at]),
    ensures
        cjk_end(s, from) == at,
    decreases at - from,
{
    if from < at {
        run_ends(s, from + 1, at);
    }
}

/// A snippet shows the match between its marks, with two dozen characters on
/// either side, and says with dots where it leaves something out.
pub proof fn a_snippet_shows_the_match(body: Seq<char>, at: int, n: int)
    requires
        0 <= at,
        0 <= n,
        at + n <= body.len(),
    ensures
        at <= 24 && body.len() <= at + n + 24 ==> marked_at(body, at, n) == body.take(at)
            + seq!['\u{E000}'] + body.subrange(at, at + n) + seq!['\u{E001}'] + body.skip(at + n),
        at > 24 && body.len() > at + n + 24 ==> marked_at(body, at, n) == seq!['…']
            + body.subrange(at - 24, at) + seq!['\u{E000}'] + body.subrange(at, at + n) + seq![
            '\u{E001}',
        ] + body.subrange(at + n, at + n + 24) + seq!['…'],
        at <= 24 && body.len() > at + n + 24 ==> marked_at(body, at, n) == body.take(at) + seq![
            '\u{E000}',
        ] + body.subrange(at, at + n) + seq!['\u{E001}'] + body.subrange(at + n, at + n + 24)
            + seq!['…'],
        at > 24 && body.len() <= at + n + 24 ==> marked_at(body, at, n) == seq!['…']
            + body.subrange(at - 24, at) + seq!['\u{E000}'] + body.subrange(at, at + n) + seq![
            '\u{E001}',
        ] + body.skip(at + n),
{
    assert(body.subrange(0, at) =~= body.take(at));
    assert(body.subrange(at + n, body.len() as int) =~= body.skip(at + n));
    let none = Seq::<char>::empty();
    assert(none + body.take(at) =~= body.take(at));
    let whole = body.take(at) + seq!['\u{E000}'] + body.subrange(at, at + n) + seq!['\u{E001}']
        + body.skip(at + n);
    assert(whole + none =~= whole);
    let led = seq!['…'] + body.subrange(at - 24, at) + seq!['\u{E000}'] + body.subrange(
        at,
        at + n,
    ) + seq!['\u{E001}'] + body.skip(at + n);
    assert(led + none =~= led);
}

/// A row's preview is the words of the text on one line, as far as there is
/// room for them.
pub proof fn a_preview_is_the_opening(s: Seq<char>)
    ensures
        preview(s).len() <= 160,
        preview(s).is_prefix_of(joined(words_of(s), seq![' '])),
        joined(words_of(s), seq![' ']).len() <= 160 ==> preview(s) == joined(
            words_of(s),
            seq![' '],
        ),
        joined(words_of(s), seq![' ']).len() > 160 ==> preview(s).len() == 160,
{
    let line = joined(words_of(s), seq![' ']);
    assert(preview(s) =~= line.subrange(0, preview(s).len() as int));
}

/// The word under way is the last run of letters and digits, whole.
pub proof fn the_last_run_is_the_whole_run(before: Seq<char>, run: Seq<char>, after: Seq<char>)
    requires
        before.len() > 0 ==> !is_alnum(before.last()),
        forall|i: int| 0 <= i < run.len() ==> is_alnum(#[trigger] run[i]),
        run.len() > 0,
        forall|i: int| 0 <= i < after.len() ==> !is_alnum(#[trigger] after[i]),
    ensures
        last_run(before + run + after) == run,
{
    let s = before + run + after;
    last_one_is_found(before + run, after);
    let end = before.len() + run.len();
    assert(s.take(end as int) =~= before + run);
    last_run_begins(before, run);
    assert(s.subrange(before.len() as int, end as int) =~= run);
}

proof fn last_one_is_found(head: Seq<char>, after: Seq<char>)
    requires
        head.len() > 0,
        is_alnum(head.last()),
        forall|i: int| 0 <= i < after.len() ==> !is_alnum(#[trigger] after[i]),
    ensures
        last_alnum_end(head + after) == head.len(),
    decreases after.len(),
{
    if after.len() == 0 {
        assert(head + after =~= head);
    } else {
        let less = after.drop_last();
        assert((head + after).drop_last() =~= head + less);
        assert(!is_alnum(after[after.len() - 1]));
        assert forall|i: int| 0 <= i < less.len() implies !is_alnum(#[trigger] less[i]) by {
            assert(less[i] == after[i]);
        }
        last_one_is_found(head, less);
    }
}

proof fn last_run_begins(before: Seq<char>, run: Seq<char>)
    requires
        before.len() > 0 ==> !is_alnum(before.last()),
        forall|i: int| 0 <= i < run.len() ==> is_alnum(#[trigger] run[i]),
    ensures
        alnum_start(before + run) == before.len(),
    decreases run.len(),
{
    if run.len() == 0 {
        assert(before + run =~= before);
    } else {
        let less = run.drop_last();
        assert((before + run).drop_last() =~= before + less);
        assert(is_alnum(run[run.len() - 1]));
        assert forall|i: int| 0 <= i < less.len() implies is_alnum(#[trigger] less[i]) by {
            assert(less[i] == run[i]);
        }
        last_run_begins(before, less);
    }
}

} // verus!
