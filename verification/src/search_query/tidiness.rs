//! What every parsed query is like.
//!
//! However the field was typed, the tree it is read as is tidy, holds no more
//! clauses than the limit, holds only values the field can hold, and wears
//! quotes where it has to. So writing it out and reading it back gives the
//! same query.

use super::lexer::{
    field_is_in_order, is_quote_mark, is_shareable, is_spacing, lexed, lexed_in_order, lexing_ok,
    mark_depth, marks_of, marks_ok_so_far, quote_is_inside, Chunk, Lexing, Mark,
};
use super::printer::{query_text, settled, settled_each, settled_point};
use super::reader::{
    all_flat, all_held, any_flat, any_held, asked, closed_up, excluding_dashes, held, is_excluded,
    is_over, one, operator_end, operator_of, opposite, progress, reading, shared_with,
    shared_with_each, tokens_ask, without_dashes, Bracket, Keyword, Progress, Reading, Sign,
};
use super::rebuilding::written_query_reads_back;
use super::round_trip::{
    clauses, clauses_in, is_clean, is_holdable, is_holdable_point, is_tidy, is_writable,
};
use super::{intake, query_of, Ask, Point, Tree, MAX_CLAUSES, MAX_VALUE_CHARS};
use crate::text::{
    ascii_lowercase, find_char_is_first, has_white, is_ascii_text, is_trimmed, is_white, lower,
    trim, trim_end, trim_end_is_prefix, trim_fixes, trim_is_stretch, trim_trims,
};
use vstd::prelude::*;

verus! {

/// Whether something holds of every clause of a tree.
pub open spec fn every(tree: Tree, f: spec_fn(Point) -> bool) -> bool
    decreases tree,
{
    match tree {
        Tree::Clause(point) => f(point),
        Tree::Not(inner) => every(*inner, f),
        Tree::All(parts) => forall|i: int| 0 <= i < parts.len() ==> every(#[trigger] parts[i], f),
        Tree::Any(parts) => forall|i: int| 0 <= i < parts.len() ==> every(#[trigger] parts[i], f),
    }
}

/// A folder's name as a query holds it: one the field can hold, lowered, and
/// trimmed and cut again, since a few letters lower to two. What lowering
/// makes of letters beyond ASCII is the Unicode tables' affair.
pub open spec fn is_folder_name(name: Seq<char>) -> bool {
    &&& is_trimmed(name)
    &&& name.len() <= MAX_VALUE_CHARS
    &&& exists|typed: Seq<char>| #[trigger]
        is_holdable(typed) && name == held(lower(typed)) && (is_ascii_text(typed) ==> is_holdable(
            name,
        ))
}

/// The clause holds a value the field can hold, or a date there is.
pub open spec fn is_kept_point(point: Point) -> bool {
    match point.term {
        Ask::In(name) => is_folder_name(name),
        _ => is_holdable_point(point),
    }
}

pub open spec fn is_settled_point(point: Point) -> bool {
    settled_point(point) == point
}

/// A folder's name that lowering leaves alone, and that the field can hold.
pub open spec fn is_low_point(point: Point) -> bool {
    point.term matches Ask::In(v) ==> is_holdable(v) && held(lower(v)) == v
}

pub open spec fn is_good(tree: Tree, f: spec_fn(Point) -> bool) -> bool {
    is_tidy(tree) && every(tree, f)
}

pub open spec fn all_good(parts: Seq<Tree>, f: spec_fn(Point) -> bool) -> bool {
    forall|i: int| 0 <= i < parts.len() ==> is_good(#[trigger] parts[i], f)
}

/// A clause, given the operator of the bracket it stands in.
pub open spec fn shared_point(key: Seq<char>, point: Point) -> Point {
    match point.term {
        Ask::Text(text) => match asked(key, text.value, text.exact) {
            Some(term) => Point { term, ..point },
            None => point,
        },
        _ => point,
    }
}

pub open spec fn flipped(point: Point) -> Point {
    Point { negated: !point.negated, ..point }
}

/// Something that, once it holds of a clause, goes on holding however the
/// field is bracketed around it.
pub open spec fn is_lasting(f: spec_fn(Point) -> bool) -> bool {
    &&& forall|point: Point| f(point) ==> f(#[trigger] flipped(point))
    &&& forall|point: Point| f(point) ==> f(#[trigger] settled_point(point))
    &&& forall|key: Seq<char>, point: Point|
        f(point) ==> f(#[trigger] shared_point(key, point))
}

/// Whether every folder named in the query is one that lowering leaves alone.
pub open spec fn folders_stay(root: Option<Tree>) -> bool {
    root matches Some(tree) ==> every(tree, |p: Point| is_low_point(p))
}

proof fn every_part(tree: Tree, f: spec_fn(Point) -> bool, i: int)
    requires
        every(tree, f),
        tree matches Tree::All(parts) ==> 0 <= i < parts.len(),
        tree matches Tree::Any(parts) ==> 0 <= i < parts.len(),
    ensures
        tree matches Tree::All(parts) ==> every(parts[i], f),
        tree matches Tree::Any(parts) ==> every(parts[i], f),
{
}

// ---------------------------------------------------------------------
// Values
// ---------------------------------------------------------------------
proof fn clean_stretch(s: Seq<char>, a: int, b: int)
    requires
        is_clean(s),
        0 <= a <= b <= s.len(),
    ensures
        is_clean(s.subrange(a, b)),
{
    let t = s.subrange(a, b);
    assert forall|i: int| 0 <= i < t.len() implies !is_quote_mark(#[trigger] t[i]) && (is_spacing(
        t[i],
    ) ==> t[i] == ' ') by {
        assert(t[i] == s[a + i]);
    }
    assert forall|i: int| 0 < i < t.len() && #[trigger] t[i] == ' ' implies t[i - 1] != ' ' by {
        assert(t[i] == s[a + i]);
        assert(t[i - 1] == s[a + i - 1]);
    }
}

/// Whatever is held is trimmed and within the limit.
proof fn held_is_trimmed(raw: Seq<char>)
    ensures
        is_trimmed(held(raw)),
        held(raw).len() <= MAX_VALUE_CHARS,
{
    trim_trims(raw);
    let t = trim(raw);
    if is_over(raw) {
        let cut = t.take(MAX_VALUE_CHARS as int);
        trim_end_is_prefix(cut);
        if trim_end(cut).len() > 0 {
            assert(trim_end(cut)[0] == t[0]);
        }
    }
}

/// A value held from clean text can be held again.
proof fn held_is_holdable(raw: Seq<char>)
    requires
        is_clean(raw),
        held(raw).len() > 0,
    ensures
        is_holdable(held(raw)),
{
    let at = trim_is_stretch(raw);
    trim_trims(raw);
    clean_stretch(raw, at, at + trim(raw).len());
    let t = trim(raw);
    if is_over(raw) {
        let cut = t.take(MAX_VALUE_CHARS as int);
        trim_end_is_prefix(cut);
        assert(trim_end(cut) =~= t.subrange(0, trim_end(cut).len() as int));
        clean_stretch(t, 0, trim_end(cut).len() as int);
        assert(trim_end(cut)[0] == t[0]);
    }
}

proof fn asked_is_kept(key: Seq<char>, value: Seq<char>, exact: bool, negated: bool)
    requires
        is_holdable(value),
    ensures
        asked(key, value, exact) matches Some(term) ==> is_kept_point(Point { negated, term }),
{
    held_is_trimmed(lower(value));
    if is_ascii_text(value) {
        ascii_folder_stays(value);
    }
    assert(is_holdable(value));
}

pub open spec fn is_clean_mark(mark: Mark) -> bool {
    mark matches Mark::Piece(piece) ==> is_clean(piece.text)
}

pub open spec fn is_clean_lexing(now: Lexing) -> bool {
    &&& is_clean(now.text)
    &&& forall|i: int| 0 <= i < now.out.len() ==> is_clean_mark(#[trigger] now.out[i])
}

proof fn clean_push(s: Seq<char>, c: char)
    requires
        is_clean(s),
        !is_quote_mark(c),
        is_spacing(c) ==> c == ' ' && !(s.len() > 0 && s.last() == ' '),
        c == ' ' ==> !(s.len() > 0 && s.last() == ' '),
    ensures
        is_clean(s.push(c)),
{
    let t = s.push(c);
    assert forall|i: int| 0 < i < t.len() && #[trigger] t[i] == ' ' implies t[i - 1] != ' ' by {
        if i < s.len() {
            assert(s[i] == ' ');
        }
    }
    assert forall|i: int| 0 <= i < t.len() implies !is_quote_mark(#[trigger] t[i]) && (is_spacing(
        t[i],
    ) ==> t[i] == ' ') by {
        if i < s.len() {
            assert(t[i] == s[i]);
        }
    }
}

proof fn next_keeps_clean(now: Lexing, c: char, after: Option<char>)
    requires
        is_clean_lexing(now),
    ensures
        is_clean_lexing(now.next(c, after)),
{
    let then = now.next(c, after);
    if is_quote_mark(c) {
    } else if is_spacing(c) {
        if now.quoted && !(now.text.len() > 0 && now.text.last() == ' ') {
            clean_push(now.text, ' ');
        }
    } else {
        clean_push(now.text, c);
    }
    assert forall|i: int| 0 <= i < then.out.len() implies is_clean_mark(#[trigger] then.out[i]) by {
        if i < now.out.len() {
            assert(then.out[i] == now.out[i]);
        }
    }
}

proof fn lexed_is_clean(from: Lexing, s: Seq<char>, after: Option<char>)
    requires
        is_clean_lexing(from),
    ensures
        is_clean_lexing(lexed(from, s, after)),
    decreases s.len(),
{
    if s.len() > 0 {
        lexed_is_clean(from, s.drop_last(), Some(s.last()));
        next_keeps_clean(lexed(from, s.drop_last(), Some(s.last())), s.last(), after);
    }
}

/// Every piece of a field is clean: no quote mark is left in it, and no
/// spacing but single spaces.
pub proof fn pieces_are_clean(s: Seq<char>)
    ensures
        forall|i: int| 0 <= i < marks_of(s).len() ==> is_clean_mark(#[trigger] marks_of(s)[i]),
{
    lexed_is_clean(Lexing::start(), s, None);
    let end = lexed(Lexing::start(), s, None);
    assert forall|i: int| 0 <= i < marks_of(s).len() implies is_clean_mark(
        #[trigger] marks_of(s)[i],
    ) by {
        if i < end.out.len() {
            assert(marks_of(s)[i] == end.out[i]);
        }
    }
}

/// A minus or a shared operator belongs to the bracket after it.
pub open spec fn leads_to_a_bracket(marks: Seq<Mark>, i: int) -> bool {
    marks[i] is Minus || marks[i] is Shared ==> i + 1 < marks.len() && (marks[i + 1] is Shared
        || marks[i + 1] is Open)
}

/// What a piece of the field is like: there is something in it, no quote mark
/// is left, spacing only where it was quoted and then only single spaces, and
/// where the first quote mark was is inside it. What a shared operator is
/// like: one that can be shared.
pub open spec fn is_sound_mark(mark: Mark) -> bool {
    match mark {
        Mark::Piece(piece) => {
            &&& piece.text.len() > 0
            &&& is_clean(piece.text)
            &&& piece.quote_at is None ==> !has_white(piece.text)
            &&& quote_is_inside(piece)
        },
        Mark::Shared(key) => is_shareable(key),
        _ => true,
    }
}

pub open spec fn is_sound_lexing(now: Lexing) -> bool {
    &&& lexing_ok(now)
    &&& is_clean(now.text)
    &&& now.quoted ==> now.quote_at is Some
    &&& now.quote_at is None ==> !has_white(now.text)
    &&& forall|i: int| 0 <= i < now.out.len() ==> is_sound_mark(#[trigger] now.out[i])
    &&& forall|i: int|
        #![trigger now.out[i]]
        0 <= i < now.out.len() ==> leads_to_a_bracket(now.out, i)
}

proof fn next_keeps_sound(now: Lexing, c: char, after: Option<char>)
    requires
        is_sound_lexing(now),
    ensures
        is_sound_lexing(now.next(c, after)),
{
    let then = now.next(c, after);
    lexed_in_order(now, seq![c], after);
    assert(seq![c].drop_last() =~= Seq::<char>::empty());
    reveal_with_fuel(lexed, 2);
    assert(is_clean_lexing(now)) by {
        assert forall|i: int| 0 <= i < now.out.len() implies is_clean_mark(
            #[trigger] now.out[i],
        ) by {
            assert(is_sound_mark(now.out[i]));
        }
    }
    next_keeps_clean(now, c, after);
    assert forall|i: int| 0 <= i < then.out.len() implies is_sound_mark(#[trigger] then.out[i]) by {
        if i < now.out.len() {
            assert(then.out[i] == now.out[i]);
        }
    }
    assert forall|i: int|
        #![trigger then.out[i]]
        0 <= i < then.out.len() implies leads_to_a_bracket(then.out, i) by {
        if i < now.out.len() {
            assert(then.out[i] == now.out[i]);
            assert(leads_to_a_bracket(now.out, i));
            if i + 1 < now.out.len() {
                assert(then.out[i + 1] == now.out[i + 1]);
            }
        }
    }
}

proof fn lexed_is_sound(from: Lexing, s: Seq<char>, after: Option<char>)
    requires
        is_sound_lexing(from),
    ensures
        is_sound_lexing(lexed(from, s, after)),
    decreases s.len(),
{
    if s.len() > 0 {
        lexed_is_sound(from, s.drop_last(), Some(s.last()));
        next_keeps_sound(lexed(from, s.drop_last(), Some(s.last())), s.last(), after);
    }
}

/// However the field was typed: up to any point no more brackets have closed
/// than have opened, every minus and every shared operator is followed by
/// another or by the bracket it belongs to, and every piece is sound.
pub proof fn a_field_is_sound_pieces(s: Seq<char>)
    ensures
        forall|n: int|
            0 <= n <= marks_of(s).len() ==> mark_depth(#[trigger] marks_of(s).take(n)) >= 0,
        forall|i: int|
            #![trigger marks_of(s)[i]]
            0 <= i < marks_of(s).len() ==> leads_to_a_bracket(marks_of(s), i) && is_sound_mark(
                marks_of(s)[i],
            ),
{
    lexed_is_sound(Lexing::start(), s, None);
    let end = lexed(Lexing::start(), s, None);
    let all = marks_of(s);
    field_is_in_order(s);
    assert forall|n: int| 0 <= n <= all.len() implies mark_depth(#[trigger] all.take(n)) >= 0 by {
        marks_ok_so_far(all, n);
    }
    assert forall|i: int|
        #![trigger all[i]]
        0 <= i < all.len() implies leads_to_a_bracket(all, i) && is_sound_mark(all[i]) by {
        if i < end.out.len() {
            assert(all[i] == end.out[i]);
            assert(leads_to_a_bracket(end.out, i));
            if i + 1 < end.out.len() {
                assert(all[i + 1] == end.out[i + 1]);
            }
        }
    }
}

/// A clause read from a clean piece holds a value that can be held.
proof fn reading_is_kept(piece: Chunk)
    requires
        is_clean(piece.text),
    ensures
        reading(piece) matches Reading::Clause(point) ==> is_kept_point(point),
{
    if reading(piece) is Clause {
        let point = reading(piece)->Clause_0;
        let bare = without_dashes(piece);
        let d = excluding_dashes(piece);
        if is_excluded(piece) {
            assert(bare.text =~= piece.text.subrange(d, piece.text.len() as int));
            clean_stretch(piece.text, d, piece.text.len() as int);
        }
        assert(is_clean(bare.text));
        if operator_of(bare) is Some {
            find_char_is_first(bare.text, ':', 0);
            let at = operator_end(bare)->0;
            let raw = bare.text.skip(at + 1);
            assert(raw =~= bare.text.subrange(at + 1, bare.text.len() as int));
            clean_stretch(bare.text, at + 1, bare.text.len() as int);
            held_is_holdable(raw);
            asked_is_kept(
                ascii_lowercase(bare.text.take(at)),
                held(raw),
                bare.quote_at is Some,
                point.negated,
            );
        } else {
            held_is_holdable(bare.text);
        }
    }
}

// ---------------------------------------------------------------------
// Counting clauses
// ---------------------------------------------------------------------
proof fn clauses_in_two(a: Seq<Tree>, b: Seq<Tree>)
    ensures
        clauses_in(a + b) == clauses_in(a) + clauses_in(b),
    decreases b.len(),
{
    if b.len() == 0 {
        assert(a + b =~= a);
    } else {
        clauses_in_two(a, b.drop_last());
        assert((a + b).drop_last() =~= a + b.drop_last());
    }
}

proof fn clauses_in_one(tree: Tree)
    ensures
        clauses_in(seq![tree]) == clauses(tree),
{
    reveal_with_fuel(clauses_in, 2);
    assert(seq![tree].drop_last() =~= Seq::<Tree>::empty());
}

pub open spec fn clauses_of(tree: Option<Tree>) -> nat {
    match tree {
        Some(t) => clauses(t),
        None => 0,
    }
}

proof fn clauses_in_option(tree: Option<Tree>)
    ensures
        clauses_in(one(tree)) == clauses_of(tree),
{
    if let Some(t) = tree {
        clauses_in_one(t);
    }
}

// ---------------------------------------------------------------------
// Building
// ---------------------------------------------------------------------
proof fn good_two(a: Seq<Tree>, b: Seq<Tree>, f: spec_fn(Point) -> bool)
    requires
        all_good(a, f),
        all_good(b, f),
    ensures
        all_good(a + b, f),
{
    assert forall|i: int| 0 <= i < (a + b).len() implies is_good(#[trigger] (a + b)[i], f) by {
        if i < a.len() {
            assert((a + b)[i] == a[i]);
        } else {
            assert((a + b)[i] == b[i - a.len()]);
        }
    }
}

proof fn good_front(parts: Seq<Tree>, f: spec_fn(Point) -> bool)
    requires
        all_good(parts, f),
        parts.len() > 0,
    ensures
        all_good(parts.drop_last(), f),
        is_good(parts.last(), f),
{
    assert forall|i: int| 0 <= i < parts.len() - 1 implies is_good(
        #[trigger] parts.drop_last()[i], f
    ) by {
        assert(parts.drop_last()[i] == parts[i]);
    }
    assert(is_good(parts[parts.len() - 1], f));
}

proof fn all_flat_is_good(parts: Seq<Tree>, f: spec_fn(Point) -> bool)
    requires
        all_good(parts, f),
    ensures
        all_good(all_flat(parts), f),
        forall|i: int| 0 <= i < all_flat(parts).len() ==> !(#[trigger] all_flat(parts)[i] is All),
        clauses_in(all_flat(parts)) == clauses_in(parts),
    decreases parts.len(),
{
    if parts.len() > 0 {
        good_front(parts, f);
        let front = parts.drop_last();
        all_flat_is_good(front, f);
        let more = match parts.last() {
            Tree::All(inner) => inner,
            other => seq![other],
        };
        assert(all_good(more, f)) by {
            if let Tree::All(inner) = parts.last() {
                assert forall|i: int| 0 <= i < inner.len() implies is_good(#[trigger] inner[i], f) by {
                    every_part(parts.last(), f, i);
                }
            }
        }
        good_two(all_flat(front), more, f);
        clauses_in_two(all_flat(front), more);
        clauses_in_one(parts.last());
        assert forall|i: int| 0 <= i < all_flat(parts).len() implies !(#[trigger] all_flat(parts)[i]
            is All) by {
            if i < all_flat(front).len() {
                assert(all_flat(parts)[i] == all_flat(front)[i]);
            } else {
                assert(all_flat(parts)[i] == more[i - all_flat(front).len()]);
            }
        }
    }
}

proof fn any_flat_is_good(parts: Seq<Tree>, f: spec_fn(Point) -> bool)
    requires
        all_good(parts, f),
    ensures
        all_good(any_flat(parts), f),
        forall|i: int| 0 <= i < any_flat(parts).len() ==> !(#[trigger] any_flat(parts)[i] is Any),
        clauses_in(any_flat(parts)) == clauses_in(parts),
    decreases parts.len(),
{
    if parts.len() > 0 {
        good_front(parts, f);
        let front = parts.drop_last();
        any_flat_is_good(front, f);
        let more = match parts.last() {
            Tree::Any(inner) => inner,
            other => seq![other],
        };
        assert(all_good(more, f)) by {
            if let Tree::Any(inner) = parts.last() {
                assert forall|i: int| 0 <= i < inner.len() implies is_good(#[trigger] inner[i], f) by {
                    every_part(parts.last(), f, i);
                }
            }
        }
        good_two(any_flat(front), more, f);
        clauses_in_two(any_flat(front), more);
        clauses_in_one(parts.last());
        assert forall|i: int| 0 <= i < any_flat(parts).len() implies !(#[trigger] any_flat(parts)[i]
            is Any) by {
            if i < any_flat(front).len() {
                assert(any_flat(parts)[i] == any_flat(front)[i]);
            } else {
                assert(any_flat(parts)[i] == more[i - any_flat(front).len()]);
            }
        }
    }
}

pub open spec fn is_good_option(tree: Option<Tree>, f: spec_fn(Point) -> bool) -> bool {
    tree matches Some(t) ==> is_good(t, f)
}

proof fn held_is_good(parts: Seq<Tree>, f: spec_fn(Point) -> bool)
    requires
        all_good(parts, f),
    ensures
        is_good_option(all_held(parts), f),
        clauses_of(all_held(parts)) == clauses_in(parts),
        is_good_option(any_held(parts), f),
        clauses_of(any_held(parts)) == clauses_in(parts),
{
    all_flat_is_good(parts, f);
    any_flat_is_good(parts, f);
    let all = all_flat(parts);
    let any = any_flat(parts);
    if all.len() == 1 {
        clauses_in_one(all[0]);
        assert(all =~= seq![all[0]]);
    } else if all.len() > 1 {
        assert forall|i: int| 0 <= i < all.len() implies !(#[trigger] all[i] is All) && is_tidy(
            all[i],
        ) by {
            assert(is_good(all[i], f));
        }
        assert forall|i: int| 0 <= i < all.len() implies every(#[trigger] all[i], f) by {
            assert(is_good(all[i], f));
        }
    }
    if any.len() == 1 {
        clauses_in_one(any[0]);
        assert(any =~= seq![any[0]]);
    } else if any.len() > 1 {
        assert forall|i: int| 0 <= i < any.len() implies !(#[trigger] any[i] is Any) && is_tidy(
            any[i],
        ) by {
            assert(is_good(any[i], f));
        }
        assert forall|i: int| 0 <= i < any.len() implies every(#[trigger] any[i], f) by {
            assert(is_good(any[i], f));
        }
    }
}

proof fn opposite_is_good(tree: Tree, f: spec_fn(Point) -> bool)
    requires
        is_lasting(f),
        is_good(tree, f),
    ensures
        is_good(opposite(tree), f),
        clauses(opposite(tree)) == clauses(tree),
{
    if let Tree::Clause(point) = tree {
        assert(f(point));
        assert(f(flipped(point)));
    }
}

proof fn sharing_is_good(key: Seq<char>, tree: Tree, f: spec_fn(Point) -> bool)
    requires
        is_lasting(f),
        is_good(tree, f),
    ensures
        is_good(shared_with(key, tree), f),
        clauses(shared_with(key, tree)) == clauses(tree),
        tree is All == shared_with(key, tree) is All,
        tree is Any == shared_with(key, tree) is Any,
    decreases tree,
{
    match tree {
        Tree::Clause(point) => {
            assert(f(shared_point(key, point)));
        },
        Tree::Not(inner) => {
            sharing_is_good(key, *inner, f);
        },
        Tree::All(parts) => {
            assert forall|i: int| 0 <= i < parts.len() implies is_good(#[trigger] parts[i], f) by {
                every_part(tree, f, i);
            }
            sharing_each_is_good(key, parts, f);
            let shared = shared_with_each(key, parts);
            assert forall|i: int| 0 <= i < shared.len() implies !(#[trigger] shared[i] is All)
                && is_tidy(shared[i]) && every(shared[i], f) by {
                assert(is_good(shared[i], f));
                assert(!(parts[i] is All));
            }
        },
        Tree::Any(parts) => {
            assert forall|i: int| 0 <= i < parts.len() implies is_good(#[trigger] parts[i], f) by {
                every_part(tree, f, i);
            }
            sharing_each_is_good(key, parts, f);
            let shared = shared_with_each(key, parts);
            assert forall|i: int| 0 <= i < shared.len() implies !(#[trigger] shared[i] is Any)
                && is_tidy(shared[i]) && every(shared[i], f) by {
                assert(is_good(shared[i], f));
                assert(!(parts[i] is Any));
            }
        },
    }
}

proof fn sharing_each_is_good(key: Seq<char>, parts: Seq<Tree>, f: spec_fn(Point) -> bool)
    requires
        is_lasting(f),
        all_good(parts, f),
    ensures
        shared_with_each(key, parts).len() == parts.len(),
        all_good(shared_with_each(key, parts), f),
        clauses_in(shared_with_each(key, parts)) == clauses_in(parts),
        forall|i: int|
            0 <= i < parts.len() ==> {
                &&& parts[i] is All == (#[trigger] shared_with_each(key, parts)[i]) is All
                &&& parts[i] is Any == shared_with_each(key, parts)[i] is Any
            },
    decreases parts,
{
    if parts.len() > 0 {
        good_front(parts, f);
        let front = parts.drop_last();
        sharing_each_is_good(key, front, f);
        sharing_is_good(key, parts.last(), f);
        let done = shared_with_each(key, parts);
        assert(done.drop_last() =~= shared_with_each(key, front));
        assert forall|i: int| 0 <= i < done.len() implies is_good(#[trigger] done[i], f) by {
            if i < front.len() {
                assert(done[i] == shared_with_each(key, front)[i]);
            }
        }
        assert forall|i: int| 0 <= i < parts.len() implies {
            &&& parts[i] is All == (#[trigger] done[i]) is All
            &&& parts[i] is Any == done[i] is Any
        } by {
            if i < front.len() {
                assert(done[i] == shared_with_each(key, front)[i]);
                assert(front[i] == parts[i]);
            }
        }
    }
}

// ---------------------------------------------------------------------
// Brackets and tokens
// ---------------------------------------------------------------------
pub open spec fn is_good_bracket(bracket: Bracket, f: spec_fn(Point) -> bool) -> bool {
    all_good(bracket.alternatives, f) && all_good(bracket.parts, f)
}

pub open spec fn bracket_clauses(bracket: Bracket) -> nat {
    clauses_in(bracket.alternatives) + clauses_in(bracket.parts)
}

pub open spec fn open_clauses(open: Seq<Bracket>) -> nat
    decreases open.len(),
{
    if open.len() == 0 {
        0
    } else {
        open_clauses(open.drop_last()) + bracket_clauses(open.last())
    }
}

proof fn good_one(tree: Option<Tree>, f: spec_fn(Point) -> bool)
    requires
        is_good_option(tree, f),
    ensures
        all_good(one(tree), f),
{
}

proof fn after_or_is_good(bracket: Bracket, f: spec_fn(Point) -> bool)
    requires
        is_good_bracket(bracket, f),
    ensures
        is_good_bracket(bracket.after_or(), f),
        bracket_clauses(bracket.after_or()) == bracket_clauses(bracket),
{
    held_is_good(bracket.parts, f);
    good_one(all_held(bracket.parts), f);
    good_two(bracket.alternatives, one(all_held(bracket.parts)), f);
    clauses_in_two(bracket.alternatives, one(all_held(bracket.parts)));
    clauses_in_option(all_held(bracket.parts));
}

proof fn with_is_good(bracket: Bracket, tree: Option<Tree>, f: spec_fn(Point) -> bool)
    requires
        is_good_bracket(bracket, f),
        is_good_option(tree, f),
    ensures
        is_good_bracket(bracket.with(tree), f),
        bracket_clauses(bracket.with(tree)) == bracket_clauses(bracket) + clauses_of(tree),
{
    good_one(tree, f);
    good_two(bracket.parts, one(tree), f);
    clauses_in_two(bracket.parts, one(tree));
    clauses_in_option(tree);
}

proof fn closed_is_good(bracket: Bracket, f: spec_fn(Point) -> bool)
    requires
        is_lasting(f),
        is_good_bracket(bracket, f),
    ensures
        is_good_option(bracket.closed(), f),
        clauses_of(bracket.closed()) == bracket_clauses(bracket),
{
    after_or_is_good(bracket, f);
    held_is_good(bracket.after_or().alternatives, f);
    assert(clauses_in(bracket.after_or().parts) == 0);
    if let Some(tree) = bracket.inside() {
        if let Some(key) = bracket.shared {
            sharing_is_good(key, tree, f);
            opposite_is_good(shared_with(key, tree), f);
        } else {
            opposite_is_good(tree, f);
        }
    }
}

pub open spec fn clause_signs(tokens: Seq<Sign>) -> nat
    decreases tokens.len(),
{
    if tokens.len() == 0 {
        0
    } else {
        clause_signs(tokens.drop_last()) + if tokens.last() is Clause {
            1nat
        } else {
            0nat
        }
    }
}

pub open spec fn all_kept(tokens: Seq<Sign>, f: spec_fn(Point) -> bool) -> bool {
    forall|i: int|
        0 <= i < tokens.len() ==> (#[trigger] tokens[i] matches Sign::Clause(point)
            ==> f(point))
}

pub open spec fn all_good_brackets(open: Seq<Bracket>, f: spec_fn(Point) -> bool) -> bool {
    forall|i: int| 0 <= i < open.len() ==> is_good_bracket(#[trigger] open[i], f)
}

proof fn open_pushed(open: Seq<Bracket>, bracket: Bracket, f: spec_fn(Point) -> bool)
    requires
        all_good_brackets(open, f),
        is_good_bracket(bracket, f),
    ensures
        all_good_brackets(open.push(bracket), f),
        open_clauses(open.push(bracket)) == open_clauses(open) + bracket_clauses(bracket),
{
    assert(open.push(bracket).drop_last() =~= open);
}

proof fn good_outer(open: Seq<Bracket>, f: spec_fn(Point) -> bool)
    requires
        all_good_brackets(open, f),
        open.len() > 0,
    ensures
        all_good_brackets(open.drop_last(), f),
        is_good_bracket(open.last(), f),
{
    assert(is_good_bracket(open[open.len() - 1], f));
    assert forall|i: int| 0 <= i < open.len() - 1 implies is_good_bracket(
        #[trigger] open.drop_last()[i], f
    ) by {
        assert(open.drop_last()[i] == open[i]);
    }
}

proof fn progress_is_good(tokens: Seq<Sign>, f: spec_fn(Point) -> bool)
    requires
        is_lasting(f),
        super::reader::well_bracketed(tokens),
        all_kept(tokens, f),
    ensures
        all_good_brackets(progress(tokens).open, f),
        open_clauses(progress(tokens).open) == clause_signs(tokens),
    decreases tokens.len(),
{
    let empty = Bracket::opened(false, None);
    if tokens.len() == 0 {
        reveal_with_fuel(open_clauses, 2);
        assert(seq![empty].drop_last() =~= Seq::<Bracket>::empty());
    } else {
        let before = tokens.drop_last();
        assert(before =~= tokens.take(tokens.len() - 1));
        super::reader::well_bracketed_so_far(tokens, tokens.len() - 1);
        assert(tokens.take(tokens.len() as int) =~= tokens);
        super::reader::brackets_match_depth(before);
        super::reader::brackets_match_depth(tokens);
        assert forall|i: int| 0 <= i < before.len() implies (
        #[trigger] before[i] matches Sign::Clause(point) ==> f(point)) by {
            assert(before[i] == tokens[i]);
        }
        progress_is_good(before, f);
        let now = progress(before);
        let token = tokens.last();
        assert(token == tokens[tokens.len() - 1]);
        good_outer(now.open, f);
        let outer = now.open.drop_last();
        let last = now.open.last();
        assert(outer.push(last) =~= now.open);
        match token {
            Sign::Keyword(Keyword::Or) => {
                after_or_is_good(last, f);
                open_pushed(outer, last.after_or(), f);
            },
            Sign::Clause(point) => {
                let tree = Tree::Clause(point);
                opposite_is_good(tree, f);
                let part = if now.excluding {
                    opposite(tree)
                } else {
                    tree
                };
                with_is_good(last, Some(part), f);
                open_pushed(outer, last.with(Some(part)), f);
            },
            Sign::Open => {
                open_pushed(now.open, Bracket::opened(now.excluding, now.sharing), f);
            },
            Sign::Close => {
                closed_is_good(last, f);
                good_outer(outer, f);
                with_is_good(outer.last(), last.closed(), f);
                open_pushed(outer.drop_last(), outer.last().with(last.closed()), f);
            },
            _ => {},
        }
    }
}

proof fn closed_up_is_good(open: Seq<Bracket>, inner: Option<Tree>, f: spec_fn(Point) -> bool)
    requires
        is_lasting(f),
        all_good_brackets(open, f),
        is_good_option(inner, f),
    ensures
        is_good_option(closed_up(open, inner), f),
        clauses_of(closed_up(open, inner)) == open_clauses(open) + clauses_of(inner),
    decreases open.len(),
{
    if open.len() > 0 {
        good_outer(open, f);
        with_is_good(open.last(), inner, f);
        closed_is_good(open.last().with(inner), f);
        closed_up_is_good(open.drop_last(), open.last().with(inner).closed(), f);
    }
}

/// Something that holds of every clause a piece reads as.
pub open spec fn reads_as(mark: Mark, f: spec_fn(Point) -> bool) -> bool {
    mark matches Mark::Piece(piece) ==> (reading(piece) matches Reading::Clause(point) ==> f(point))
}

proof fn intake_is_kept(marks: Seq<Mark>, f: spec_fn(Point) -> bool)
    requires
        forall|i: int| 0 <= i < marks.len() ==> reads_as(#[trigger] marks[i], f),
    ensures
        all_kept(intake(marks).tokens, f),
        clause_signs(intake(marks).tokens) == intake(marks).clauses,
    decreases marks.len(),
{
    if marks.len() > 0 {
        let front = marks.drop_last();
        assert forall|i: int| 0 <= i < front.len() implies reads_as(#[trigger] front[i], f) by {
            assert(front[i] == marks[i]);
        }
        intake_is_kept(front, f);
        let before = intake(front);
        let after = intake(marks);
        assert(reads_as(marks[marks.len() - 1], f));
        if after.tokens.len() > before.tokens.len() {
            assert(after.tokens.drop_last() =~= before.tokens);
            assert forall|i: int| 0 <= i < after.tokens.len() implies (
            #[trigger] after.tokens[i] matches Sign::Clause(point) ==> f(point)) by {
                if i < before.tokens.len() {
                    assert(after.tokens[i] == before.tokens[i]);
                }
            }
        }
    }
}

// ---------------------------------------------------------------------
// Settling
// ---------------------------------------------------------------------
proof fn settling_settles(point: Point)
    ensures
        is_settled_point(settled_point(point)),
{
}

proof fn settled_is_good(tree: Tree, f: spec_fn(Point) -> bool)
    requires
        is_lasting(f),
        is_good(tree, f),
    ensures
        is_good(settled(tree), f),
        every(settled(tree), |p: Point| is_settled_point(p)),
        clauses(settled(tree)) == clauses(tree),
        tree is All == settled(tree) is All,
        tree is Any == settled(tree) is Any,
    decreases tree,
{
    match tree {
        Tree::Clause(point) => {
            assert(f(point));
            settling_settles(point);
        },
        Tree::Not(inner) => {
            settled_is_good(*inner, f);
        },
        Tree::All(parts) => {
            assert forall|i: int| 0 <= i < parts.len() implies is_good(#[trigger] parts[i], f) by {
                every_part(tree, f, i);
            }
            settled_each_is_good(parts, f);
            let done = settled_each(parts);
            assert forall|i: int| 0 <= i < done.len() implies !(#[trigger] done[i] is All)
                && is_tidy(done[i]) && every(done[i], f) by {
                assert(is_good(done[i], f));
                assert(!(parts[i] is All));
            }
        },
        Tree::Any(parts) => {
            assert forall|i: int| 0 <= i < parts.len() implies is_good(#[trigger] parts[i], f) by {
                every_part(tree, f, i);
            }
            settled_each_is_good(parts, f);
            let done = settled_each(parts);
            assert forall|i: int| 0 <= i < done.len() implies !(#[trigger] done[i] is Any)
                && is_tidy(done[i]) && every(done[i], f) by {
                assert(is_good(done[i], f));
                assert(!(parts[i] is Any));
            }
        },
    }
}

proof fn settled_each_is_good(parts: Seq<Tree>, f: spec_fn(Point) -> bool)
    requires
        is_lasting(f),
        all_good(parts, f),
    ensures
        settled_each(parts).len() == parts.len(),
        all_good(settled_each(parts), f),
        forall|i: int|
            0 <= i < parts.len() ==> every(
                #[trigger] settled_each(parts)[i],
                |p: Point| is_settled_point(p),
            ),
        clauses_in(settled_each(parts)) == clauses_in(parts),
        forall|i: int|
            0 <= i < parts.len() ==> {
                &&& parts[i] is All == (#[trigger] settled_each(parts)[i]) is All
                &&& parts[i] is Any == settled_each(parts)[i] is Any
            },
    decreases parts,
{
    if parts.len() > 0 {
        good_front(parts, f);
        let front = parts.drop_last();
        settled_each_is_good(front, f);
        settled_is_good(parts.last(), f);
        let done = settled_each(parts);
        assert(done.drop_last() =~= settled_each(front));
        assert forall|i: int| 0 <= i < done.len() implies is_good(#[trigger] done[i], f) && every(
            done[i],
            |p: Point| is_settled_point(p),
        ) by {
            if i < front.len() {
                assert(done[i] == settled_each(front)[i]);
            }
        }
        assert forall|i: int| 0 <= i < parts.len() implies {
            &&& parts[i] is All == (#[trigger] done[i]) is All
            &&& parts[i] is Any == done[i] is Any
        } by {
            if i < front.len() {
                assert(done[i] == settled_each(front)[i]);
                assert(front[i] == parts[i]);
            }
        }
    }
}

// ---------------------------------------------------------------------
// The laws
// ---------------------------------------------------------------------
/// However the field was typed and bracketed, the query is tidy: an `All`
/// never directly holds an `All`, nor an `Any` an `Any`, neither holds fewer
/// than two things, and a `Not` holds a group. It holds no more clauses than
/// the limit, every value in it is one the field can hold, a folder's name is
/// such a value in lower case, and words that could only be written in quotes
/// are words in quotes.
pub proof fn parsed_queries_are_tidy(s: Seq<char>)
    ensures
        query_of(s) matches Some(tree) ==> {
            &&& is_tidy(tree)
            &&& clauses(tree) <= MAX_CLAUSES
            &&& every(tree, |p: Point| is_kept_point(p))
            &&& every(tree, |p: Point| is_settled_point(p))
        },
{
    pieces_are_clean(s);
    let kept = |p: Point| is_kept_point(p);
    assert forall|i: int| 0 <= i < marks_of(s).len() implies reads_as(
        #[trigger] marks_of(s)[i],
        kept,
    ) by {
        assert(is_clean_mark(marks_of(s)[i]));
        if let Mark::Piece(piece) = marks_of(s)[i] {
            reading_is_kept(piece);
        }
    }
    kept_lasts();
    parsed_in_order(s, kept);
}

/// What lasts and holds of every clause read holds of the whole query.
proof fn parsed_in_order(s: Seq<char>, f: spec_fn(Point) -> bool)
    requires
        is_lasting(f),
        forall|i: int| 0 <= i < marks_of(s).len() ==> reads_as(#[trigger] marks_of(s)[i], f),
    ensures
        query_of(s) matches Some(tree) ==> {
            &&& is_good(tree, f)
            &&& clauses(tree) <= MAX_CLAUSES
            &&& every(tree, |p: Point| is_settled_point(p))
        },
{
    let marks = marks_of(s);
    intake_is_kept(marks, f);
    field_is_in_order(s);
    super::intake_is_bracketed(marks);
    let tokens = intake(marks).tokens;
    progress_is_good(tokens, f);
    closed_up_is_good(progress(tokens).open, None, f);
    if let Some(tree) = tokens_ask(tokens) {
        settled_is_good(tree, f);
    }
}

proof fn kept_lasts()
    ensures
        is_lasting(|p: Point| is_kept_point(p)),
{
    let kept = |p: Point| is_kept_point(p);
    assert forall|key: Seq<char>, point: Point| kept(point) implies kept(
        #[trigger] shared_point(key, point),
    ) by {
        if let Ask::Text(text) = point.term {
            asked_is_kept(key, text.value, text.exact, point.negated);
        }
    }
}

proof fn writable_in_all(tree: Tree)
    requires
        every(tree, |p: Point| is_kept_point(p)),
        every(tree, |p: Point| is_settled_point(p)),
        every(tree, |p: Point| is_low_point(p)),
    ensures
        is_writable(tree),
    decreases tree,
{
    let kept = |p: Point| is_kept_point(p);
    let calm = |p: Point| is_settled_point(p);
    let low = |p: Point| is_low_point(p);
    match tree {
        Tree::Clause(point) => {
            assert(kept(point) && calm(point) && low(point));
        },
        Tree::Not(inner) => writable_in_all(*inner),
        Tree::All(parts) => {
            assert forall|i: int| 0 <= i < parts.len() implies is_writable(#[trigger] parts[i]) by {
                every_part(tree, kept, i);
                every_part(tree, calm, i);
                every_part(tree, low, i);
                writable_in_all(parts[i]);
            }
        },
        Tree::Any(parts) => {
            assert forall|i: int| 0 <= i < parts.len() implies is_writable(#[trigger] parts[i]) by {
                every_part(tree, kept, i);
                every_part(tree, calm, i);
                every_part(tree, low, i);
                writable_in_all(parts[i]);
            }
        },
    }
}

/// The query as it would be typed reads back as the same query, whatever the
/// field held. A folder's name is lowered on the way in, and again when it is
/// read back, so the law speaks of folders whose lowered name stays as it is.
pub proof fn query_reads_back(s: Seq<char>)
    requires
        folders_stay(query_of(s)),
    ensures
        query_of(query_text(query_of(s))) == query_of(s),
{
    match query_of(s) {
        Some(tree) => {
            parsed_queries_are_tidy(s);
            writable_in_all(tree);
            written_query_reads_back(tree);
        },
        None => {
            empty_field_asks_nothing();
        },
    }
}

/// An empty field is not a search.
pub proof fn empty_field_asks_nothing()
    ensures
        query_of(Seq::empty()) is None,
{
    let none = Seq::<char>::empty();
    assert(marks_of(none) =~= Seq::<Mark>::empty());
    let open = Progress::start().open;
    let last = open.last();
    assert(last.with(None) =~= last);
    assert(last.after_or().alternatives =~= Seq::<Tree>::empty());
    assert(open.drop_last() =~= Seq::<Bracket>::empty());
    reveal_with_fuel(closed_up, 2);
}

// ---------------------------------------------------------------------
// Fields typed in ASCII
// ---------------------------------------------------------------------
/// The clause was typed in ASCII: its words are, and a folder's name is one
/// that lowering leaves alone.
pub open spec fn is_ascii_point(point: Point) -> bool {
    &&& is_kept_point(point)
    &&& is_low_point(point)
    &&& point.term matches Ask::Text(text) ==> is_ascii_text(text.value)
}

proof fn ascii_stretch(s: Seq<char>, a: int, b: int)
    requires
        is_ascii_text(s),
        0 <= a <= b <= s.len(),
    ensures
        is_ascii_text(s.subrange(a, b)),
{
    assert forall|i: int| 0 <= i < b - a implies #[trigger] s.subrange(a, b)[i] <= '\u{7f}' by {
        assert(s.subrange(a, b)[i] == s[a + i]);
    }
}

proof fn held_is_ascii(raw: Seq<char>)
    requires
        is_ascii_text(raw),
    ensures
        is_ascii_text(held(raw)),
{
    let at = trim_is_stretch(raw);
    ascii_stretch(raw, at, at + trim(raw).len());
    if is_over(raw) {
        let cut = trim(raw).take(MAX_VALUE_CHARS as int);
        trim_end_is_prefix(cut);
        assert(trim_end(cut) =~= trim(raw).subrange(0, trim_end(cut).len() as int));
        ascii_stretch(trim(raw), 0, trim_end(cut).len() as int);
    }
}

/// Lowering a value in ASCII leaves one the field can hold, and lowering that
/// changes nothing.
proof fn ascii_folder_stays(value: Seq<char>)
    requires
        is_holdable(value),
        is_ascii_text(value),
    ensures
        is_holdable(held(lower(value))),
        held(lower(held(lower(value)))) == held(lower(value)),
{
    let low = ascii_lowercase(value);
    assert forall|i: int| 0 <= i < low.len() implies {
        &&& #[trigger] low[i] <= '\u{7f}'
        &&& !is_quote_mark(low[i])
        &&& is_spacing(low[i]) == is_spacing(value[i])
        &&& is_white(low[i]) == is_white(value[i])
        &&& (low[i] == ' ') == (value[i] == ' ')
    } by {
        assert(value[i] <= '\u{7f}');
        assert(!is_quote_mark(value[i]));
    }
    assert forall|i: int| 0 < i < low.len() && #[trigger] low[i] == ' ' implies low[i - 1]
        != ' ' by {
        assert(value[i] == ' ');
        assert(value[i - 1] != ' ');
        assert(low[i - 1] <= '\u{7f}');
    }
    assert(low[0] <= '\u{7f}' && low[low.len() - 1] <= '\u{7f}');
    trim_fixes(low);
    assert(held(low) == low);
    assert(ascii_lowercase(low) =~= low);
}

proof fn asked_is_ascii(key: Seq<char>, value: Seq<char>, exact: bool, negated: bool)
    requires
        is_holdable(value),
        is_ascii_text(value),
    ensures
        asked(key, value, exact) matches Some(term) ==> is_ascii_point(Point { negated, term }),
{
    asked_is_kept(key, value, exact, negated);
    ascii_folder_stays(value);
}

pub open spec fn is_ascii_mark(mark: Mark) -> bool {
    mark matches Mark::Piece(piece) ==> is_ascii_text(piece.text)
}

pub open spec fn is_ascii_lexing(now: Lexing) -> bool {
    &&& is_ascii_text(now.text)
    &&& forall|i: int| 0 <= i < now.out.len() ==> is_ascii_mark(#[trigger] now.out[i])
}

proof fn lexed_is_ascii(from: Lexing, s: Seq<char>, after: Option<char>)
    requires
        is_ascii_lexing(from),
        is_ascii_text(s),
    ensures
        is_ascii_lexing(lexed(from, s, after)),
    decreases s.len(),
{
    if s.len() > 0 {
        let front = s.drop_last();
        assert(front =~= s.subrange(0, s.len() - 1));
        ascii_stretch(s, 0, s.len() - 1);
        lexed_is_ascii(from, front, Some(s.last()));
        let now = lexed(from, front, Some(s.last()));
        let then = now.next(s.last(), after);
        assert(s[s.len() - 1] <= '\u{7f}');
        assert forall|i: int| 0 <= i < then.text.len() implies #[trigger] then.text[i]
            <= '\u{7f}' by {
            if i < now.text.len() {
                assert(now.text[i] <= '\u{7f}');
            }
        }
        assert forall|i: int| 0 <= i < then.out.len() implies is_ascii_mark(
            #[trigger] then.out[i],
        ) by {
            if i < now.out.len() {
                assert(then.out[i] == now.out[i]);
            }
        }
    }
}

proof fn reading_is_ascii(piece: Chunk)
    requires
        is_clean(piece.text),
        is_ascii_text(piece.text),
    ensures
        reading(piece) matches Reading::Clause(point) ==> is_ascii_point(point),
{
    reading_is_kept(piece);
    if reading(piece) is Clause {
        let point = reading(piece)->Clause_0;
        let bare = without_dashes(piece);
        let d = excluding_dashes(piece);
        if is_excluded(piece) {
            assert(bare.text =~= piece.text.subrange(d, piece.text.len() as int));
            clean_stretch(piece.text, d, piece.text.len() as int);
            ascii_stretch(piece.text, d, piece.text.len() as int);
        }
        if operator_of(bare) is Some {
            find_char_is_first(bare.text, ':', 0);
            let at = operator_end(bare)->0;
            let raw = bare.text.skip(at + 1);
            assert(raw =~= bare.text.subrange(at + 1, bare.text.len() as int));
            clean_stretch(bare.text, at + 1, bare.text.len() as int);
            ascii_stretch(bare.text, at + 1, bare.text.len() as int);
            held_is_holdable(raw);
            held_is_ascii(raw);
            asked_is_ascii(
                ascii_lowercase(bare.text.take(at)),
                held(raw),
                bare.quote_at is Some,
                point.negated,
            );
        } else {
            held_is_ascii(bare.text);
        }
    }
}

proof fn ascii_lasts()
    ensures
        is_lasting(|p: Point| is_ascii_point(p)),
{
    let ascii = |p: Point| is_ascii_point(p);
    assert forall|key: Seq<char>, point: Point| ascii(point) implies ascii(
        #[trigger] shared_point(key, point),
    ) by {
        if let Ask::Text(text) = point.term {
            asked_is_ascii(key, text.value, text.exact, point.negated);
        }
    }
}

proof fn low_where_ascii(tree: Tree)
    requires
        every(tree, |p: Point| is_ascii_point(p)),
    ensures
        every(tree, |p: Point| is_low_point(p)),
    decreases tree,
{
    let ascii = |p: Point| is_ascii_point(p);
    let low = |p: Point| is_low_point(p);
    match tree {
        Tree::Clause(point) => {
            assert(ascii(point));
        },
        Tree::Not(inner) => low_where_ascii(*inner),
        Tree::All(parts) => {
            assert forall|i: int| 0 <= i < parts.len() implies every(#[trigger] parts[i], low) by {
                every_part(tree, ascii, i);
                low_where_ascii(parts[i]);
            }
        },
        Tree::Any(parts) => {
            assert forall|i: int| 0 <= i < parts.len() implies every(#[trigger] parts[i], low) by {
                every_part(tree, ascii, i);
                low_where_ascii(parts[i]);
            }
        },
    }
}

/// A field typed in ASCII reads back as itself, folders and all.
pub proof fn ascii_query_reads_back(s: Seq<char>)
    requires
        is_ascii_text(s),
    ensures
        query_of(query_text(query_of(s))) == query_of(s),
{
    let ascii = |p: Point| is_ascii_point(p);
    lexed_is_ascii(Lexing::start(), s, None);
    pieces_are_clean(s);
    let end = lexed(Lexing::start(), s, None);
    assert forall|i: int| 0 <= i < marks_of(s).len() implies reads_as(
        #[trigger] marks_of(s)[i],
        ascii,
    ) by {
        assert(is_clean_mark(marks_of(s)[i]));
        if i < end.out.len() {
            assert(marks_of(s)[i] == end.out[i]);
            assert(is_ascii_mark(end.out[i]));
        }
        if let Mark::Piece(piece) = marks_of(s)[i] {
            reading_is_ascii(piece);
        }
    }
    ascii_lasts();
    parsed_in_order(s, ascii);
    if let Some(tree) = query_of(s) {
        low_where_ascii(tree);
    }
    query_reads_back(s);
}

} // verus!
