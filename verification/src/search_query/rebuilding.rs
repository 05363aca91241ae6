//! The tree that the pieces of a tree's text build.

use super::lexer::Mark;
use super::printer::{settled, settled_each, tree_text};
use super::reader::{
    all_flat, all_held, any_flat, closed_up, progress, reading, tokens_ask, Bracket, Keyword,
    Progress, Reading, Sign,
};
use super::round_trip::{
    all_marks, any_marks, clauses, clauses_in, is_tidy, is_writable, or_piece, part_marks, piece_of,
    piece_reads_back, tree_marks, tree_text_marks,
};
use super::{intake, query_of, Tree, MAX_CLAUSES};
use vstd::prelude::*;

verus! {

// ---------------------------------------------------------------------
// Pieces to tokens
// ---------------------------------------------------------------------
pub open spec fn sign_of(mark: Mark) -> Sign {
    match mark {
        Mark::Open => Sign::Open,
        Mark::Close => Sign::Close,
        Mark::Minus => Sign::Minus,
        Mark::Shared(key) => Sign::Shared(key),
        Mark::Piece(piece) => match reading(piece) {
            Reading::Keyword(keyword) => Sign::Keyword(keyword),
            Reading::Clause(point) => Sign::Clause(point),
            Reading::Nothing => arbitrary(),
        },
    }
}

pub open spec fn signs_of(marks: Seq<Mark>) -> Seq<Sign> {
    marks.map_values(|mark: Mark| sign_of(mark))
}

pub open spec fn is_something(mark: Mark) -> bool {
    mark matches Mark::Piece(piece) ==> !(reading(piece) is Nothing)
}

pub open spec fn all_something(marks: Seq<Mark>) -> bool {
    forall|i: int| 0 <= i < marks.len() ==> is_something(#[trigger] marks[i])
}

pub open spec fn clause_marks(marks: Seq<Mark>) -> nat
    decreases marks.len(),
{
    if marks.len() == 0 {
        0
    } else {
        clause_marks(marks.drop_last()) + if sign_of(marks.last()) is Clause && marks.last() is Piece {
            1nat
        } else {
            0nat
        }
    }
}

proof fn clause_marks_add(a: Seq<Mark>, b: Seq<Mark>)
    ensures
        clause_marks(a + b) == clause_marks(a) + clause_marks(b),
    decreases b.len(),
{
    if b.len() == 0 {
        assert(a + b =~= a);
    } else {
        clause_marks_add(a, b.drop_last());
        assert((a + b).drop_last() =~= a + b.drop_last());
    }
}

/// Within the clause limit, every piece becomes its token.
proof fn every_piece_is_taken_in(marks: Seq<Mark>)
    requires
        all_something(marks),
        clause_marks(marks) <= MAX_CLAUSES,
    ensures
        intake(marks).tokens == signs_of(marks),
        !intake(marks).full,
        intake(marks).clauses == clause_marks(marks),
    decreases marks.len(),
{
    if marks.len() > 0 {
        let before = marks.drop_last();
        assert forall|i: int| 0 <= i < before.len() implies is_something(#[trigger] before[i]) by {
            assert(before[i] == marks[i]);
        }
        every_piece_is_taken_in(before);
        assert(is_something(marks[marks.len() - 1]));
        assert(signs_of(marks) =~= signs_of(before).push(sign_of(marks.last())));
    } else {
        assert(signs_of(marks) =~= Seq::<Sign>::empty());
    }
}

proof fn or_reads_as_or()
    ensures
        reading(or_piece()) == Reading::Keyword(Keyword::Or),
{
    reveal_strlit("OR");
    reveal_strlit("AND");
}

proof fn tree_marks_count(tree: Tree)
    requires
        is_writable(tree),
    ensures
        all_something(tree_marks(tree)),
        clause_marks(tree_marks(tree)) == clauses(tree),
        all_something(part_marks(tree)),
        clause_marks(part_marks(tree)) == clauses(tree),
    decreases tree, 0nat,
{
    reveal_with_fuel(clause_marks, 3);
    match tree {
        Tree::Clause(point) => {
            piece_reads_back(point);
            let piece = Mark::Piece(piece_of(point));
            assert(seq![piece].drop_last() =~= Seq::<Mark>::empty());
        },
        Tree::Not(inner) => {
            tree_marks_count(*inner);
            let front = seq![Mark::Minus, Mark::Open];
            clause_marks_add(front, tree_marks(*inner));
            clause_marks_add(front + tree_marks(*inner), seq![Mark::Close]);
            assert(front.drop_last() =~= seq![Mark::Minus]);
            assert(seq![Mark::Minus].drop_last() =~= Seq::<Mark>::empty());
            assert(seq![Mark::Close].drop_last() =~= Seq::<Mark>::empty());
        },
        Tree::All(parts) => {
            all_marks_count(parts, parts.len());
            assert(parts.take(parts.len() as int) =~= parts);
        },
        Tree::Any(parts) => {
            any_marks_count(parts, parts.len());
            assert(parts.take(parts.len() as int) =~= parts);
            let inside = tree_marks(tree);
            clause_marks_add(seq![Mark::Open], inside);
            clause_marks_add(seq![Mark::Open] + inside, seq![Mark::Close]);
            assert(seq![Mark::Open].drop_last() =~= Seq::<Mark>::empty());
            assert(seq![Mark::Close].drop_last() =~= Seq::<Mark>::empty());
        },
    }
}

proof fn all_marks_count(parts: Seq<Tree>, n: nat)
    requires
        n <= parts.len(),
        forall|i: int| 0 <= i < parts.len() ==> is_writable(#[trigger] parts[i]),
    ensures
        all_something(all_marks(parts, n)),
        clause_marks(all_marks(parts, n)) == clauses_in(parts.take(n as int)),
    decreases parts, n,
{
    if n > 0 {
        all_marks_count(parts, (n - 1) as nat);
        tree_marks_count(parts[n - 1]);
        clause_marks_add(all_marks(parts, (n - 1) as nat), part_marks(parts[n - 1]));
        assert(parts.take(n as int).drop_last() =~= parts.take(n - 1));
    } else {
        assert(parts.take(0) =~= Seq::<Tree>::empty());
    }
}

proof fn any_marks_count(parts: Seq<Tree>, n: nat)
    requires
        n <= parts.len(),
        forall|i: int| 0 <= i < parts.len() ==> is_writable(#[trigger] parts[i]),
    ensures
        all_something(any_marks(parts, n)),
        clause_marks(any_marks(parts, n)) == clauses_in(parts.take(n as int)),
    decreases parts, n,
{
    reveal_with_fuel(clause_marks, 2);
    reveal_with_fuel(clauses_in, 2);
    if n == 1 {
        tree_marks_count(parts[0]);
        assert(parts.take(1).drop_last() =~= Seq::<Tree>::empty());
    } else if n > 0 {
        let or = seq![Mark::Piece(or_piece())];
        any_marks_count(parts, (n - 1) as nat);
        tree_marks_count(parts[n - 1]);
        or_reads_as_or();
        clause_marks_add(any_marks(parts, (n - 1) as nat), or);
        clause_marks_add(any_marks(parts, (n - 1) as nat) + or, tree_marks(parts[n - 1]));
        assert(or.drop_last() =~= Seq::<Mark>::empty());
        assert(parts.take(n as int).drop_last() =~= parts.take(n - 1));
    } else {
        assert(parts.take(0) =~= Seq::<Tree>::empty());
    }
}

// ---------------------------------------------------------------------
// Tokens to a tree
// ---------------------------------------------------------------------
pub open spec fn fed(from: Progress, tokens: Seq<Sign>) -> Progress
    decreases tokens.len(),
{
    if tokens.len() == 0 {
        from
    } else {
        fed(from, tokens.drop_last()).next(tokens.last())
    }
}

pub proof fn progress_is_fed(tokens: Seq<Sign>)
    ensures
        progress(tokens) == fed(Progress::start(), tokens),
    decreases tokens.len(),
{
    if tokens.len() > 0 {
        progress_is_fed(tokens.drop_last());
    }
}

pub proof fn fed_in_two(from: Progress, a: Seq<Sign>, b: Seq<Sign>)
    ensures
        fed(from, a + b) == fed(fed(from, a), b),
    decreases b.len(),
{
    if b.len() == 0 {
        assert(a + b =~= a);
    } else {
        fed_in_two(from, a, b.drop_last());
        assert((a + b).drop_last() =~= a + b.drop_last());
    }
}

pub proof fn fed_one(from: Progress, token: Sign)
    ensures
        fed(from, seq![token]) == from.next(token),
{
    reveal_with_fuel(fed, 2);
    assert(seq![token].drop_last() =~= Seq::<Sign>::empty());
}

/// Ready for the next part: nothing is about to be excluded or shared.
pub open spec fn is_ready(now: Progress) -> bool {
    now.open.len() > 0 && !now.excluding && now.sharing is None
}

proof fn signs_of_two(a: Seq<Mark>, b: Seq<Mark>)
    ensures
        signs_of(a + b) == signs_of(a) + signs_of(b),
{
    assert(signs_of(a + b) =~= signs_of(a) + signs_of(b));
}

/// Parts that are none of them `All` are left as they are.
proof fn all_flat_keeps(parts: Seq<Tree>)
    requires
        forall|i: int| 0 <= i < parts.len() ==> !(#[trigger] parts[i] is All),
    ensures
        all_flat(parts) == parts,
    decreases parts.len(),
{
    if parts.len() > 0 {
        let front = parts.drop_last();
        assert forall|i: int| 0 <= i < front.len() implies !(#[trigger] front[i] is All) by {
            assert(front[i] == parts[i]);
        }
        all_flat_keeps(front);
        assert(!(parts[parts.len() - 1] is All));
        assert(all_flat(parts) =~= parts);
    } else {
        assert(parts =~= Seq::<Tree>::empty());
    }
}

proof fn any_flat_keeps(parts: Seq<Tree>)
    requires
        forall|i: int| 0 <= i < parts.len() ==> !(#[trigger] parts[i] is Any),
    ensures
        any_flat(parts) == parts,
    decreases parts.len(),
{
    if parts.len() > 0 {
        let front = parts.drop_last();
        assert forall|i: int| 0 <= i < front.len() implies !(#[trigger] front[i] is Any) by {
            assert(front[i] == parts[i]);
        }
        any_flat_keeps(front);
        assert(!(parts[parts.len() - 1] is Any));
        assert(any_flat(parts) =~= parts);
    } else {
        assert(parts =~= Seq::<Tree>::empty());
    }
}

/// The parts that a tree is once it has been read into a bracket.
pub open spec fn as_parts(tree: Tree) -> Seq<Tree> {
    match tree {
        Tree::All(parts) => parts,
        other => seq![other],
    }
}

proof fn parts_rejoin(tree: Tree)
    requires
        is_tidy(tree),
    ensures
        all_held(as_parts(tree)) == Some(tree),
{
    match tree {
        Tree::All(parts) => {
            all_flat_keeps(parts);
        },
        other => {
            all_flat_keeps(seq![other]);
        },
    }
}

/// A bracket that has read one tree asks for it.
pub open spec fn asks_for(bracket: Bracket, excluded: bool, tree: Tree) -> bool {
    &&& bracket.excluded == excluded
    &&& bracket.shared is None
    &&& bracket.inside() == Some(tree)
}

proof fn one_alternative(bracket: Bracket, tree: Tree)
    requires
        is_tidy(tree),
        !(tree is Any),
        bracket.alternatives.len() == 0,
        bracket.parts == as_parts(tree),
    ensures
        bracket.inside() == Some(tree),
{
    parts_rejoin(tree);
    assert(bracket.after_or().alternatives =~= seq![tree]);
    any_flat_keeps(seq![tree]);
}

/// A clause or an excluded group is one more part.
proof fn fed_single(tree: Tree, now: Progress)
    requires
        is_tidy(tree),
        is_writable(tree),
        tree is Clause || tree is Not,
        is_ready(now),
    ensures
        fed(now, signs_of(tree_marks(tree))) == now.innermost(now.open.last().with(Some(tree))),
    decreases tree, 0nat,
{
    match tree {
        Tree::Clause(point) => {
            piece_reads_back(point);
            assert(signs_of(tree_marks(tree)) =~= seq![Sign::Clause(point)]);
            fed_one(now, Sign::Clause(point));
        },
        Tree::Not(inner) => {
            let front = seq![Mark::Minus, Mark::Open];
            let body = tree_marks(*inner);
            signs_of_two(front, body);
            signs_of_two(front + body, seq![Mark::Close]);
            assert(signs_of(front) =~= seq![Sign::Minus] + seq![Sign::Open]);
            assert(signs_of(seq![Mark::Close]) =~= seq![Sign::Close]);
            fed_in_two(now, signs_of(front) + signs_of(body), seq![Sign::Close]);
            fed_in_two(now, signs_of(front), signs_of(body));
            fed_in_two(now, seq![Sign::Minus], seq![Sign::Open]);
            fed_one(now, Sign::Minus);
            fed_one(now.next(Sign::Minus), Sign::Open);
            let opened = now.next(Sign::Minus).next(Sign::Open);
            assert(opened.open.last() == Bracket::opened(true, None));
            fed_tree(*inner, opened);
            let read = fed(opened, signs_of(body));
            fed_one(read, Sign::Close);
            assert(read.open.drop_last() =~= now.open);
            assert(read.next(Sign::Close) =~= now.innermost(now.open.last().with(Some(tree))));
        },
        _ => {},
    }
}

/// A part of an AND is one more part.
proof fn fed_part(tree: Tree, now: Progress)
    requires
        is_tidy(tree),
        is_writable(tree),
        !(tree is All),
        is_ready(now),
    ensures
        fed(now, signs_of(part_marks(tree))) == now.innermost(now.open.last().with(Some(tree))),
    decreases tree, 2nat,
{
    match tree {
        Tree::Any(_) => {
            let body = tree_marks(tree);
            signs_of_two(seq![Mark::Open], body);
            signs_of_two(seq![Mark::Open] + body, seq![Mark::Close]);
            assert(signs_of(seq![Mark::Open]) =~= seq![Sign::Open]);
            assert(signs_of(seq![Mark::Close]) =~= seq![Sign::Close]);
            fed_in_two(now, seq![Sign::Open] + signs_of(body), seq![Sign::Close]);
            fed_in_two(now, seq![Sign::Open], signs_of(body));
            fed_one(now, Sign::Open);
            let opened = now.next(Sign::Open);
            assert(opened.open.last() == Bracket::opened(false, None));
            fed_tree(tree, opened);
            let read = fed(opened, signs_of(body));
            fed_one(read, Sign::Close);
            assert(read.open.drop_last() =~= now.open);
            assert(read.next(Sign::Close) =~= now.innermost(now.open.last().with(Some(tree))));
        },
        _ => {
            fed_single(tree, now);
        },
    }
}

/// A whole tree read into a fresh bracket is what the bracket asks for.
proof fn fed_tree(tree: Tree, now: Progress)
    requires
        is_tidy(tree),
        is_writable(tree),
        is_ready(now),
        now.open.last().alternatives.len() == 0,
        now.open.last().parts.len() == 0,
        now.open.last().shared is None,
    ensures
        ({
            let read = fed(now, signs_of(tree_marks(tree)));
            &&& read == now.innermost(read.open.last())
            &&& asks_for(read.open.last(), now.open.last().excluded, tree)
        }),
    decreases tree, 1nat,
{
    let last = now.open.last();
    let empty = Seq::<Tree>::empty();
    assert(last.alternatives =~= empty);
    assert(last.parts =~= empty);
    match tree {
        Tree::All(parts) => {
            fed_all(parts, parts.len(), now);
            assert(parts.take(parts.len() as int) =~= parts);
            assert(last.parts + parts =~= parts);
            let read = Bracket { parts, ..last };
            one_alternative(read, tree);
            assert(now.innermost(read).open.last() == read);
        },
        Tree::Any(parts) => {
            fed_any(parts, parts.len(), now);
            let n = parts.len() as int;
            let read = Bracket {
                alternatives: last.alternatives + parts.take(n - 1),
                parts: as_parts(parts[n - 1]),
                ..last
            };
            parts_rejoin(parts[n - 1]);
            assert(read.after_or().alternatives =~= parts);
            any_flat_keeps(parts);
            assert(now.innermost(read).open.last() == read);
        },
        _ => {
            fed_single(tree, now);
            let read = last.with(Some(tree));
            assert(read.parts =~= as_parts(tree));
            one_alternative(read, tree);
            assert(now.innermost(read).open.last() == read);
        },
    }
}

proof fn fed_all(parts: Seq<Tree>, n: nat, now: Progress)
    requires
        n <= parts.len(),
        forall|i: int|
            0 <= i < parts.len() ==> !(#[trigger] parts[i] is All) && is_tidy(parts[i])
                && is_writable(parts[i]),
        is_ready(now),
    ensures
        fed(now, signs_of(all_marks(parts, n))) == now.innermost(
            (Bracket { parts: now.open.last().parts + parts.take(n as int), ..now.open.last() }),
        ),
    decreases parts, n,
{
    let last = now.open.last();
    if n == 0 {
        assert(signs_of(all_marks(parts, 0)) =~= Seq::<Sign>::empty());
        assert(last.parts + parts.take(0) =~= last.parts);
        assert(now.innermost(last) =~= now);
    } else {
        let front = all_marks(parts, (n - 1) as nat);
        fed_all(parts, (n - 1) as nat, now);
        signs_of_two(front, part_marks(parts[n - 1]));
        fed_in_two(now, signs_of(front), signs_of(part_marks(parts[n - 1])));
        let so_far = fed(now, signs_of(front));
        fed_part(parts[n - 1], so_far);
        let sofar_last = so_far.open.last();
        assert(sofar_last.with(Some(parts[n - 1])).parts =~= last.parts + parts.take(n as int));
        assert(so_far.innermost(sofar_last.with(Some(parts[n - 1]))) =~= now.innermost(
            (Bracket { parts: last.parts + parts.take(n as int), ..last }),
        ));
    }
}

proof fn fed_any(parts: Seq<Tree>, n: nat, now: Progress)
    requires
        0 < n <= parts.len(),
        forall|i: int|
            0 <= i < parts.len() ==> !(#[trigger] parts[i] is Any) && is_tidy(parts[i])
                && is_writable(parts[i]),
        is_ready(now),
        now.open.last().parts.len() == 0,
    ensures
        fed(now, signs_of(any_marks(parts, n))) == now.innermost(
            (Bracket {
                alternatives: now.open.last().alternatives + parts.take(n - 1),
                parts: as_parts(parts[n - 1]),
                ..now.open.last()
            }),
        ),
    decreases parts, n,
{
    let last = now.open.last();
    let tree = parts[n - 1];
    if n == 1 {
        assert(last.alternatives + parts.take(0) =~= last.alternatives);
        fed_alternative(tree, now);
    } else {
        let front = any_marks(parts, (n - 1) as nat);
        let or = seq![Mark::Piece(or_piece())];
        fed_any(parts, (n - 1) as nat, now);
        signs_of_two(front, or);
        signs_of_two(front + or, tree_marks(tree));
        or_reads_as_or();
        assert(signs_of(or) =~= seq![Sign::Keyword(Keyword::Or)]);
        fed_in_two(now, signs_of(front) + signs_of(or), signs_of(tree_marks(tree)));
        fed_in_two(now, signs_of(front), signs_of(or));
        let so_far = fed(now, signs_of(front));
        fed_one(so_far, Sign::Keyword(Keyword::Or));
        parts_rejoin(parts[n - 2]);
        let next = so_far.next(Sign::Keyword(Keyword::Or));
        assert(next.open.last().alternatives =~= last.alternatives + parts.take(n - 1));
        fed_alternative(tree, next);
        assert(fed(now, signs_of(any_marks(parts, n))) =~= now.innermost(
            (Bracket {
                alternatives: last.alternatives + parts.take(n - 1),
                parts: as_parts(tree),
                ..last
            }),
        ));
    }
}

/// One alternative of an OR, read from the start of it.
proof fn fed_alternative(tree: Tree, now: Progress)
    requires
        is_tidy(tree),
        is_writable(tree),
        !(tree is Any),
        is_ready(now),
        now.open.last().parts.len() == 0,
    ensures
        fed(now, signs_of(tree_marks(tree))) == now.innermost(
            (Bracket { parts: as_parts(tree), ..now.open.last() }),
        ),
    decreases tree, 1nat,
{
    let last = now.open.last();
    match tree {
        Tree::All(ps) => {
            fed_all(ps, ps.len(), now);
            assert(last.parts + ps.take(ps.len() as int) =~= ps);
        },
        _ => {
            fed_single(tree, now);
            assert(last.with(Some(tree)).parts =~= as_parts(tree));
        },
    }
}

// ---------------------------------------------------------------------
// The whole way round
// ---------------------------------------------------------------------
/// Words that wear quotes where they have to are settled already.
proof fn settled_stays(tree: Tree)
    requires
        is_writable(tree),
    ensures
        settled(tree) == tree,
    decreases tree,
{
    match tree {
        Tree::Clause(_) => {},
        Tree::Not(inner) => settled_stays(*inner),
        Tree::All(parts) => settled_each_stays(parts),
        Tree::Any(parts) => settled_each_stays(parts),
    }
}

proof fn settled_each_stays(parts: Seq<Tree>)
    requires
        forall|i: int| 0 <= i < parts.len() ==> is_writable(#[trigger] parts[i]),
    ensures
        settled_each(parts) == parts,
    decreases parts,
{
    if parts.len() > 0 {
        let front = parts.drop_last();
        assert forall|i: int| 0 <= i < front.len() implies is_writable(#[trigger] front[i]) by {
            assert(front[i] == parts[i]);
        }
        settled_each_stays(front);
        assert(is_writable(parts[parts.len() - 1]));
        settled_stays(parts.last());
        assert(settled_each(parts) =~= parts);
    } else {
        assert(settled_each(parts) =~= parts);
    }
}

/// A query that the field can hold, written out as it would be typed, reads
/// back as the same query: a tidy tree within the clause limit, whose values
/// the field can hold and whose words wear quotes where they have to.
pub proof fn written_query_reads_back(tree: Tree)
    requires
        is_tidy(tree),
        is_writable(tree),
        clauses(tree) <= MAX_CLAUSES,
    ensures
        query_of(tree_text(tree)) == Some(tree),
{
    tree_text_marks(tree);
    tree_marks_count(tree);
    let marks = tree_marks(tree);
    every_piece_is_taken_in(marks);
    let tokens = signs_of(marks);
    progress_is_fed(tokens);
    let start = Progress::start();
    fed_tree(tree, start);
    let end = progress(tokens);
    let last = end.open.last();
    assert(end.open =~= seq![last]);
    assert(last.with(None) =~= last);
    assert(end.open.drop_last() =~= Seq::<Bracket>::empty());
    reveal_with_fuel(closed_up, 2);
    assert(tokens_ask(tokens) == Some(tree));
    settled_stays(tree);
}

} // verus!
