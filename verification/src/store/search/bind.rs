//! One statement's worth of a query, bound into SQL.

use super::plan::{
    any_asks_cjk, demands, demands_are_each, indexable, is_indexable, leaves_in, phrases, wordings,
    wordings_are_each, Column, Cond, Demand, Wording, Words,
};
use super::sql::{
    cond_sql, cond_text, cond_values, guard_text, lookup_sql, lookup_text, lookup_value, values,
    Arg, Around, BoundValue,
};
use super::statements::{
    alongside, any_asks, any_asks_for, any_look_up_words, any_looks_up, fts, fts_text, is_alongside,
    phrase_chars, phrase_text, place, refusals, Bundle, Named, Statement,
};
use crate::search_query::{Phrase, Text};
use crate::store::index_text::{any_cjk, has_cjk};
use crate::store::views::not_binned;
use crate::text::{
    append_chars, chars_of, has, join, joined, occurs_at, put, string_of, texts,
};
use vstd::prelude::*;

verus! {

/// The words one alternative asked for, as the index has to be asked.
#[derive(Debug)]
pub struct Asked {
    /// The full-text expression.
    pub expr: String,
    /// Whether it is asked of the per-character CJK index.
    pub cjk: bool,
    /// The words a CJK snippet should mark. The other index marks its own.
    pub marks: String,
}

/// One alternative of a query, bound into SQL.
#[derive(Debug)]
pub struct Bound {
    /// The words to rank by, when there are any.
    pub asked: Option<Asked>,
    /// The conditions, each beginning ` AND`, and the values they bind.
    pub conditions: String,
    pub args: Vec<Arg>,
}

#[verifier::ext_equal]
pub struct Expression {
    pub expr: Seq<char>,
    pub cjk: bool,
    pub marks: Seq<char>,
}

#[verifier::ext_equal]
pub struct Written {
    pub asked: Option<Expression>,
    pub conditions: Seq<char>,
    pub values: Seq<BoundValue>,
}

impl View for Asked {
    type V = Expression;

    open spec fn view(&self) -> Expression {
        Expression { expr: self.expr@, cjk: self.cjk, marks: self.marks@ }
    }
}

impl View for Bound {
    type V = Written;

    open spec fn view(&self) -> Written {
        Written {
            asked: match self.asked {
                Some(asked) => Some(asked@),
                None => None,
            },
            conditions: self.conditions@,
            values: values(self.args@),
        }
    }
}

/// What the words of one script, CJK or not, are asked as.
pub open spec fn script_texts(
    wanted: Seq<Wording>,
    script: bool,
    for_cjk: bool,
    typing: Option<nat>,
) -> Seq<Seq<char>>
    decreases wanted.len(),
{
    if wanted.len() == 0 {
        Seq::empty()
    } else {
        let front = script_texts(wanted.drop_last(), script, for_cjk, typing);
        if wanted.last().asks_cjk() == script {
            match fts_text(wanted.last(), for_cjk, typing) {
                Some(text) => front.push(text),
                None => front,
            }
        } else {
            front
        }
    }
}

/// What is made of the words that must not be there.
///
/// Beside wanted ones of the same script they are the index's own NOT, which
/// costs nothing. Otherwise they are looked up on their own and taken away:
/// NOT needs something on its left, and a word has to be asked of the index
/// its script is in.
#[verifier::ext_equal]
pub struct Refused {
    pub inside: Seq<Seq<char>>,
    pub sql: Seq<char>,
    pub values: Seq<BoundValue>,
    pub count: nat,
}

pub open spec fn refused(unwanted: Seq<(Column, Phrase)>, ranked: bool, cjk: bool) -> Refused
    decreases unwanted.len(),
{
    if unwanted.len() == 0 {
        Refused { inside: Seq::empty(), sql: Seq::empty(), values: Seq::empty(), count: 0 }
    } else {
        let front = refused(unwanted.drop_last(), ranked, cjk);
        let (column, text) = unwanted.last();
        if !is_indexable(text) {
            front
        } else if ranked && cjk == any_cjk(text.value) {
            Refused {
                inside: front.inside.push(phrase_text(column, text, cjk, false)),
                count: front.count + 1,
                ..front
            }
        } else {
            Refused {
                sql: front.sql + (" AND "@ + lookup_text(text, false)),
                values: front.values.push(lookup_value(column, text, false)),
                count: front.count + 1,
                ..front
            }
        }
    }
}

pub const BESIDE: &'static str = " AND m.id IN (SELECT rowid FROM fts_messages WHERE fts_messages MATCH ?)";

pub const OF_ACCOUNT: &'static str = " AND m.account_id = ?";

/// Conditions that all have to hold, each beginning ` AND`.
pub open spec fn conds_text(conds: Seq<Demand>, snoozed: bool, binned: bool, walking: bool) -> Seq<
    char,
>
    decreases conds.len(),
{
    if conds.len() == 0 {
        Seq::empty()
    } else {
        conds_text(conds.drop_last(), snoozed, binned, walking) + (" AND "@ + cond_text(
            conds.last(),
            snoozed,
            binned,
            walking,
        ))
    }
}

pub open spec fn conds_bind(conds: Seq<Demand>, typing: Option<nat>) -> Seq<BoundValue>
    decreases conds.len(),
{
    if conds.len() == 0 {
        Seq::empty()
    } else {
        conds_bind(conds.drop_last(), typing) + cond_values(conds.last(), typing)
    }
}

/// The first word with any CJK in it, for a snippet to mark.
pub open spec fn first_cjk_word(leaves: Seq<Phrase>) -> Seq<char>
    decreases leaves.len(),
{
    if leaves.len() == 0 {
        Seq::empty()
    } else if any_cjk(leaves[0].value) {
        leaves[0].value
    } else {
        first_cjk_word(leaves.skip(1))
    }
}

/// One statement's worth of a query, bound into SQL, or `None` when it asks
/// for nothing, or for something nothing can match.
///
/// One index ranks, and it is the CJK one when any word is CJK. Words of the
/// other script are asked of their own index, beside it.
///
/// A word with no letter or digit in it is simply skipped among other words.
/// On its own it finds nothing, which is what a half-typed `[acme]` should
/// do: for the length of one keystroke the query is `in:inbox [`, and that
/// must not list the whole inbox.
pub open spec fn bound_as(statement: Statement, account: int, typing: Option<nat>) -> Option<
    Written,
> {
    let cjk = any_asks_cjk(statement.wanted);
    let wanted = script_texts(statement.wanted, cjk, cjk, typing);
    let beside = script_texts(statement.wanted, !cjk, false, typing);
    let unwanted = refused(statement.unwanted, wanted.len() > 0, cjk);
    let walking = wanted.len() == 0 && !any_looks_up(statement.conds);
    if wanted.len() == 0 && statement.wanted.len() > 0 {
        None
    } else if wanted.len() == 0 && unwanted.count == 0 && statement.conds.len() == 0 {
        None
    } else {
        let expr = if unwanted.inside.len() > 0 {
            "("@ + joined(wanted, " AND "@) + ") NOT ("@ + joined(unwanted.inside, " OR "@) + ")"@
        } else {
            joined(wanted, " AND "@)
        };
        Some(
            Written {
                asked: if wanted.len() > 0 {
                    Some(
                        Expression { expr, cjk, marks: first_cjk_word(leaves_in(statement.wanted)) },
                    )
                } else {
                    None
                },
                conditions: (if beside.len() > 0 {
                    BESIDE@
                } else {
                    Seq::empty()
                }) + OF_ACCOUNT@ + (if any_asks_for(statement.conds, Named::Bin) {
                    Seq::empty()
                } else {
                    " AND "@ + guard_text()
                }) + unwanted.sql + conds_text(
                    statement.conds,
                    is_alongside(statement.conds, Named::Snoozed),
                    is_alongside(statement.conds, Named::Bin),
                    walking,
                ),
                values: (if beside.len() > 0 {
                    seq![BoundValue::Text(joined(beside, " AND "@))]
                } else {
                    Seq::empty()
                }) + seq![BoundValue::Int(account)] + unwanted.values + conds_bind(
                    statement.conds,
                    typing,
                ),
            },
        )
    }
}

fn asked_of_script(
    wanted: &Vec<Words>,
    script: bool,
    for_cjk: bool,
    typing: Option<usize>,
) -> (out: Vec<Vec<char>>)
    ensures
        texts(out@) == script_texts(wordings(wanted@), script, for_cjk, place(typing)),
{
    proof {
        wordings_are_each(wanted@);
    }
    let ghost every = wordings(wanted@);
    let mut out: Vec<Vec<char>> = Vec::new();
    let mut i: usize = 0;
    assert(every.take(0) =~= Seq::<Wording>::empty());
    assert(texts(out@) =~= Seq::<Seq<char>>::empty());
    while i < wanted.len()
        invariant
            i <= wanted@.len(),
            every == wordings(wanted@),
            every.len() == wanted@.len(),
            texts(out@) == script_texts(every.take(i as int), script, for_cjk, place(typing)),
        decreases wanted@.len() - i,
    {
        proof {
            wordings_are_each(wanted@);
            assert(every.take(i + 1).drop_last() =~= every.take(i as int));
            assert(every.take(i + 1).last() == wanted@[i as int].wording());
        }
        let ghost before = out@;
        if wanted[i].cjk() == script {
            if let Some(text) = fts(&wanted[i], for_cjk, typing) {
                out.push(text);
                assert(texts(out@) =~= texts(before).push(text@));
            }
        }
        i += 1;
    }
    assert(every.take(i as int) =~= every);
    out
}

fn any_cjk_wanted(wanted: &Vec<Words>) -> (r: bool)
    ensures
        r == any_asks_cjk(wordings(wanted@)),
{
    proof {
        wordings_are_each(wanted@);
    }
    let ghost every = wordings(wanted@);
    let mut found = false;
    let mut i: usize = 0;
    assert(every.take(0) =~= Seq::<Wording>::empty());
    while i < wanted.len()
        invariant
            i <= wanted@.len(),
            every == wordings(wanted@),
            every.len() == wanted@.len(),
            found == any_asks_cjk(every.take(i as int)),
        decreases wanted@.len() - i,
    {
        proof {
            wordings_are_each(wanted@);
            assert(every.take(i + 1).drop_last() =~= every.take(i as int));
            assert(every.take(i + 1).last() == wanted@[i as int].wording());
        }
        if wanted[i].cjk() {
            found = true;
        }
        i += 1;
    }
    assert(every.take(i as int) =~= every);
    found
}

struct RefusedWords {
    inside: Vec<Vec<char>>,
    sql: Vec<char>,
    args: Vec<Arg>,
    any: bool,
}

fn refuse(unwanted: &Vec<(Column, &Text)>, ranked: bool, cjk: bool) -> (r: RefusedWords)
    ensures
        ({
            let done = refused(refusals(unwanted@), ranked, cjk);
            &&& texts(r.inside@) == done.inside
            &&& r.sql@ == done.sql
            &&& values(r.args@) == done.values
            &&& r.any == (done.count > 0)
        }),
{
    let ghost every = refusals(unwanted@);
    let mut inside: Vec<Vec<char>> = Vec::new();
    let mut sql: Vec<char> = Vec::new();
    let mut args: Vec<Arg> = Vec::new();
    let mut any = false;
    let mut i: usize = 0;
    assert(every.take(0) =~= Seq::<(Column, Phrase)>::empty());
    assert(texts(inside@) =~= Seq::<Seq<char>>::empty());
    assert(values(args@) =~= Seq::<BoundValue>::empty());
    while i < unwanted.len()
        invariant
            i <= unwanted@.len(),
            every == refusals(unwanted@),
            ({
                let done = refused(every.take(i as int), ranked, cjk);
                &&& texts(inside@) == done.inside
                &&& sql@ == done.sql
                &&& values(args@) == done.values
                &&& any == (done.count > 0)
            }),
        decreases unwanted@.len() - i,
    {
        let (column, text) = unwanted[i];
        proof {
            assert(every.take(i + 1).drop_last() =~= every.take(i as int));
            assert(every.take(i + 1).last() == (column, text@));
        }
        if indexable(text) {
            any = true;
            if ranked && cjk == has_cjk(&text.value) {
                let ghost before = inside@;
                let part = phrase_chars(column, text, cjk, false);
                inside.push(part);
                assert(texts(inside@) =~= texts(before).push(part@));
            } else {
                let ghost before = sql@;
                let lookup = lookup_sql(column, text, false, false, &mut args);
                put(&mut sql, " AND ");
                append_chars(&mut sql, &lookup);
                assert(sql@ =~= before + (" AND "@ + lookup@));
            }
        }
        i += 1;
    }
    assert(every.take(i as int) =~= every);
    RefusedWords { inside, sql, args, any }
}

fn marked_word(wanted: &Vec<Words>) -> (out: String)
    ensures
        out@ == first_cjk_word(leaves_in(wordings(wanted@))),
{
    proof {
        wordings_are_each(wanted@);
    }
    let ghost every = wordings(wanted@);
    let mut leaves: Vec<&Text> = Vec::new();
    let mut i: usize = 0;
    assert(every.take(0) =~= Seq::<Wording>::empty());
    assert(phrases(leaves@) =~= Seq::<Phrase>::empty());
    while i < wanted.len()
        invariant
            i <= wanted@.len(),
            every == wordings(wanted@),
            every.len() == wanted@.len(),
            phrases(leaves@) == leaves_in(every.take(i as int)),
        decreases wanted@.len() - i,
    {
        proof {
            wordings_are_each(wanted@);
            assert(every.take(i + 1).drop_last() =~= every.take(i as int));
            assert(every.take(i + 1).last() == wanted@[i as int].wording());
        }
        wanted[i].leaves(&mut leaves);
        i += 1;
    }
    assert(every.take(i as int) =~= every);
    let ghost all = phrases(leaves@);
    let mut j: usize = 0;
    assert(all.skip(0) =~= all);
    while j < leaves.len()
        invariant
            j <= leaves@.len(),
            all == phrases(leaves@),
            all == leaves_in(wordings(wanted@)),
            first_cjk_word(all) == first_cjk_word(all.skip(j as int)),
        decreases leaves@.len() - j,
    {
        assert(all.skip(j as int).skip(1) =~= all.skip(j + 1));
        assert(all.skip(j as int)[0] == leaves@[j as int]@);
        if has_cjk(&leaves[j].value) {
            return leaves[j].value.clone();
        }
        j += 1;
    }
    String::new()
}

fn bind_conditions(
    conds: &Vec<Cond>,
    around: Around,
    sql: &mut Vec<char>,
    args: &mut Vec<Arg>,
)
    ensures
        final(sql)@ == old(sql)@ + conds_text(
            demands(conds@),
            around.snoozed,
            around.binned,
            around.walking,
        ),
        values(final(args)@) == values(old(args)@) + conds_bind(
            demands(conds@),
            place(around.typing),
        ),
{
    proof {
        demands_are_each(conds@);
    }
    let ghost every = demands(conds@);
    let ghost start = sql@;
    let ghost first = values(args@);
    let mut i: usize = 0;
    assert(every.take(0) =~= Seq::<Demand>::empty());
    assert(start + Seq::<char>::empty() =~= start);
    assert(first + Seq::<BoundValue>::empty() =~= first);
    while i < conds.len()
        invariant
            i <= conds@.len(),
            every == demands(conds@),
            every.len() == conds@.len(),
            sql@ == start + conds_text(
                every.take(i as int),
                around.snoozed,
                around.binned,
                around.walking,
            ),
            values(args@) == first + conds_bind(every.take(i as int), place(around.typing)),
        decreases conds@.len() - i,
    {
        proof {
            demands_are_each(conds@);
            assert(every.take(i + 1).drop_last() =~= every.take(i as int));
            assert(every.take(i + 1).last() == conds@[i as int].demand());
        }
        let predicate = cond_sql(&conds[i], around, args);
        put(sql, " AND ");
        append_chars(sql, &predicate);
        assert(sql@ =~= start + conds_text(
            every.take(i + 1),
            around.snoozed,
            around.binned,
            around.walking,
        ));
        assert(values(args@) =~= first + conds_bind(every.take(i + 1), place(around.typing)));
        i += 1;
    }
    assert(every.take(i as int) =~= every);
}

pub open spec fn written_of(bound: Option<Bound>) -> Option<Written> {
    match bound {
        Some(b) => Some(b@),
        None => None,
    }
}

fn append_args(args: &mut Vec<Arg>, more: Vec<Arg>)
    ensures
        values(final(args)@) == values(old(args)@) + values(more@),
{
    let mut more = more;
    let ghost tail = more@;
    args.append(&mut more);
    assert(values(args@) =~= values(old(args)@) + values(tail));
}

/// One statement's worth of a query, bound into SQL, or `None` when it asks
/// for nothing, or for something nothing can match.
///
/// Built rather than interpolated: `from:` and `in:` carry whatever was typed.
/// Every value is a bound parameter; every word that reaches MATCH is a quoted
/// phrase.
pub fn bind(bundle: &Bundle, account: i64, typing: Option<usize>) -> (r: Option<Bound>)
    ensures
        written_of(r) == bound_as(bundle@, account as int, place(typing)),
{
    let ghost statement = bundle@;
    proof {
        wordings_are_each(bundle.wanted@);
        demands_are_each(bundle.conds@);
    }
    // The words first, because they decide which index is asked.
    let cjk = any_cjk_wanted(&bundle.wanted);
    let wanted = asked_of_script(&bundle.wanted, cjk, cjk, typing);
    let beside = asked_of_script(&bundle.wanted, !cjk, false, typing);
    assert(texts(wanted@).len() == wanted@.len());
    assert(texts(beside@).len() == beside@.len());
    let ranked = wanted.len() > 0;
    if !ranked && bundle.wanted.len() > 0 {
        return None;
    }
    let unwanted = refuse(&bundle.unwanted, ranked, cjk);
    // Every word in it was punctuation and every one was excluded: nothing is
    // left to ask, and that is not the same as everything.
    if !ranked && !unwanted.any && bundle.conds.len() == 0 {
        return None;
    }
    let mut expr = join(&wanted, " AND ");
    let RefusedWords { inside, sql: refused_sql, args: refused_args, any } = unwanted;
    assert(texts(inside@).len() == inside@.len());
    if inside.len() > 0 {
        let mut whole = chars_of("(");
        append_chars(&mut whole, &expr);
        put(&mut whole, ") NOT (");
        append_chars(&mut whole, &join(&inside, " OR "));
        put(&mut whole, ")");
        expr = whole;
    }
    let mut sql: Vec<char> = Vec::new();
    let mut args: Vec<Arg> = Vec::new();
    assert(values(args@) =~= Seq::<BoundValue>::empty());
    if beside.len() > 0 {
        put(&mut sql, BESIDE);
        let text = string_of(&join(&beside, " AND "));
        args.push(Arg::Text(text));
        assert(values(args@) =~= seq![BoundValue::Text(joined(texts(beside@), " AND "@))]);
        assert(sql@ =~= BESIDE@);
    }
    let ghost sql0 = sql@;
    let ghost args0 = args@;
    // The account on screen, always.
    put(&mut sql, OF_ACCOUNT);
    args.push(Arg::Int(account));
    assert(values(args@) =~= values(args0) + seq![BoundValue::Int(account as int)]);
    // Junk and deleted mail stay out unless they are what was asked for.
    if !any_asks(&bundle.conds, Named::Bin) {
        put(&mut sql, " AND ");
        put(&mut sql, &not_binned("m"));
    }
    append_chars(&mut sql, &refused_sql);
    append_args(&mut args, refused_args);
    let around = Around {
        snoozed: alongside(&bundle.conds, Named::Snoozed),
        binned: alongside(&bundle.conds, Named::Bin),
        walking: !ranked && !any_look_up_words(&bundle.conds),
        typing,
    };
    bind_conditions(&bundle.conds, around, &mut sql, &mut args);
    let ghost done = bound_as(statement, account as int, place(typing))->0;
    assert(sql@ =~= done.conditions);
    assert(values(args@) =~= done.values);
    let asked = if ranked {
        Some(Asked { expr: string_of(&expr), cjk, marks: marked_word(&bundle.wanted) })
    } else {
        None
    };
    let bound = Bound { asked, conditions: string_of(&sql), args };
    assert(bound@ =~= done);
    Some(bound)
}

/// The account on screen, always: a statement is held to it by its conditions
/// and by a value it binds.
pub proof fn every_statement_is_held_to_the_account(
    statement: Statement,
    account: int,
    typing: Option<nat>,
)
    ensures
        bound_as(statement, account, typing) matches Some(bound) ==> {
            &&& has(bound.conditions, OF_ACCOUNT@)
            &&& bound.values.contains(BoundValue::Int(account))
        },
{
    if let Some(bound) = bound_as(statement, account, typing) {
        let cjk = any_asks_cjk(statement.wanted);
        let beside = script_texts(statement.wanted, !cjk, false, typing);
        let at = if beside.len() > 0 {
            BESIDE@.len() as int
        } else {
            0
        };
        assert(bound.conditions.subrange(at, at + OF_ACCOUNT@.len()) =~= OF_ACCOUNT@);
        assert(occurs_at(bound.conditions, OF_ACCOUNT@, at));
        let first: int = if beside.len() > 0 {
            1
        } else {
            0
        };
        assert(bound.values[first] == BoundValue::Int(account));
    }
}

/// Junk and deleted mail stay out of every statement that does not ask for
/// them.
pub proof fn the_bin_stays_out_unless_asked_for(
    statement: Statement,
    account: int,
    typing: Option<nat>,
)
    requires
        !any_asks_for(statement.conds, Named::Bin),
    ensures
        bound_as(statement, account, typing) matches Some(bound) ==> has(
            bound.conditions,
            " AND "@ + guard_text(),
        ),
{
    if let Some(bound) = bound_as(statement, account, typing) {
        let cjk = any_asks_cjk(statement.wanted);
        let beside = script_texts(statement.wanted, !cjk, false, typing);
        let guard = " AND "@ + guard_text();
        let at = (if beside.len() > 0 {
            BESIDE@.len() as int
        } else {
            0
        }) + OF_ACCOUNT@.len();
        assert(bound.conditions.subrange(at, at + guard.len()) =~= guard);
        assert(occurs_at(bound.conditions, guard, at));
    }
}

/// What a search in a script without spaces marks is its first word in that
/// script, whatever words in others stand before it; where there is none it
/// marks nothing.
pub proof fn the_first_word_in_the_script_is_marked(
    before: Seq<Phrase>,
    word: Phrase,
    after: Seq<Phrase>,
)
    requires
        forall|i: int| 0 <= i < before.len() ==> !any_cjk((#[trigger] before[i]).value),
    ensures
        any_cjk(word.value) ==> first_cjk_word(before + seq![word] + after) == word.value,
        first_cjk_word(before) == Seq::<char>::empty(),
    decreases before.len(),
{
    let all = before + seq![word] + after;
    if before.len() > 0 {
        let rest = before.skip(1);
        assert forall|i: int| 0 <= i < rest.len() implies !any_cjk((#[trigger] rest[i]).value) by {
            assert(rest[i] == before[i + 1]);
        }
        the_first_word_in_the_script_is_marked(rest, word, after);
        assert(all.skip(1) =~= rest + seq![word] + after);
        assert(all[0] == before[0]);
        assert(!any_cjk(before[0].value));
    } else {
        assert(all[0] == word);
    }
}

} // verus!
