//! What the operators and builtins mean, stated against the arithmetic's own
//! operations and against each other: the value of each numeric operator, the
//! equality that `contains` uses, emptiness against length, key lookup
//! against the entries, and how `continue`, `break` and the update shape
//! the rounds of loops.
use vstd::prelude::*;
use crate::ast::SStmt;
use crate::builtin::array::{spec_contains, spec_contains_from, spec_is_empty, spec_len, spec_push};
use crate::builtin::dictionary::spec_has_key;
use crate::equality::spec_equals;
use crate::laws::{lemma_block_prefix_public, lemma_block_shift_public, lemma_find_key_first};
use crate::semantics::{spec_block, spec_eval, spec_eval_binary, spec_exec, spec_for, spec_truthy, spec_while, with_heap, MView};
use crate::value::{SSignal, answer_flag, answer_num, ask, honest, honest_growth, logged, ArithOp, CmpOp, HView, Number, Outcome, RuntimeError, SValue};

verus! {

/// What a binary operator gives on two numbers, and the heap after it.
pub open spec fn on_numbers<N: Number>(h: HView<N>, op: Seq<char>, a: N, b: N, orc: Seq<Outcome<N>>) -> (HView<N>, Result<SValue<N>, RuntimeError>) {
    spec_eval_binary(h, SValue::Number(a), op, SValue::Number(b), orc)
}

/// The answer the operator recorded is the arithmetic's own.
pub open spec fn answered<N: Number>(h: HView<N>, op: Seq<char>, a: N, b: N, orc: Seq<Outcome<N>>) -> bool {
    honest_growth(h.log, on_numbers(h, op, a, b, orc).0.log)
}

/// The operators on two numbers give the arithmetic's sum, difference,
/// product, quotient and remainder, and its comparisons: `>=` is `not_below`
/// and `>` is `above`, `==` is `same_as` and `!=` its negation.
pub proof fn lemma_number_operators<N: Number>(h: HView<N>, a: N, b: N, orc: Seq<Outcome<N>>)
    ensures
        answered(h, "+"@, a, b, orc) ==> on_numbers(h, "+"@, a, b, orc).1 == Ok::<SValue<N>, RuntimeError>(SValue::Number(a.sum(b))),
        answered(h, "-"@, a, b, orc) ==> on_numbers(h, "-"@, a, b, orc).1 == Ok::<SValue<N>, RuntimeError>(SValue::Number(a.difference(b))),
        answered(h, "*"@, a, b, orc) ==> on_numbers(h, "*"@, a, b, orc).1 == Ok::<SValue<N>, RuntimeError>(SValue::Number(a.product(b))),
        answered(h, "/"@, a, b, orc) ==> on_numbers(h, "/"@, a, b, orc).1 == Ok::<SValue<N>, RuntimeError>(SValue::Number(a.quotient(b))),
        answered(h, "%"@, a, b, orc) ==> on_numbers(h, "%"@, a, b, orc).1 == Ok::<SValue<N>, RuntimeError>(SValue::Number(a.modulo(b))),
        answered(h, "=="@, a, b, orc) ==> on_numbers(h, "=="@, a, b, orc).1 == Ok::<SValue<N>, RuntimeError>(SValue::Boolean(a.same_as(b))),
        answered(h, "!="@, a, b, orc) ==> on_numbers(h, "!="@, a, b, orc).1 == Ok::<SValue<N>, RuntimeError>(SValue::Boolean(!a.same_as(b))),
        answered(h, "<"@, a, b, orc) ==> on_numbers(h, "<"@, a, b, orc).1 == Ok::<SValue<N>, RuntimeError>(SValue::Boolean(a.below(b))),
        answered(h, "<="@, a, b, orc) ==> on_numbers(h, "<="@, a, b, orc).1 == Ok::<SValue<N>, RuntimeError>(SValue::Boolean(a.not_above(b))),
        answered(h, ">"@, a, b, orc) ==> on_numbers(h, ">"@, a, b, orc).1 == Ok::<SValue<N>, RuntimeError>(SValue::Boolean(a.above(b))),
        answered(h, ">="@, a, b, orc) ==> on_numbers(h, ">="@, a, b, orc).1 == Ok::<SValue<N>, RuntimeError>(SValue::Boolean(a.not_below(b))),
{
    reveal_strlit("&&");
    reveal_strlit("||");
    reveal_strlit("+");
    reveal_strlit("-");
    reveal_strlit("*");
    reveal_strlit("/");
    reveal_strlit("%");
    reveal_strlit("==");
    reveal_strlit("!=");
    reveal_strlit("<");
    reveal_strlit("<=");
    reveal_strlit(">");
    reveal_strlit(">=");
    assert("&&"@.len() == 2 && "&&"@[0] == '&' && "&&"@[1] == '&');
    assert("||"@.len() == 2 && "||"@[0] == '|' && "||"@[1] == '|');
    assert("+"@.len() == 1 && "+"@[0] == '+');
    assert("-"@.len() == 1 && "-"@[0] == '-');
    assert("*"@.len() == 1 && "*"@[0] == '*');
    assert("/"@.len() == 1 && "/"@[0] == '/');
    assert("%"@.len() == 1 && "%"@[0] == '%');
    assert("=="@.len() == 2 && "=="@[0] == '=' && "=="@[1] == '=');
    assert("!="@.len() == 2 && "!="@[0] == '!' && "!="@[1] == '=');
    assert("<"@.len() == 1 && "<"@[0] == '<');
    assert("<="@.len() == 2 && "<="@[0] == '<' && "<="@[1] == '=');
    assert(">"@.len() == 1 && ">"@[0] == '>');
    assert(">="@.len() == 2 && ">="@[0] == '>' && ">="@[1] == '=');
    let r = answer_num(ask(h, orc));
    let f = answer_flag(ask(h, orc));
    if answered(h, "+"@, a, b, orc) {
        lemma_logged_honest(h, Outcome::Arith(ArithOp::Plus, a, b, r));
    }
    if answered(h, "-"@, a, b, orc) {
        lemma_logged_honest(h, Outcome::Arith(ArithOp::Minus, a, b, r));
    }
    if answered(h, "*"@, a, b, orc) {
        lemma_logged_honest(h, Outcome::Arith(ArithOp::Times, a, b, r));
    }
    if answered(h, "/"@, a, b, orc) {
        lemma_logged_honest(h, Outcome::Arith(ArithOp::Divide, a, b, r));
    }
    if answered(h, "%"@, a, b, orc) {
        lemma_logged_honest(h, Outcome::Arith(ArithOp::Remainder, a, b, r));
    }
    if answered(h, "=="@, a, b, orc) {
        lemma_logged_honest(h, Outcome::Compare(CmpOp::Equal, a, b, f));
    }
    if answered(h, "!="@, a, b, orc) {
        lemma_logged_honest(h, Outcome::Compare(CmpOp::Equal, a, b, f));
    }
    if answered(h, "<"@, a, b, orc) {
        lemma_logged_honest(h, Outcome::Compare(CmpOp::Less, a, b, f));
    }
    if answered(h, "<="@, a, b, orc) {
        lemma_logged_honest(h, Outcome::Compare(CmpOp::AtMost, a, b, f));
    }
    if answered(h, ">"@, a, b, orc) {
        lemma_logged_honest(h, Outcome::Compare(CmpOp::Greater, a, b, f));
    }
    if answered(h, ">="@, a, b, orc) {
        lemma_logged_honest(h, Outcome::Compare(CmpOp::AtLeast, a, b, f));
    }
}

/// An answer whose recording grew the log honestly is the arithmetic's own.
proof fn lemma_logged_honest<N: Number>(h: HView<N>, o: Outcome<N>)
    requires
        honest_growth(h.log, logged(h, o).log),
    ensures
        honest(o),
{
    assert(logged(h, o).log[h.log.len() as int] == o);
}

/// Equality as `contains` uses it holds of every boolean, string and `null`
/// with itself; two booleans are equal exactly when they are the same, and
/// two strings exactly when they have the same characters. Comparing such
/// values asks the arithmetic nothing, and is symmetric. Two numbers are
/// equal exactly when the arithmetic's `same_as` says so.
pub proof fn lemma_equals_meaning<N: Number>(h: HView<N>, x: SValue<N>, y: SValue<N>, orc: Seq<Outcome<N>>)
    ensures
        (x is Boolean || x is Str || x is Null) ==> spec_equals(h, x, x, orc) == (h, true),
        (x is Boolean && y is Boolean) ==> spec_equals(h, x, y, orc) == (h, x->Boolean_0 == y->Boolean_0),
        (x is Str && y is Str) ==> spec_equals(h, x, y, orc) == (h, x->Str_0 == y->Str_0),
        !(x is Number && y is Number) ==> spec_equals(h, x, y, orc) == spec_equals(h, y, x, orc),
        (x is Number && y is Number && honest_growth(h.log, spec_equals(h, x, y, orc).0.log))
            ==> spec_equals(h, x, y, orc).1 == x->Number_0.same_as(y->Number_0),
{
    if x is Number && y is Number && honest_growth(h.log, spec_equals(h, x, y, orc).0.log) {
        let f = answer_flag(ask(h, orc));
        lemma_logged_honest(h, Outcome::Compare(CmpOp::Equal, x->Number_0, y->Number_0, f));
    }
}

/// `&&` and `||` on two booleans are conjunction and disjunction, and touch
/// nothing else.
pub proof fn lemma_logic_operators<N>(h: HView<N>, p: bool, q: bool, orc: Seq<Outcome<N>>)
    ensures
        spec_eval_binary(h, SValue::Boolean(p), "&&"@, SValue::Boolean(q), orc) == (h, Ok::<SValue<N>, RuntimeError>(SValue::Boolean(p && q))),
        spec_eval_binary(h, SValue::Boolean(p), "||"@, SValue::Boolean(q), orc) == (h, Ok::<SValue<N>, RuntimeError>(SValue::Boolean(p || q))),
{
    reveal_strlit("&&");
    reveal_strlit("||");
    assert("&&"@.len() == 2 && "&&"@[0] == '&' && "||"@[0] == '|');
}

/// On two numbers, two booleans, two strings or two nulls, the operator `==`
/// gives what equality (as `contains` uses it) gives, and `!=` the opposite,
/// with the same questions put to the arithmetic.
pub proof fn lemma_equality_operators_agree<N>(h: HView<N>, x: SValue<N>, y: SValue<N>, orc: Seq<Outcome<N>>)
    requires
        (x is Number && y is Number) || (x is Boolean && y is Boolean) || (x is Str && y is Str) || (x is Null && y is Null),
    ensures
        spec_eval_binary(h, x, "=="@, y, orc) == (spec_equals(h, x, y, orc).0, Ok::<SValue<N>, RuntimeError>(SValue::Boolean(spec_equals(h, x, y, orc).1))),
        spec_eval_binary(h, x, "!="@, y, orc) == (spec_equals(h, x, y, orc).0, Ok::<SValue<N>, RuntimeError>(SValue::Boolean(!spec_equals(h, x, y, orc).1))),
{
    reveal_strlit("&&");
    reveal_strlit("||");
    reveal_strlit("+");
    reveal_strlit("-");
    reveal_strlit("*");
    reveal_strlit("/");
    reveal_strlit("%");
    reveal_strlit("==");
    reveal_strlit("!=");
    assert("&&"@.len() == 2 && "&&"@[0] == '&');
    assert("||"@.len() == 2 && "||"@[0] == '|');
    assert("+"@.len() == 1 && "-"@.len() == 1 && "*"@.len() == 1 && "/"@.len() == 1 && "%"@.len() == 1);
    assert("=="@.len() == 2 && "=="@[0] == '=' && "=="@[1] == '=');
    assert("!="@.len() == 2 && "!="@[0] == '!' && "!="@[1] == '=');
}

/// `contains` on an array, asked for a boolean, a string or `null`, says
/// yes exactly when that value is one of the elements, wherever it stands,
/// and asks the arithmetic nothing.
pub proof fn lemma_contains_meaning<N>(h: HView<N>, id: nat, target: SValue<N>, orc: Seq<Outcome<N>>)
    requires
        id < h.arrays.len(),
        target is Boolean || target is Str || target is Null,
    ensures
        spec_contains(h, SValue::Array(id), target, orc) == (h, Ok::<SValue<N>, RuntimeError>(SValue::Boolean(
            exists|i: int| 0 <= i < h.arrays[id as int].len() && #[trigger] h.arrays[id as int][i] == target,
        ))),
{
    let items = h.arrays[id as int];
    lemma_contains_from_exact(h, items, target, 0, orc);
    if exists|i: int| 0 <= i < items.len() && #[trigger] items[i] == target {
        let i = choose|i: int| 0 <= i < items.len() && #[trigger] items[i] == target;
        assert(0 <= i < items.len() && items[i] == target);
    }
}

proof fn lemma_contains_from_exact<N>(h: HView<N>, items: Seq<SValue<N>>, target: SValue<N>, j: int, orc: Seq<Outcome<N>>)
    requires
        target is Boolean || target is Str || target is Null,
        0 <= j,
    ensures
        spec_contains_from(h, items, target, j, orc) == (h, exists|i: int| j <= i < items.len() && #[trigger] items[i] == target),
    decreases items.len() - j,
{
    if j < items.len() {
        let (h1, eq) = spec_equals(h, items[j], target, orc);
        assert(h1 == h);
        assert(eq == (items[j] == target));
        lemma_contains_from_exact(h, items, target, j + 1, orc);
        if eq {
            assert(items[j] == target);
        } else if exists|i: int| j <= i < items.len() && #[trigger] items[i] == target {
            let i = choose|i: int| j <= i < items.len() && #[trigger] items[i] == target;
            assert(i != j);
            assert(j + 1 <= i < items.len() && items[i] == target);
        }
    }
}

/// `is_empty` on an array says yes exactly when the count that `len` asks
/// the arithmetic about is zero; after a successful `push` it says no.
pub proof fn lemma_is_empty_meaning<N>(h: HView<N>, array: SValue<N>, v: SValue<N>, orc: Seq<Outcome<N>>)
    requires
        array is Array,
        array->Array_0 < h.arrays.len(),
        h.arrays[array->Array_0 as int].len() <= usize::MAX,
    ensures
        spec_len(h, array, orc).0.log.last() is Count,
        spec_is_empty(h, array) == Ok::<SValue<N>, RuntimeError>(SValue::Boolean(spec_len(h, array, orc).0.log.last()->Count_0 == 0)),
        spec_push(h, array, v).1 is Ok,
        spec_is_empty(spec_push(h, array, v).0, array) == Ok::<SValue<N>, RuntimeError>(SValue::Boolean(false)),
{
}

/// `has_key` says yes exactly when some entry of the dictionary, at any
/// position, has the key.
pub proof fn lemma_has_key_meaning<N>(h: HView<N>, id: nat, k: Seq<char>)
    requires
        id < h.dicts.len(),
    ensures
        spec_has_key(h, SValue::Dictionary(id), SValue::Str(k)) == Ok::<SValue<N>, RuntimeError>(SValue::Boolean(
            exists|i: int| 0 <= i < h.dicts[id as int].len() && #[trigger] h.dicts[id as int][i].0 == k,
        )),
{
    let es = h.dicts[id as int];
    lemma_find_key_first(es, k, 0);
    if let Some(j) = find_key_of(es, k) {
        assert(es[j as int].0 == k);
    }
}

spec fn find_key_of<N>(es: Seq<(Seq<char>, SValue<N>)>, k: Seq<char>) -> Option<nat> {
    crate::builtin::dictionary::find_key(es, k, 0)
}

/// A block that ends with `continue` ends the same way as the block without
/// it, except that finishing becomes `continue`.
proof fn lemma_block_then_continue<N>(m: MView<N>, body: Seq<SStmt>, fuel: nat, orc: Seq<Outcome<N>>)
    ensures
        spec_block(m, body.push(SStmt::Continue), 0, fuel, orc) == (match spec_block(m, body, 0, fuel, orc) {
            (m1, Ok(())) => (m1, Err(SSignal::Continue)),
            other => other,
        }),
{
    assert(body.push(SStmt::Continue) =~= body + seq![SStmt::Continue]);
    lemma_block_prefix_public(m, body, seq![SStmt::Continue], 0, fuel, orc);
    let (m1, r) = spec_block(m, body, 0, fuel, orc);
    if r is Ok {
        lemma_block_shift_public(m1, body, seq![SStmt::Continue], 0, fuel, orc);
        assert(spec_block(m1, seq![SStmt::Continue], 1, fuel, orc) == (m1, Ok::<(), SSignal<N>>(())));
        assert(seq![SStmt::Continue][0] == SStmt::Continue);
        assert(spec_exec(m1, SStmt::Continue, fuel, orc) == (m1, Err::<(), SSignal<N>>(SSignal::Continue)));
        assert(spec_block(m1, seq![SStmt::Continue], 0, fuel, orc) == (m1, Err::<(), SSignal<N>>(SSignal::Continue)));
    }
}

/// In a `for` loop, `continue` at the end of the body changes nothing: the
/// update runs and the next round starts, as when the body finishes.
pub proof fn lemma_for_trailing_continue<N>(m: MView<N>, init: SStmt, cond: SStmt, update: SStmt, body: Seq<SStmt>, fuel: nat, k: nat, orc: Seq<Outcome<N>>)
    ensures
        spec_for(m, SStmt::For(Box::new(init), Box::new(cond), Box::new(update), body.push(SStmt::Continue)), fuel, k, orc)
            == spec_for(m, SStmt::For(Box::new(init), Box::new(cond), Box::new(update), body), fuel, k, orc),
    decreases k,
{
    let s1 = SStmt::For(Box::new(init), Box::new(cond), Box::new(update), body.push(SStmt::Continue));
    let s2 = SStmt::For(Box::new(init), Box::new(cond), Box::new(update), body);
    if k > 0 {
        let (m1, c) = spec_eval(m, cond, fuel, orc);
        if c is Ok {
            let m2 = with_heap(m1, spec_truthy(m1.heap, c->Ok_0, orc).0);
            lemma_block_then_continue(m2, body, fuel, orc);
            let (m3, r) = spec_block(m2, body, 0, fuel, orc);
            let m4 = spec_exec(m3, update, fuel, orc).0;
            lemma_for_trailing_continue(m4, init, cond, update, body, fuel, (k - 1) as nat, orc);
        }
    }
}

/// In a `while` loop, `continue` at the end of the body changes nothing: the
/// next round starts, as when the body finishes.
pub proof fn lemma_while_trailing_continue<N>(m: MView<N>, cond: SStmt, body: Seq<SStmt>, fuel: nat, k: nat, orc: Seq<Outcome<N>>)
    ensures
        spec_while(m, SStmt::While(Box::new(cond), body.push(SStmt::Continue)), fuel, k, orc)
            == spec_while(m, SStmt::While(Box::new(cond), body), fuel, k, orc),
    decreases k,
{
    if k > 0 {
        let (m1, c) = spec_eval(m, cond, fuel, orc);
        if c is Ok {
            let m2 = with_heap(m1, spec_truthy(m1.heap, c->Ok_0, orc).0);
            lemma_block_then_continue(m2, body, fuel, orc);
            let m3 = spec_block(m2, body, 0, fuel, orc).0;
            lemma_while_trailing_continue(m3, cond, body, fuel, (k - 1) as nat, orc);
        }
    }
}

/// A `for` loop whose body never ends in `continue`, with an assignment as
/// its update, runs as the `while` loop whose body is the same body followed
/// by the update.
pub proof fn lemma_for_as_while<N>(m: MView<N>, init: SStmt, cond: SStmt, name: Seq<char>, value: SStmt, body: Seq<SStmt>, fuel: nat, k: nat, orc: Seq<Outcome<N>>)
    requires
        forall|m1: MView<N>| #[trigger] spec_block(m1, body, 0, fuel, orc).1 != Err::<(), SSignal<N>>(SSignal::Continue),
    ensures
        spec_for(m, SStmt::For(Box::new(init), Box::new(cond), Box::new(SStmt::Assign(name, Box::new(value))), body), fuel, k, orc)
            == spec_while(m, SStmt::While(Box::new(cond), body.push(SStmt::Assign(name, Box::new(value)))), fuel, k, orc),
    decreases k,
{
    let u = SStmt::Assign(name, Box::new(value));
    if k > 0 {
        let (m1, c) = spec_eval(m, cond, fuel, orc);
        if c is Ok {
            let m2 = with_heap(m1, spec_truthy(m1.heap, c->Ok_0, orc).0);
            assert(body.push(u) =~= body + seq![u]);
            lemma_block_prefix_public(m2, body, seq![u], 0, fuel, orc);
            let (m3, r) = spec_block(m2, body, 0, fuel, orc);
            if r is Ok {
                lemma_block_shift_public(m3, body, seq![u], 0, fuel, orc);
                assert(seq![u][0] == u);
                let (m4, v) = spec_exec(m3, u, fuel, orc);
                assert(spec_block(m4, seq![u], 1, fuel, orc) == (m4, Ok::<(), SSignal<N>>(())));
                lemma_for_as_while(m4, init, cond, name, value, body, fuel, (k - 1) as nat, orc);
            }
        }
    }
}

/// A `for` loop whose body is `break` tests its condition once and never
/// runs its update; a `while` loop whose body is `break` tests its condition once.
pub proof fn lemma_break_ends_loops<N>(m: MView<N>, init: SStmt, cond: SStmt, update: SStmt, other: SStmt, fuel: nat, k: nat, orc: Seq<Outcome<N>>)
    requires
        k >= 1,
    ensures
        spec_for(m, SStmt::For(Box::new(init), Box::new(cond), Box::new(update), seq![SStmt::Break]), fuel, k, orc)
            == spec_for(m, SStmt::For(Box::new(init), Box::new(cond), Box::new(other), seq![SStmt::Break]), fuel, 1, orc),
        spec_while(m, SStmt::While(Box::new(cond), seq![SStmt::Break]), fuel, k, orc)
            == spec_while(m, SStmt::While(Box::new(cond), seq![SStmt::Break]), fuel, 1, orc),
{
    let (m1, c) = spec_eval(m, cond, fuel, orc);
    if c is Ok {
        let m2 = with_heap(m1, spec_truthy(m1.heap, c->Ok_0, orc).0);
        assert(seq![SStmt::Break][0] == SStmt::Break);
        assert(spec_exec(m2, SStmt::Break, fuel, orc) == (m2, Err::<(), SSignal<N>>(SSignal::Break)));
        assert(spec_block(m2, seq![SStmt::Break], 0, fuel, orc) == (m2, Err::<(), SSignal<N>>(SSignal::Break)));
    }
}

} // verus!
