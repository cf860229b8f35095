//! Properties that hold across the operations of the language: what a read
//! of a variable gives back after a write, and how the array builtins undo
//! each other.
use vstd::prelude::*;
use crate::builtin::array::{set_array, spec_insert, spec_remove, spec_clear, spec_is_empty, spec_last, spec_pop, spec_push, spec_reverse};
use crate::builtin::dictionary::find_key;
use crate::ast::{SExpr, SStmt};
use crate::semantics::{
    bind_in, lookup_var, render_depth, spec_assign, spec_block, spec_bind_args, spec_call_closure, spec_define, spec_eval,
    spec_eval_list, spec_exec, spec_for, spec_lookup, spec_owner, spec_render, spec_render_entries, spec_render_items, spec_run, spec_truthy, spec_while,
    with_env, with_heap, MView,
};
use crate::value::{ask, HView, Number, Outcome, RuntimeError, SFrame, SPiece, SValue};
use vstd::set_lib::{lemma_int_range, lemma_len_subset, set_int_range};

verus! {

/// What [`find_key`] finds is the first entry with the key from where it
/// starts; when it finds nothing, no entry from there on has the key.
pub proof fn lemma_find_key_first<N>(es: Seq<(Seq<char>, SValue<N>)>, k: Seq<char>, i: int)
    requires
        0 <= i,
    ensures
        match find_key(es, k, i) {
            Some(j) => i <= j < es.len() && es[j as int].0 == k && forall|m: int| i <= m < j ==> es[m].0 != k,
            None => forall|m: int| i <= m < es.len() ==> es[m].0 != k,
        },
    decreases es.len() - i,
{
    if i < es.len() && es[i].0 != k {
        lemma_find_key_first(es, k, i + 1);
    }
}

/// Two entry lists with the same keys from `i` on find a key at the same place.
pub proof fn lemma_find_key_same_keys<N>(a: Seq<(Seq<char>, SValue<N>)>, b: Seq<(Seq<char>, SValue<N>)>, k: Seq<char>, i: int)
    requires
        0 <= i,
        a.len() == b.len(),
        forall|m: int| i <= m < a.len() ==> a[m].0 == b[m].0,
    ensures
        find_key(a, k, i) == find_key(b, k, i),
    decreases a.len() - i,
{
    if i < a.len() {
        lemma_find_key_same_keys(a, b, k, i + 1);
    }
}

/// A key that no entry from `i` on has is found at the end once it is appended.
pub proof fn lemma_find_key_appended<N>(es: Seq<(Seq<char>, SValue<N>)>, k: Seq<char>, v: SValue<N>, i: int)
    requires
        0 <= i <= es.len(),
        forall|m: int| i <= m < es.len() ==> es[m].0 != k,
    ensures
        find_key(es.push((k, v)), k, i) == Some(es.len()),
    decreases es.len() - i,
{
    if i < es.len() {
        lemma_find_key_appended(es, k, v, i + 1);
    }
}

/// A key absent from `es` from `i` on, other than `k`, stays absent after `(k, v)` is appended.
pub proof fn lemma_find_key_other_appended<N>(es: Seq<(Seq<char>, SValue<N>)>, k: Seq<char>, v: SValue<N>, other: Seq<char>, i: int)
    requires
        0 <= i <= es.len(),
        other != k,
    ensures
        find_key(es.push((k, v)), other, i) == find_key(es, other, i),
    decreases es.len() - i,
{
    if i < es.len() {
        lemma_find_key_other_appended(es, k, v, other, i + 1);
    } else {
        assert(find_key(es.push((k, v)), other, i + 1) == None::<nat>);
    }
}

/// Binding a name makes the bindings find that name with its new value.
pub proof fn lemma_bind_in_finds<N>(vars: Seq<(Seq<char>, SValue<N>)>, name: Seq<char>, v: SValue<N>)
    ensures
        find_key(bind_in(vars, name, v), name, 0) matches Some(i) && bind_in(vars, name, v)[i as int] == (name, v),
{
    lemma_find_key_first(vars, name, 0);
    match find_key(vars, name, 0) {
        Some(i) => {
            let b = vars.update(i as int, (name, v));
            lemma_find_key_same_keys(vars, b, name, 0);
        },
        None => {
            lemma_find_key_appended(vars, name, v, 0);
        },
    }
}

/// Binding a name leaves what every other name finds, and its value, as it was.
pub proof fn lemma_bind_in_other<N>(vars: Seq<(Seq<char>, SValue<N>)>, name: Seq<char>, v: SValue<N>, other: Seq<char>)
    requires
        other != name,
    ensures
        find_key(bind_in(vars, name, v), other, 0) == find_key(vars, other, 0),
        find_key(vars, other, 0) matches Some(j) ==> bind_in(vars, name, v)[j as int] == vars[j as int],
{
    lemma_find_key_first(vars, name, 0);
    lemma_find_key_first(vars, other, 0);
    match find_key(vars, name, 0) {
        Some(i) => {
            let b = vars.update(i as int, (name, v));
            lemma_find_key_same_keys(vars, b, other, 0);
        },
        None => {
            lemma_find_key_other_appended(vars, name, v, other, 0);
        },
    }
}

/// Binding `name` in scope `f` gives the new value to a lookup that starts
/// at a scope whose chain reaches `f` before any other scope that binds it.
proof fn lemma_lookup_reaches<N>(fs: Seq<SFrame<N>>, f: int, name: Seq<char>, steps: nat, o: nat, v: SValue<N>)
    requires
        spec_owner(fs, f, name, steps) == Some(o),
        o < fs.len(),
    ensures
        spec_lookup(
            fs.update(o as int, SFrame { vars: bind_in(fs[o as int].vars, name, v), parent: fs[o as int].parent }),
            f,
            name,
            steps,
        ) == Some(v),
    decreases steps,
{
    let fs2 = fs.update(o as int, SFrame { vars: bind_in(fs[o as int].vars, name, v), parent: fs[o as int].parent });
    lemma_bind_in_finds(fs[o as int].vars, name, v);
    match find_key(fs[f].vars, name, 0) {
        Some(_) => {},
        None => {
            if f != o {
                match fs[f].parent {
                    Some(p) => lemma_lookup_reaches(fs, p as int, name, (steps - 1) as nat, o, v),
                    None => {},
                }
            }
        },
    }
}

/// Binding `name` in scope `o` changes what no other name looks up, from any scope.
proof fn lemma_lookup_other<N>(fs: Seq<SFrame<N>>, f: int, name: Seq<char>, other: Seq<char>, steps: nat, o: nat, v: SValue<N>)
    requires
        other != name,
        o < fs.len(),
    ensures
        spec_lookup(
            fs.update(o as int, SFrame { vars: bind_in(fs[o as int].vars, name, v), parent: fs[o as int].parent }),
            f,
            other,
            steps,
        ) == spec_lookup(fs, f, other, steps),
    decreases steps,
{
    if steps > 0 && 0 <= f < fs.len() {
        lemma_bind_in_other(fs[o as int].vars, name, v, other);
        match fs[f].parent {
            Some(p) => lemma_lookup_other(fs, p as int, name, other, (steps - 1) as nat, o, v),
            None => {},
        }
    }
}

/// After `let`-binding a name in a scope, the name read from that scope
/// gives the bound value.
pub proof fn lemma_define_then_lookup<N>(h: HView<N>, f: nat, name: Seq<char>, v: SValue<N>)
    requires
        spec_define(h, f, name, v) is Ok,
    ensures
        lookup_var(spec_define(h, f, name, v)->Ok_0, f, name) == Some(v),
{
    lemma_bind_in_finds(h.frames[f as int].vars, name, v);
}

/// Binding a name in any scope leaves what every other name reads, from every scope.
pub proof fn lemma_define_keeps_others<N>(h: HView<N>, f: nat, name: Seq<char>, v: SValue<N>, env: nat, other: Seq<char>)
    requires
        spec_define(h, f, name, v) is Ok,
        other != name,
    ensures
        lookup_var(spec_define(h, f, name, v)->Ok_0, env, other) == lookup_var(h, env, other),
{
    lemma_lookup_other(h.frames, env as int, name, other, h.frames.len(), f, v);
}

/// After an assignment to a name, the name read from the same scope gives
/// the assigned value, whether the name was bound in an enclosing scope or
/// is bound anew.
pub proof fn lemma_assign_then_lookup<N>(h: HView<N>, env: nat, name: Seq<char>, v: SValue<N>)
    requires
        spec_assign(h, env, name, v) is Ok,
    ensures
        lookup_var(spec_assign(h, env, name, v)->Ok_0, env, name) == Some(v),
{
    match spec_owner(h.frames, env as int, name, h.frames.len()) {
        Some(o) => lemma_lookup_reaches(h.frames, env as int, name, h.frames.len(), o, v),
        None => lemma_define_then_lookup(h, env, name, v),
    }
}

/// An assignment to a name leaves what every other name reads, from every scope.
pub proof fn lemma_assign_keeps_others<N>(h: HView<N>, env: nat, name: Seq<char>, v: SValue<N>, from: nat, other: Seq<char>)
    requires
        spec_assign(h, env, name, v) is Ok,
        other != name,
    ensures
        lookup_var(spec_assign(h, env, name, v)->Ok_0, from, other) == lookup_var(h, from, other),
{
    match spec_owner(h.frames, env as int, name, h.frames.len()) {
        Some(o) => lemma_define_keeps_others(h, o, name, v, from, other),
        None => lemma_define_keeps_others(h, env, name, v, from, other),
    }
}

/// `pop` right after a successful `push` on the same array gives back the
/// pushed value and leaves the heap as it was before the `push`.
pub proof fn lemma_push_then_pop<N>(h: HView<N>, array: SValue<N>, v: SValue<N>)
    requires
        spec_push(h, array, v).1 is Ok,
    ensures
        spec_pop(spec_push(h, array, v).0, array) == (h, Ok::<SValue<N>, crate::value::RuntimeError>(v)),
{
    let id = array->Array_0;
    let a = h.arrays[id as int];
    let h1 = set_array(h, id, a.push(v));
    assert(a.push(v).drop_last() =~= a);
    assert(set_array(h1, id, a).arrays =~= h.arrays);
}

/// `last` right after a successful `push` gives the pushed value.
pub proof fn lemma_push_then_last<N>(h: HView<N>, array: SValue<N>, v: SValue<N>)
    requires
        spec_push(h, array, v).1 is Ok,
    ensures
        spec_last(spec_push(h, array, v).0, array) == Ok::<SValue<N>, crate::value::RuntimeError>(v),
{
}

/// Reversing an array twice leaves the heap as it was.
pub proof fn lemma_reverse_twice<N>(h: HView<N>, array: SValue<N>)
    requires
        spec_reverse(h, array).1 is Ok,
    ensures
        spec_reverse(spec_reverse(h, array).0, array) == (h, spec_reverse(h, array).1),
{
    let id = array->Array_0;
    let a = h.arrays[id as int];
    assert(a.reverse().reverse() =~= a);
    assert(set_array(set_array(h, id, a.reverse()), id, a).arrays =~= h.arrays);
}

/// After `clear` succeeds, `is_empty` on the same array says yes.
pub proof fn lemma_clear_then_is_empty<N>(h: HView<N>, array: SValue<N>)
    requires
        spec_clear(h, array).1 is Ok,
    ensures
        spec_is_empty(spec_clear(h, array).0, array) == Ok::<SValue<N>, crate::value::RuntimeError>(SValue::Boolean(true)),
{
}

/// `after` runs in the same scope as `before`, and the lines printed by then
/// begin with the lines printed before.
pub open spec fn same_scope_more_output<N>(before: MView<N>, after: MView<N>) -> bool {
    &&& after.env == before.env
    &&& before.out.len() <= after.out.len()
    &&& after.out.subrange(0, before.out.len() as int) == before.out
}

proof fn lemma_more_output_trans<N>(a: MView<N>, b: MView<N>, c: MView<N>)
    requires
        same_scope_more_output(a, b),
        b.out.len() <= c.out.len(),
        c.out.subrange(0, b.out.len() as int) == b.out,
    ensures
        a.out.len() <= c.out.len(),
        c.out.subrange(0, a.out.len() as int) == a.out,
{
    assert(c.out.subrange(0, a.out.len() as int) =~= b.out.subrange(0, a.out.len() as int));
}

proof fn lemma_same_scope_trans<N>(a: MView<N>, b: MView<N>, c: MView<N>)
    requires
        same_scope_more_output(a, b),
        same_scope_more_output(b, c),
    ensures
        same_scope_more_output(a, c),
{
    lemma_more_output_trans(a, b, c);
}

proof fn lemma_same_scope_refl<N>(a: MView<N>)
    ensures
        same_scope_more_output(a, a),
{
    assert(a.out.subrange(0, a.out.len() as int) =~= a.out);
}

/// Evaluating an expression returns to the scope it started in (a function
/// call goes back to the caller's scope) and only ever adds printed lines.
pub proof fn lemma_eval_keeps_scope<N>(m: MView<N>, e: SExpr, fuel: nat, orc: Seq<Outcome<N>>)
    ensures
        same_scope_more_output(m, spec_eval(m, e, fuel, orc).0),
    decreases fuel, e, 0nat,
{
    lemma_same_scope_refl(m);
    match e {
        SExpr::Binary(l, op, r) => {
            let (m1, lv) = spec_eval(m, *l, fuel, orc);
            lemma_eval_keeps_scope(m, *l, fuel, orc);
            lemma_eval_keeps_scope(m1, *r, fuel, orc);
            let m2 = spec_eval(m1, *r, fuel, orc).0;
            lemma_same_scope_trans(m, m1, m2);
        },
        SExpr::Unary(op, r) => {
            lemma_eval_keeps_scope(m, *r, fuel, orc);
        },
        SExpr::Array(elements) => {
            lemma_list_keeps_scope(m, elements, 0, Seq::empty(), fuel, orc);
        },
        SExpr::Index(object, index) => {
            let (m1, o) = spec_eval(m, *object, fuel, orc);
            lemma_eval_keeps_scope(m, *object, fuel, orc);
            lemma_eval_keeps_scope(m1, *index, fuel, orc);
            let (m2, i) = spec_eval(m1, *index, fuel, orc);
            lemma_same_scope_trans(m, m1, m2);
        },
        SExpr::Call(callee, args) => {
            lemma_list_keeps_scope(m, args, 0, Seq::empty(), fuel, orc);
            lemma_eval_keeps_scope(m, *callee, fuel, orc);
            let (m1, f) = spec_eval(m, *callee, fuel, orc);
            if let Ok(SValue::Function(id)) = f {
                lemma_call_keeps_scope(m1, id, args, fuel, orc);
                lemma_same_scope_trans(m, m1, spec_call_closure(m1, id, args, fuel, orc).0);
            }
        },
        _ => {},
    }
}

/// A function call returns to the caller's scope and only adds printed lines.
pub proof fn lemma_call_keeps_scope<N>(m: MView<N>, id: nat, args: Seq<SExpr>, fuel: nat, orc: Seq<Outcome<N>>)
    ensures
        same_scope_more_output(m, spec_call_closure(m, id, args, fuel, orc).0),
    decreases fuel, args, args.len() + 1,
{
    lemma_same_scope_refl(m);
    if id < m.heap.closures.len() && m.heap.closures[id as int].params.len() == args.len() && fuel > 0 {
        let c = m.heap.closures[id as int];
        let frame = m.heap.frames.len();
        let m2 = with_heap(m, HView { frames: m.heap.frames.push(SFrame { vars: Seq::empty(), parent: Some(c.env) }), ..m.heap });
        lemma_bind_keeps_scope(m2, args, c.params, frame, 0, fuel, orc);
        let (m3, bound) = spec_bind_args(m2, args, c.params, frame, 0, fuel, orc);
        lemma_block_keeps_scope(with_env(m3, frame), c.body, 0, (fuel - 1) as nat, orc);
        let m4 = spec_block(with_env(m3, frame), c.body, 0, (fuel - 1) as nat, orc).0;
        lemma_more_output_trans(m, m3, m4);
    }
}

/// Evaluating a list of expressions returns to its scope and only adds printed lines.
pub proof fn lemma_list_keeps_scope<N>(m: MView<N>, es: Seq<SExpr>, i: int, acc: Seq<SValue<N>>, fuel: nat, orc: Seq<Outcome<N>>)
    ensures
        same_scope_more_output(m, spec_eval_list(m, es, i, acc, fuel, orc).0),
    decreases fuel, es, es.len() - i,
{
    lemma_same_scope_refl(m);
    if 0 <= i < es.len() {
        lemma_eval_keeps_scope(m, es[i], fuel, orc);
        let (m1, v) = spec_eval(m, es[i], fuel, orc);
        if v is Ok {
            lemma_list_keeps_scope(m1, es, i + 1, acc.push(v->Ok_0), fuel, orc);
            lemma_same_scope_trans(m, m1, spec_eval_list(m1, es, i + 1, acc.push(v->Ok_0), fuel, orc).0);
        }
    }
}

/// Binding the arguments of a call returns to the caller's scope and only adds printed lines.
pub proof fn lemma_bind_keeps_scope<N>(m: MView<N>, args: Seq<SExpr>, params: Seq<Seq<char>>, frame: nat, i: int, fuel: nat, orc: Seq<Outcome<N>>)
    ensures
        same_scope_more_output(m, spec_bind_args(m, args, params, frame, i, fuel, orc).0),
    decreases fuel, args, args.len() - i,
{
    lemma_same_scope_refl(m);
    if 0 <= i < args.len() {
        lemma_eval_keeps_scope(m, args[i], fuel, orc);
        let (m1, v) = spec_eval(m, args[i], fuel, orc);
        if v is Ok {
            if spec_define(m1.heap, frame, params[i], v->Ok_0) is Ok {
                let m2 = with_heap(m1, spec_define(m1.heap, frame, params[i], v->Ok_0)->Ok_0);
                lemma_bind_keeps_scope(m2, args, params, frame, i + 1, fuel, orc);
                lemma_same_scope_trans(m, m2, spec_bind_args(m2, args, params, frame, i + 1, fuel, orc).0);
            }
        }
    }
}

/// Running statements stays in the scope they started in and only adds printed lines.
pub proof fn lemma_block_keeps_scope<N>(m: MView<N>, stmts: Seq<SStmt>, i: int, fuel: nat, orc: Seq<Outcome<N>>)
    ensures
        same_scope_more_output(m, spec_block(m, stmts, i, fuel, orc).0),
    decreases fuel, stmts, stmts.len() - i,
{
    lemma_same_scope_refl(m);
    if 0 <= i < stmts.len() {
        lemma_exec_keeps_scope(m, stmts[i], fuel, orc);
        let (m1, r) = spec_exec(m, stmts[i], fuel, orc);
        if r is Ok {
            lemma_block_keeps_scope(m1, stmts, i + 1, fuel, orc);
            lemma_same_scope_trans(m, m1, spec_block(m1, stmts, i + 1, fuel, orc).0);
        }
    }
}

/// A statement stays in the scope it started in and only adds printed lines.
pub proof fn lemma_exec_keeps_scope<N>(m: MView<N>, s: SStmt, fuel: nat, orc: Seq<Outcome<N>>)
    ensures
        same_scope_more_output(m, spec_exec(m, s, fuel, orc).0),
    decreases fuel, s, fuel + 1,
{
    lemma_same_scope_refl(m);
    match s {
        SStmt::Let(_, value) | SStmt::Assign(_, value) | SStmt::Return(value) | SStmt::Expression(value) => {
            lemma_eval_keeps_scope(m, *value, fuel, orc);
        },
        SStmt::Print(value) => {
            lemma_eval_keeps_scope(m, *value, fuel, orc);
            let m1 = spec_eval(m, *value, fuel, orc).0;
            let v = spec_eval(m, *value, fuel, orc).1;
            if v is Ok {
                let line = spec_render(m1.heap, v->Ok_0, render_depth(m1.heap));
                if line is Ok {
                    let m2 = MView { out: m1.out.push(line->Ok_0), ..m1 };
                    assert(m2.out.subrange(0, m1.out.len() as int) =~= m1.out);
                    lemma_same_scope_trans(m, m1, m2);
                }
            }
        },
        SStmt::If(cond, then_branch, else_branch) => {
            lemma_eval_keeps_scope(m, *cond, fuel, orc);
            let (m1, c) = spec_eval(m, *cond, fuel, orc);
            if c is Ok {
                let m2 = with_heap(m1, spec_truthy(m1.heap, c->Ok_0, orc).0);
                lemma_block_keeps_scope(m2, then_branch, 0, fuel, orc);
                lemma_same_scope_trans(m, m2, spec_block(m2, then_branch, 0, fuel, orc).0);
                if let Some(b) = else_branch {
                    lemma_block_keeps_scope(m2, b, 0, fuel, orc);
                    lemma_same_scope_trans(m, m2, spec_block(m2, b, 0, fuel, orc).0);
                }
            }
        },
        SStmt::While(_, _) => {
            lemma_while_keeps_scope(m, s, fuel, fuel, orc);
        },
        SStmt::For(init, _, _, _) => {
            lemma_exec_keeps_scope(m, *init, fuel, orc);
            let m1 = spec_exec(m, *init, fuel, orc).0;
            lemma_for_keeps_scope(m1, s, fuel, fuel, orc);
            lemma_same_scope_trans(m, m1, spec_for(m1, s, fuel, fuel, orc).0);
        },
        _ => {},
    }
}

/// A `while` loop stays in its scope and only adds printed lines.
pub proof fn lemma_while_keeps_scope<N>(m: MView<N>, s: SStmt, fuel: nat, k: nat, orc: Seq<Outcome<N>>)
    ensures
        same_scope_more_output(m, spec_while(m, s, fuel, k, orc).0),
    decreases fuel, s, k,
{
    lemma_same_scope_refl(m);
    if let SStmt::While(cond, body) = s {
        if k > 0 {
            lemma_eval_keeps_scope(m, *cond, fuel, orc);
            let (m1, c) = spec_eval(m, *cond, fuel, orc);
            if c is Ok {
                let m2 = with_heap(m1, spec_truthy(m1.heap, c->Ok_0, orc).0);
                lemma_block_keeps_scope(m2, body, 0, fuel, orc);
                let m3 = spec_block(m2, body, 0, fuel, orc).0;
                lemma_same_scope_trans(m, m2, m3);
                lemma_while_keeps_scope(m3, s, fuel, (k - 1) as nat, orc);
                lemma_same_scope_trans(m, m3, spec_while(m3, s, fuel, (k - 1) as nat, orc).0);
            }
        }
    }
}

/// A `for` loop, after its start, stays in its scope and only adds printed lines.
pub proof fn lemma_for_keeps_scope<N>(m: MView<N>, s: SStmt, fuel: nat, k: nat, orc: Seq<Outcome<N>>)
    ensures
        same_scope_more_output(m, spec_for(m, s, fuel, k, orc).0),
    decreases fuel, s, k,
{
    lemma_same_scope_refl(m);
    if let SStmt::For(_, cond, update, body) = s {
        if k > 0 {
            lemma_eval_keeps_scope(m, *cond, fuel, orc);
            let (m1, c) = spec_eval(m, *cond, fuel, orc);
            if c is Ok {
                let m2 = with_heap(m1, spec_truthy(m1.heap, c->Ok_0, orc).0);
                lemma_block_keeps_scope(m2, body, 0, fuel, orc);
                let m3 = spec_block(m2, body, 0, fuel, orc).0;
                lemma_same_scope_trans(m, m2, m3);
                lemma_exec_keeps_scope(m3, *update, fuel, orc);
                let m4 = spec_exec(m3, *update, fuel, orc).0;
                lemma_same_scope_trans(m, m3, m4);
                lemma_for_keeps_scope(m4, s, fuel, (k - 1) as nat, orc);
                lemma_same_scope_trans(m, m4, spec_for(m4, s, fuel, (k - 1) as nat, orc).0);
            }
        }
    }
}

/// After `let name = e;` runs without failing, reading `name` gives the
/// value that `e` evaluated to.
pub proof fn lemma_let_then_read<N>(m: MView<N>, name: Seq<char>, e: SExpr, fuel: nat, orc: Seq<Outcome<N>>, later_fuel: nat, later: Seq<Outcome<N>>)
    requires
        spec_exec(m, SStmt::Let(name, Box::new(e)), fuel, orc).1 is Ok,
    ensures
        spec_eval(spec_exec(m, SStmt::Let(name, Box::new(e)), fuel, orc).0, SExpr::Identifier(name), later_fuel, later).1
            == Ok::<SValue<N>, RuntimeError>(spec_eval(m, e, fuel, orc).1->Ok_0),
{
    let (m1, v) = spec_eval(m, e, fuel, orc);
    lemma_define_then_lookup(m1.heap, m1.env, name, v->Ok_0);
}

/// After an assignment `name = e;` runs without failing, reading `name`
/// gives the value that `e` evaluated to.
pub proof fn lemma_assign_then_read<N>(m: MView<N>, name: Seq<char>, e: SExpr, fuel: nat, orc: Seq<Outcome<N>>, later_fuel: nat, later: Seq<Outcome<N>>)
    requires
        spec_exec(m, SStmt::Assign(name, Box::new(e)), fuel, orc).1 is Ok,
    ensures
        spec_eval(spec_exec(m, SStmt::Assign(name, Box::new(e)), fuel, orc).0, SExpr::Identifier(name), later_fuel, later).1
            == Ok::<SValue<N>, RuntimeError>(spec_eval(m, e, fuel, orc).1->Ok_0),
{
    let (m1, v) = spec_eval(m, e, fuel, orc);
    lemma_assign_then_lookup(m1.heap, m1.env, name, v->Ok_0);
}

/// Running the statements of `a + b` from the first statement of `b` on is
/// running `b`.
proof fn lemma_block_shift<N>(m: MView<N>, a: Seq<SStmt>, b: Seq<SStmt>, j: int, fuel: nat, orc: Seq<Outcome<N>>)
    requires
        0 <= j,
    ensures
        spec_block(m, a + b, a.len() + j, fuel, orc) == spec_block(m, b, j, fuel, orc),
    decreases b.len() - j,
{
    if j < b.len() {
        assert((a + b)[a.len() + j] == b[j]);
        let (m1, r) = spec_exec(m, b[j], fuel, orc);
        if r is Ok {
            lemma_block_shift(m1, a, b, j + 1, fuel, orc);
        }
    }
}

/// Running `a + b` from position `i` of `a` runs the rest of `a` and, if
/// that finishes, goes on at the start of `b`.
proof fn lemma_block_prefix<N>(m: MView<N>, a: Seq<SStmt>, b: Seq<SStmt>, i: int, fuel: nat, orc: Seq<Outcome<N>>)
    requires
        0 <= i <= a.len(),
    ensures
        spec_block(m, a + b, i, fuel, orc) == (match spec_block(m, a, i, fuel, orc) {
            (m1, Ok(())) => spec_block(m1, a + b, a.len() as int, fuel, orc),
            other => other,
        }),
    decreases a.len() - i,
{
    if i < a.len() {
        assert((a + b)[i] == a[i]);
        let (m1, r) = spec_exec(m, a[i], fuel, orc);
        if r is Ok {
            lemma_block_prefix(m1, a, b, i + 1, fuel, orc);
        }
    }
}

/// Running two programs one after the other on the same machine is running
/// them as one program: when the first finishes, the second starts from the
/// machine the first left; when the first stops with an error, so does the whole.
pub proof fn lemma_run_in_parts<N>(m: MView<N>, first: Seq<SStmt>, second: Seq<SStmt>, fuel: nat, orc: Seq<Outcome<N>>)
    ensures
        spec_run(m, first + second, fuel, orc) == (match spec_run(m, first, fuel, orc) {
            (m1, Ok(())) => spec_run(m1, second, fuel, orc),
            stopped => stopped,
        }),
{
    lemma_block_prefix(m, first, second, 0, fuel, orc);
    let (m1, r) = spec_block(m, first, 0, fuel, orc);
    if r is Ok {
        lemma_block_shift(m1, first, second, 0, fuel, orc);
    }
}

/// A container of the heap, by its handle.
pub enum Container {
    Array(nat),
    Dictionary(nat),
}

/// The container a value is a handle on, if any.
pub open spec fn container_of<N>(v: SValue<N>) -> Option<Container> {
    match v {
        SValue::Array(id) => Some(Container::Array(id)),
        SValue::Dictionary(id) => Some(Container::Dictionary(id)),
        _ => None,
    }
}

/// The container exists in the heap.
pub open spec fn live<N>(h: HView<N>, c: Container) -> bool {
    match c {
        Container::Array(id) => id < h.arrays.len(),
        Container::Dictionary(id) => id < h.dicts.len(),
    }
}

/// The values a container holds directly.
pub open spec fn contents<N>(h: HView<N>, c: Container) -> Seq<SValue<N>> {
    match c {
        Container::Array(id) => h.arrays[id as int],
        Container::Dictionary(id) => Seq::new(h.dicts[id as int].len(), |i: int| h.dicts[id as int][i].1),
    }
}

/// Container `a` holds a handle on container `b`.
pub open spec fn holds<N>(h: HView<N>, a: Container, b: Container) -> bool {
    exists|k: int| 0 <= k < contents(h, a).len() && container_of(#[trigger] contents(h, a)[k]) == Some(b)
}

/// Each container of `p` exists and holds the next one.
pub open spec fn nested<N>(h: HView<N>, p: Seq<Container>) -> bool {
    &&& forall|i: int| 0 <= i < p.len() ==> live(h, #[trigger] p[i])
    &&& forall|i: int| 0 <= i < p.len() - 1 ==> holds(h, #[trigger] p[i], p[i + 1])
}

/// From `v` one reaches, through containers each holding the next, a
/// container that holds itself, directly or through others.
pub open spec fn reaches_cycle<N>(h: HView<N>, v: SValue<N>) -> bool {
    exists|p: Seq<Container>, j: int|
        #![trigger nested(h, p), p[j]]
        p.len() >= 2 && container_of(v) == Some(p[0]) && nested(h, p) && 0 <= j < p.len() - 1 && p[j] == p[p.len() - 1]
}

/// A printing that runs out of depth follows a chain of `depth + 1` nested containers from the value.
proof fn lemma_render_chain<N>(h: HView<N>, v: SValue<N>, depth: nat) -> (p: Seq<Container>)
    requires
        spec_render(h, v, depth) == Err::<Seq<SPiece<N>>, RuntimeError>(RuntimeError::CyclicValue),
    ensures
        p.len() == depth + 1,
        container_of(v) == Some(p[0]),
        nested(h, p),
    decreases depth, 0nat,
{
    match v {
        SValue::Array(id) => {
            let c = Container::Array(id);
            if depth == 0 {
                seq![c]
            } else {
                let (k, q) = lemma_items_chain(h, h.arrays[id as int], 0, (depth - 1) as nat);
                let p = seq![c] + q;
                assert(contents(h, c)[k] == h.arrays[id as int][k]);
                assert(holds(h, c, q[0]));
                assert forall|i: int| 0 <= i < p.len() - 1 implies holds(h, #[trigger] p[i], p[i + 1]) by {
                    if i > 0 {
                        assert(p[i] == q[i - 1] && p[i + 1] == q[i]);
                    }
                }
                assert forall|i: int| 0 <= i < p.len() implies live(h, #[trigger] p[i]) by {
                    if i > 0 {
                        assert(p[i] == q[i - 1]);
                    }
                }
                p
            }
        },
        SValue::Dictionary(id) => {
            let c = Container::Dictionary(id);
            if depth == 0 {
                seq![c]
            } else {
                let es = h.dicts[id as int];
                let (k, q) = lemma_entries_chain(h, es, 0, (depth - 1) as nat);
                let p = seq![c] + q;
                assert(contents(h, c)[k] == es[k].1);
                assert(holds(h, c, q[0]));
                assert forall|i: int| 0 <= i < p.len() - 1 implies holds(h, #[trigger] p[i], p[i + 1]) by {
                    if i > 0 {
                        assert(p[i] == q[i - 1] && p[i + 1] == q[i]);
                    }
                }
                assert forall|i: int| 0 <= i < p.len() implies live(h, #[trigger] p[i]) by {
                    if i > 0 {
                        assert(p[i] == q[i - 1]);
                    }
                }
                p
            }
        },
        _ => Seq::empty(),
    }
}

/// Printing the items of a list that runs out of depth does so at one item,
/// from which a chain of `depth + 1` nested containers starts.
proof fn lemma_items_chain<N>(h: HView<N>, items: Seq<SValue<N>>, i: int, depth: nat) -> (r: (int, Seq<Container>))
    requires
        spec_render_items(h, items, i, depth) == Err::<Seq<SPiece<N>>, RuntimeError>(RuntimeError::CyclicValue),
    ensures
        i <= r.0 < items.len(),
        r.1.len() == depth + 1,
        container_of(items[r.0]) == Some(r.1[0]),
        nested(h, r.1),
    decreases depth, items.len() - i + 1,
{
    if spec_render(h, items[i], depth) is Ok {
        lemma_items_chain(h, items, i + 1, depth)
    } else {
        (i, lemma_render_chain(h, items[i], depth))
    }
}

/// Printing the entries of a dictionary that runs out of depth does so at one
/// entry, from whose value a chain of `depth + 1` nested containers starts.
proof fn lemma_entries_chain<N>(h: HView<N>, es: Seq<(Seq<char>, SValue<N>)>, i: int, depth: nat) -> (r: (int, Seq<Container>))
    requires
        spec_render_entries(h, es, i, depth) == Err::<Seq<SPiece<N>>, RuntimeError>(RuntimeError::CyclicValue),
    ensures
        i <= r.0 < es.len(),
        r.1.len() == depth + 1,
        container_of(es[r.0].1) == Some(r.1[0]),
        nested(h, r.1),
    decreases depth, es.len() - i + 1,
{
    if spec_render(h, es[i].1, depth) is Ok {
        lemma_entries_chain(h, es, i + 1, depth)
    } else {
        (i, lemma_render_chain(h, es[i].1, depth))
    }
}

/// More than `n` numbers below `n` repeat one.
proof fn lemma_pigeonhole(s: Seq<int>, n: int)
    requires
        0 <= n < s.len(),
        forall|i: int| 0 <= i < s.len() ==> 0 <= #[trigger] s[i] < n,
    ensures
        exists|j: int, k: int| 0 <= j < k < s.len() && s[j] == s[k],
{
    if !(exists|j: int, k: int| 0 <= j < k < s.len() && s[j] == s[k]) {
        assert(s.no_duplicates()) by {
            assert forall|a: int, b: int| 0 <= a < s.len() && 0 <= b < s.len() && a != b implies s[a] != s[b] by {
                if a < b {
                    assert(!(s[a] == s[b]));
                } else {
                    assert(!(s[b] == s[a]));
                }
            }
        }
        s.unique_seq_to_set();
        lemma_int_range(0, n);
        assert(s.to_set().subset_of(set_int_range(0, n))) by {
            assert forall|x: int| #[trigger] s.to_set().contains(x) implies set_int_range(0, n).contains(x) by {
                let i = choose|i: int| 0 <= i < s.len() && s[i] == x;
                assert(0 <= s[i] < n);
            }
        }
        lemma_len_subset(s.to_set(), set_int_range(0, n));
    }
}

/// The place of a container among all containers: arrays first, then dictionaries.
pub open spec fn slot<N>(h: HView<N>, c: Container) -> int {
    match c {
        Container::Array(id) => id as int,
        Container::Dictionary(id) => (h.arrays.len() + id) as int,
    }
}

/// Printing a value fails as cyclic only when the value reaches a container
/// that holds itself: a value whose containers nest without a cycle always prints.
pub proof fn lemma_cyclic_only_for_cycles<N>(h: HView<N>, v: SValue<N>)
    requires
        h.arrays.len() + h.dicts.len() <= usize::MAX,
        spec_render(h, v, render_depth(h)) == Err::<Seq<SPiece<N>>, RuntimeError>(RuntimeError::CyclicValue),
    ensures
        reaches_cycle(h, v),
{
    let d = render_depth(h);
    let p = lemma_render_chain(h, v, d);
    let s = Seq::new(p.len(), |i: int| slot(h, p[i]));
    assert forall|i: int| 0 <= i < s.len() implies 0 <= #[trigger] s[i] < d as int by {
        assert(live(h, p[i]));
    }
    lemma_pigeonhole(s, d as int);
    let (j, k) = choose|j: int, k: int| 0 <= j < k < s.len() && s[j] == s[k];
    assert(live(h, p[j]) && live(h, p[k]));
    assert(p[j] == p[k]);
    let q = p.subrange(0, k + 1);
    assert(q[j] == p[j] && q[q.len() - 1] == p[k]);
    assert forall|i: int| 0 <= i < q.len() implies live(h, #[trigger] q[i]) by {
        assert(q[i] == p[i]);
    }
    assert forall|i: int| 0 <= i < q.len() - 1 implies holds(h, #[trigger] q[i], q[i + 1]) by {
        assert(q[i] == p[i] && q[i + 1] == p[i + 1]);
    }
    assert(nested(h, q));
}

/// `remove` right after a successful `insert` at the same number gives back
/// the inserted value and restores the array, when both questions for the
/// position got the arithmetic's own answer.
pub proof fn lemma_insert_then_remove<N: Number>(h: HView<N>, id: nat, n: N, v: SValue<N>, orc: Seq<Outcome<N>>)
    requires
        spec_insert(h, SValue::Array(id), SValue::Number(n), v, orc).1 is Ok,
        ask(h, orc) == Outcome::Index(n, n.position()),
        ask(spec_insert(h, SValue::Array(id), SValue::Number(n), v, orc).0, orc) == Outcome::Index(n, n.position()),
    ensures
        spec_remove(spec_insert(h, SValue::Array(id), SValue::Number(n), v, orc).0, SValue::Array(id), SValue::Number(n), orc).1
            == Ok::<SValue<N>, RuntimeError>(v),
        spec_remove(spec_insert(h, SValue::Array(id), SValue::Number(n), v, orc).0, SValue::Array(id), SValue::Number(n), orc).0.arrays
            == h.arrays,
{
    let i = n.position();
    let a = h.arrays[id as int];
    let ins = a.insert(i as int, v);
    assert(ins[i as int] == v);
    assert(ins.remove(i as int) =~= a);
    let h1 = spec_insert(h, SValue::Array(id), SValue::Number(n), v, orc).0;
    assert(h1.arrays[id as int] == ins);
    assert(h1.arrays.update(id as int, a) =~= h.arrays);
}

/// [`lemma_block_prefix`], for other modules.
pub proof fn lemma_block_prefix_public<N>(m: MView<N>, a: Seq<SStmt>, b: Seq<SStmt>, i: int, fuel: nat, orc: Seq<Outcome<N>>)
    requires
        0 <= i <= a.len(),
    ensures
        spec_block(m, a + b, i, fuel, orc) == (match spec_block(m, a, i, fuel, orc) {
            (m1, Ok(())) => spec_block(m1, a + b, a.len() as int, fuel, orc),
            other => other,
        }),
{
    lemma_block_prefix(m, a, b, i, fuel, orc);
}

/// [`lemma_block_shift`], for other modules.
pub proof fn lemma_block_shift_public<N>(m: MView<N>, a: Seq<SStmt>, b: Seq<SStmt>, j: int, fuel: nat, orc: Seq<Outcome<N>>)
    requires
        0 <= j,
    ensures
        spec_block(m, a + b, a.len() + j, fuel, orc) == spec_block(m, b, j, fuel, orc),
{
    lemma_block_shift(m, a, b, j, fuel, orc);
}

} // verus!
