//! The tree-walking interpreter.
use vstd::prelude::*;
use std::rc::Rc;
use crate::ast::{
    expr_view, exprs_view, lemma_exprs_view_index, lemma_stmts_view_index, names_view, stmt_view, stmts_view, Expr,
    Program, SExpr, SStmt, Stmt,
};
use crate::builtin::dictionary::{lemma_find_key, position_of};
use crate::builtin::{array, dictionary, string};
use crate::context::{path_parent_of, single_component, ContextView, ExecutionContext};
use crate::handles::{lemma_fresh_machine_wf, lemma_run_never_dangles, machine_wf};
use crate::semantics::{
    arith_value, arity, bind_in, builtin_named, compare_value, equality_value, fresh_machine, lemma_eval_list_len,
    lookup_var, render_depth, render_names, spec_apply_builtin, spec_assign, spec_bind_args, spec_block,
    spec_call_closure, spec_define, spec_eval, spec_eval_binary, spec_eval_list, spec_exec, spec_for, spec_lookup,
    spec_owner, spec_render, spec_render_entries, spec_render_items, spec_run, spec_truthy, spec_while, with_env,
    with_heap, MView,
};
use crate::text::str_equal;
use crate::value::{
    closure_view, entries_view, extends, honest_growth, frame_view, lemma_extends_refl, lemma_logged, logged, pieces_view, reply_view,
    values_view, ArithOp, Builtin, Closure, CmpOp, Frame, HView, Heap, Number, Outcome, Piece, RuntimeError,
    RuntimeSignal, SClosure, SFrame, SPiece, SSignal, SValue, Value,
};

verus! {

broadcast use {crate::value::lemma_extends_trans, crate::value::lemma_honest_trans};

/// The running state: the heap, the current scope, and the lines printed so far.
pub struct Machine<N> {
    heap: Heap<N>,
    env: usize,
    output: Vec<Vec<Piece<N>>>,
}

impl<N> View for Machine<N> {
    type V = MView<N>;

    closed spec fn view(&self) -> MView<N> {
        MView {
            heap: self.heap@,
            env: self.env as nat,
            out: Seq::new(self.output@.len(), |i: int| pieces_view(self.output@[i]@)),
        }
    }
}

impl<N: Number> Machine<N> {
    /// The value bound to `name` in the current scope chain.
    fn lookup(&self, name: &String) -> (r: Option<Value<N>>)
        ensures
            match r {
                Some(v) => lookup_var(self@.heap, self@.env, name@) == Some(v@),
                None => lookup_var(self@.heap, self@.env, name@) is None,
            },
    {
        let ghost fs = self@.heap.frames;
        let mut f: usize = self.env;
        let mut steps: usize = self.heap.frames.len();
        loop
            invariant
                fs == self@.heap.frames,
                fs.len() == self.heap.frames@.len(),
                spec_lookup(fs, f as int, name@, steps as nat) == lookup_var(self@.heap, self@.env, name@),
            decreases steps,
        {
            if steps == 0 || f >= self.heap.frames.len() {
                return None;
            }
            proof {
                assert(fs[f as int] == frame_view(self.heap.frames@[f as int]));
            }
            match position_of(&self.heap.frames[f].vars, name) {
                Some(i) => {
                    proof {
                        lemma_find_key(fs[f as int].vars, name@, 0);
                    }
                    return Some(self.heap.frames[f].vars[i].1.duplicate());
                },
                None => {
                    match self.heap.frames[f].parent {
                        Some(p) => {
                            f = p;
                            steps = steps - 1;
                        },
                        None => {
                            return None;
                        },
                    }
                },
            }
        }
    }
}


/// The machine after a step that may fail: on success the new heap, on failure the old machine.
pub open spec fn heap_step<N>(before: MView<N>, after: MView<N>, step: Result<HView<N>, RuntimeError>, r: Result<(), RuntimeError>) -> bool {
    match step {
        Ok(h) => r is Ok && after == with_heap(before, h),
        Err(e) => r == Err::<(), RuntimeError>(e) && after == before,
    }
}

impl<N: Number> Machine<N> {
    /// Binds `name` to `v` in scope `frame`.
    fn define(&mut self, frame: usize, name: String, v: Value<N>) -> (r: Result<(), RuntimeError>)
        ensures
            heap_step(old(self)@, final(self)@, spec_define(old(self)@.heap, frame as nat, name@, v@), r),
    {
        if frame >= self.heap.frames.len() {
            return Err(RuntimeError::Dangling);
        }
        let ghost m0 = self@;
        let ghost old_vars = m0.heap.frames[frame as int].vars;
        let ghost nv = v@;
        proof {
            assert(m0.heap.frames[frame as int] == frame_view(self.heap.frames@[frame as int]));
        }
        let found = position_of(&self.heap.frames[frame].vars, &name);
        match found {
            Some(i) => {
                proof {
                    lemma_find_key(old_vars, name@, 0);
                }
                let ghost nm = name@;
                self.heap.frames[frame].vars.set(i, (name, v));
                proof {
                    assert(entries_view(self.heap.frames@[frame as int].vars@) =~= old_vars.update(i as int, (nm, nv)));
                }
            },
            None => {
                let ghost nm = name@;
                self.heap.frames[frame].vars.push((name, v));
                proof {
                    assert(entries_view(self.heap.frames@[frame as int].vars@) =~= old_vars.push((nm, nv)));
                }
            },
        }
        proof {
            let fr = m0.heap.frames[frame as int];
            assert(self@.heap.frames =~= m0.heap.frames.update(
                frame as int,
                SFrame { vars: bind_in(fr.vars, name@, nv), parent: fr.parent },
            ));
            assert(self@.out =~= m0.out);
        }
        Ok(())
    }

    /// The scope, among the current one and those it sits in, that binds `name`.
    fn owner(&self, name: &String) -> (r: Option<usize>)
        ensures
            match r {
                Some(o) => spec_owner(self@.heap.frames, self@.env as int, name@, self@.heap.frames.len()) == Some(o as nat),
                None => spec_owner(self@.heap.frames, self@.env as int, name@, self@.heap.frames.len()) is None,
            },
    {
        let ghost fs = self@.heap.frames;
        let mut f: usize = self.env;
        let mut steps: usize = self.heap.frames.len();
        loop
            invariant
                fs == self@.heap.frames,
                fs.len() == self.heap.frames@.len(),
                spec_owner(fs, f as int, name@, steps as nat) == spec_owner(fs, self@.env as int, name@, fs.len()),
            decreases steps,
        {
            if steps == 0 || f >= self.heap.frames.len() {
                return None;
            }
            proof {
                assert(fs[f as int] == frame_view(self.heap.frames@[f as int]));
            }
            match position_of(&self.heap.frames[f].vars, name) {
                Some(_) => {
                    return Some(f);
                },
                None => {
                    match self.heap.frames[f].parent {
                        Some(p) => {
                            f = p;
                            steps = steps - 1;
                        },
                        None => {
                            return None;
                        },
                    }
                },
            }
        }
    }

    /// Sets `name` to `v` where it is bound, or binds it in the current scope.
    fn assign(&mut self, name: String, v: Value<N>) -> (r: Result<(), RuntimeError>)
        ensures
            heap_step(old(self)@, final(self)@, spec_assign(old(self)@.heap, old(self)@.env, name@, v@), r),
    {
        match self.owner(&name) {
            Some(o) => self.define(o, name, v),
            None => {
                let env = self.env;
                self.define(env, name, v)
            },
        }
    }

    /// Whether a value counts as true.
    fn truthy(&mut self, v: &Value<N>) -> (r: bool)
        ensures
            extends(final(self)@.heap.log, old(self)@.heap.log),
            honest_growth(old(self)@.heap.log, final(self)@.heap.log),
            final(self)@.env == old(self)@.env,
            final(self)@.out == old(self)@.out,
            forall|orc: Seq<Outcome<N>>|
                extends(orc, final(self)@.heap.log) ==> #[trigger] spec_truthy(old(self)@.heap, v@, orc) == (
                    final(self)@.heap,
                    r,
                ),
    {
        let ghost m0 = self@;
        match v {
            Value::Boolean(b) => {
                proof {
                    lemma_extends_refl(m0.heap.log);
                }
                *b
            },
            Value::Number(n) => {
                let z = self.heap.zero(*n);
                proof {
                    lemma_logged(m0.heap, Outcome::Zero(*n, z));
                }
                !z
            },
            Value::Null => {
                proof {
                    lemma_extends_refl(m0.heap.log);
                }
                false
            },
            Value::String(s) => {
                proof {
                    lemma_extends_refl(m0.heap.log);
                }
                !s.as_str().is_empty()
            },
            Value::Array(id) => {
                proof {
                    lemma_extends_refl(m0.heap.log);
                }
                !(*id < self.heap.arrays.len() && self.heap.arrays[*id].len() == 0)
            },
            Value::Dictionary(id) => {
                proof {
                    lemma_extends_refl(m0.heap.log);
                }
                !(*id < self.heap.dicts.len() && self.heap.dicts[*id].len() == 0)
            },
            Value::Function(_) => {
                proof {
                    lemma_extends_refl(m0.heap.log);
                }
                true
            },
        }
    }
}


/// The heap may have grown its log, and nothing else of the machine changed.
pub open spec fn only_heap_changed<N: Number>(before: MView<N>, after: MView<N>) -> bool {
    &&& extends(after.heap.log, before.heap.log)
    &&& honest_growth(before.heap.log, after.heap.log)
    &&& after.env == before.env
    &&& after.out == before.out
}

fn equality_reply<N>(op: &str, same: bool) -> (r: Value<N>)
    ensures
        r@ == equality_value::<N>(op@, same),
{
    if str_equal(op, "==") {
        Value::Boolean(same)
    } else if str_equal(op, "!=") {
        Value::Boolean(!same)
    } else {
        Value::Null
    }
}

impl<N: Number> Machine<N> {
    fn arith_reply(&mut self, op: ArithOp, a: N, b: N) -> (r: Result<Value<N>, RuntimeError>)
        ensures
            only_heap_changed(old(self)@, final(self)@),
            forall|orc: Seq<Outcome<N>>|
                extends(orc, final(self)@.heap.log) ==> #[trigger] arith_value(old(self)@.heap, op, a, b, orc) == (
                    final(self)@.heap,
                    reply_view(r),
                ),
    {
        let ghost m0 = self@;
        let n = self.heap.arith(op, a, b);
        proof {
            lemma_logged(m0.heap, Outcome::Arith(op, a, b, n));
        }
        Ok(Value::Number(n))
    }

    fn compare_reply(&mut self, op: CmpOp, a: N, b: N, negate: bool) -> (r: Result<Value<N>, RuntimeError>)
        ensures
            only_heap_changed(old(self)@, final(self)@),
            forall|orc: Seq<Outcome<N>>|
                extends(orc, final(self)@.heap.log) ==> #[trigger] compare_value(old(self)@.heap, op, a, b, negate, orc) == (
                    final(self)@.heap,
                    reply_view(r),
                ),
    {
        let ghost m0 = self@;
        let f = self.heap.compare(op, a, b);
        proof {
            lemma_logged(m0.heap, Outcome::Compare(op, a, b, f));
        }
        Ok(Value::Boolean(if negate { !f } else { f }))
    }

    /// A binary operator applied to two values.
    fn eval_binary(&mut self, left: Value<N>, operator: &String, right: Value<N>) -> (r: Result<Value<N>, RuntimeError>)
        ensures
            only_heap_changed(old(self)@, final(self)@),
            forall|orc: Seq<Outcome<N>>|
                extends(orc, final(self)@.heap.log) ==> #[trigger] spec_eval_binary(old(self)@.heap, left@, operator@, right@, orc) == (
                    final(self)@.heap,
                    reply_view(r),
                ),
    {
        let ghost m0 = self@;
        let op = operator.as_str();
        proof {
            lemma_extends_refl(m0.heap.log);
        }
        if str_equal(op, "&&") {
            return match (&left, &right) {
                (Value::Boolean(a), Value::Boolean(b)) => Ok(Value::Boolean(*a && *b)),
                _ => Err(RuntimeError::LogicalOperands { and: true }),
            };
        }
        if str_equal(op, "||") {
            return match (&left, &right) {
                (Value::Boolean(a), Value::Boolean(b)) => Ok(Value::Boolean(*a || *b)),
                _ => Err(RuntimeError::LogicalOperands { and: false }),
            };
        }
        match (&left, &right) {
            (Value::Number(a), Value::Number(b)) => {
                if str_equal(op, "+") {
                    self.arith_reply(ArithOp::Plus, *a, *b)
                } else if str_equal(op, "-") {
                    self.arith_reply(ArithOp::Minus, *a, *b)
                } else if str_equal(op, "*") {
                    self.arith_reply(ArithOp::Times, *a, *b)
                } else if str_equal(op, "/") {
                    self.arith_reply(ArithOp::Divide, *a, *b)
                } else if str_equal(op, "%") {
                    self.arith_reply(ArithOp::Remainder, *a, *b)
                } else if str_equal(op, "==") {
                    self.compare_reply(CmpOp::Equal, *a, *b, false)
                } else if str_equal(op, "!=") {
                    self.compare_reply(CmpOp::Equal, *a, *b, true)
                } else if str_equal(op, "<") {
                    self.compare_reply(CmpOp::Less, *a, *b, false)
                } else if str_equal(op, "<=") {
                    self.compare_reply(CmpOp::AtMost, *a, *b, false)
                } else if str_equal(op, ">") {
                    self.compare_reply(CmpOp::Greater, *a, *b, false)
                } else if str_equal(op, ">=") {
                    self.compare_reply(CmpOp::AtLeast, *a, *b, false)
                } else {
                    Ok(Value::Null)
                }
            },
            (Value::Boolean(a), Value::Boolean(b)) => Ok(equality_reply(op, *a == *b)),
            (Value::String(a), Value::String(b)) => Ok(equality_reply(op, *a == *b)),
            (Value::Null, Value::Null) => Ok(equality_reply(op, true)),
            _ => Ok(Value::Null),
        }
    }
}


/// `out` grew by the printed pieces, or the printing failed.
pub open spec fn rendered<N>(spec: Result<Seq<SPiece<N>>, RuntimeError>, before: Seq<Piece<N>>, after: Seq<Piece<N>>, r: Result<(), RuntimeError>) -> bool {
    match spec {
        Ok(p) => r is Ok && pieces_view(after) == pieces_view(before) + p,
        Err(e) => r == Err::<(), RuntimeError>(e),
    }
}

fn push_text<N>(out: &mut Vec<Piece<N>>, text: &str)
    ensures
        pieces_view(final(out)@) == pieces_view(old(out)@).push(SPiece::Text(text@)),
{
    out.push(Piece::Text(String::from_str(text)));
    assert(pieces_view(out@) =~= pieces_view(old(out)@).push(SPiece::Text(text@)));
}

fn push_piece<N>(out: &mut Vec<Piece<N>>, p: Piece<N>)
    ensures
        pieces_view(final(out)@) == pieces_view(old(out)@).push(p@),
{
    let ghost pv = p@;
    out.push(p);
    assert(pieces_view(out@) =~= pieces_view(old(out)@).push(pv));
}

impl<N: Number> Machine<N> {
    /// Appends the printed form of `v` to `out`.
    fn render(&self, v: &Value<N>, depth: usize, out: &mut Vec<Piece<N>>) -> (r: Result<(), RuntimeError>)
        ensures
            rendered(spec_render(self@.heap, v@, depth as nat), old(out)@, final(out)@, r),
        decreases depth, 0nat,
    {
        let ghost before = pieces_view(out@);
        match v {
            Value::Number(n) => {
                push_text(out, "Number(");
                push_piece(out, Piece::Number(*n));
                push_text(out, ")");
                assert(pieces_view(out@) =~= before + seq![SPiece::Text("Number("@), SPiece::Number(*n), SPiece::Text(")"@)]);
                Ok(())
            },
            Value::String(text) => {
                push_text(out, "String(");
                push_piece(out, Piece::Quoted(text.clone()));
                push_text(out, ")");
                assert(pieces_view(out@) =~= before + seq![SPiece::Text("String("@), SPiece::Quoted(text@), SPiece::Text(")"@)]);
                Ok(())
            },
            Value::Boolean(b) => {
                if *b {
                    push_text(out, "Boolean(true)");
                } else {
                    push_text(out, "Boolean(false)");
                }
                assert(pieces_view(out@) =~= before + seq![SPiece::Text(if *b { "Boolean(true)"@ } else { "Boolean(false)"@ })]);
                Ok(())
            },
            Value::Null => {
                push_text(out, "Null");
                assert(pieces_view(out@) =~= before + seq![SPiece::<N>::Text("Null"@)]);
                Ok(())
            },
            Value::Array(id) => {
                if *id >= self.heap.arrays.len() {
                    return Err(RuntimeError::Dangling);
                }
                if depth == 0 {
                    return Err(RuntimeError::CyclicValue);
                }
                push_text(out, "Array(RefCell { value: [");
                let ghost mid = pieces_view(out@);
                self.render_items(*id, 0, depth - 1, out)?;
                let ghost inner = pieces_view(out@).subrange(mid.len() as int, pieces_view(out@).len() as int);
                push_text(out, "] })");
                proof {
                    let spec_inner = spec_render_items(self@.heap, self@.heap.arrays[*id as int], 0, (depth - 1) as nat);
                    assert(spec_inner == Ok::<Seq<SPiece<N>>, RuntimeError>(inner)) by {
                        assert(inner =~= spec_inner->Ok_0);
                    }
                    assert(pieces_view(out@) =~= before + (seq![SPiece::Text("Array(RefCell { value: ["@)] + inner + seq![SPiece::Text("] })"@)]));
                }
                Ok(())
            },
            Value::Dictionary(id) => {
                if *id >= self.heap.dicts.len() {
                    return Err(RuntimeError::Dangling);
                }
                if depth == 0 {
                    return Err(RuntimeError::CyclicValue);
                }
                push_text(out, "Dictionary(RefCell { value: {");
                let ghost mid = pieces_view(out@);
                self.render_entries(*id, 0, depth - 1, out)?;
                let ghost inner = pieces_view(out@).subrange(mid.len() as int, pieces_view(out@).len() as int);
                push_text(out, "} })");
                proof {
                    let spec_inner = spec_render_entries(self@.heap, self@.heap.dicts[*id as int], 0, (depth - 1) as nat);
                    assert(spec_inner == Ok::<Seq<SPiece<N>>, RuntimeError>(inner)) by {
                        assert(inner =~= spec_inner->Ok_0);
                    }
                    assert(pieces_view(out@) =~= before + (seq![SPiece::Text("Dictionary(RefCell { value: {"@)] + inner + seq![SPiece::Text("} })"@)]));
                }
                Ok(())
            },
            Value::Function(id) => {
                if *id >= self.heap.closures.len() {
                    return Err(RuntimeError::Dangling);
                }
                push_text(out, "Function { params: [");
                let ghost mid = pieces_view(out@);
                render_names_into(&self.heap.closures[*id].params, 0, out);
                let ghost inner = pieces_view(out@).subrange(mid.len() as int, pieces_view(out@).len() as int);
                push_text(out, "], .. }");
                proof {
                    let spec_inner = render_names::<N>(self@.heap.closures[*id as int].params, 0);
                    assert(inner =~= spec_inner);
                    assert(pieces_view(out@) =~= before + (seq![SPiece::Text("Function { params: ["@)] + inner + seq![SPiece::Text("], .. }"@)]));
                }
                Ok(())
            },
        }
    }

    /// Appends the printed forms of the elements of array `id` from position `i` on.
    fn render_items(&self, id: usize, i: usize, depth: usize, out: &mut Vec<Piece<N>>) -> (r: Result<(), RuntimeError>)
        requires
            id < self@.heap.arrays.len(),
        ensures
            rendered(spec_render_items(self@.heap, self@.heap.arrays[id as int], i as int, depth as nat), old(out)@, final(out)@, r),
        decreases depth, self@.heap.arrays[id as int].len() - i + 1,
    {
        let ghost items = self@.heap.arrays[id as int];
        let ghost before = pieces_view(out@);
        proof {
            assert(self.heap.arrays@.len() == self@.heap.arrays.len());
        }
        if i >= self.heap.arrays[id].len() {
            assert(pieces_view(out@) =~= before + Seq::<SPiece<N>>::empty());
            return Ok(());
        }
        if i > 0 {
            push_text(out, ", ");
        }
        let ghost after_sep = pieces_view(out@);
        self.render(&self.heap.arrays[id][i], depth, out)?;
        let ghost after_first = pieces_view(out@);
        self.render_items(id, i + 1, depth, out)?;
        proof {
            let first = spec_render(self@.heap, items[i as int], depth as nat)->Ok_0;
            let rest = spec_render_items(self@.heap, items, i + 1, depth as nat)->Ok_0;
            let sep: Seq<SPiece<N>> = if i > 0 { seq![SPiece::Text(", "@)] } else { Seq::empty() };
            assert(after_sep =~= before + sep);
            assert(pieces_view(out@) =~= before + (sep + first + rest));
        }
        Ok(())
    }

    /// Appends the printed forms of the entries of dictionary `id` from position `i` on.
    fn render_entries(&self, id: usize, i: usize, depth: usize, out: &mut Vec<Piece<N>>) -> (r: Result<(), RuntimeError>)
        requires
            id < self@.heap.dicts.len(),
        ensures
            rendered(spec_render_entries(self@.heap, self@.heap.dicts[id as int], i as int, depth as nat), old(out)@, final(out)@, r),
        decreases depth, self@.heap.dicts[id as int].len() - i + 1,
    {
        let ghost es = self@.heap.dicts[id as int];
        let ghost before = pieces_view(out@);
        proof {
            assert(self.heap.dicts@.len() == self@.heap.dicts.len());
        }
        if i >= self.heap.dicts[id].len() {
            assert(pieces_view(out@) =~= before + Seq::<SPiece<N>>::empty());
            return Ok(());
        }
        if i > 0 {
            push_text(out, ", ");
        }
        let ghost after_sep = pieces_view(out@);
        push_piece(out, Piece::Quoted(self.heap.dicts[id][i].0.clone()));
        push_text(out, ": ");
        let ghost after_key = pieces_view(out@);
        self.render(&self.heap.dicts[id][i].1, depth, out)?;
        self.render_entries(id, i + 1, depth, out)?;
        proof {
            let first = spec_render(self@.heap, es[i as int].1, depth as nat)->Ok_0;
            let rest = spec_render_entries(self@.heap, es, i + 1, depth as nat)->Ok_0;
            let sep: Seq<SPiece<N>> = if i > 0 { seq![SPiece::Text(", "@)] } else { Seq::empty() };
            assert(after_key =~= before + sep + seq![SPiece::Quoted(es[i as int].0), SPiece::Text(": "@)]);
            assert(pieces_view(out@) =~= before + (sep + seq![SPiece::Quoted(es[i as int].0), SPiece::Text(": "@)] + first + rest));
        }
        Ok(())
    }
}

/// Appends parameter names, quoted and separated by commas, from position `i` on.
fn render_names_into<N>(names: &Vec<String>, i: usize, out: &mut Vec<Piece<N>>)
    ensures
        pieces_view(final(out)@) == pieces_view(old(out)@) + render_names::<N>(crate::ast::names_view(names@), i as int),
    decreases names@.len() - i,
{
    let ghost before = pieces_view(out@);
    let ghost ns = crate::ast::names_view(names@);
    if i >= names.len() {
        assert(pieces_view(out@) =~= before + render_names::<N>(ns, i as int));
        return;
    }
    if i > 0 {
        push_text(out, ", ");
    }
    push_piece(out, Piece::Quoted(names[i].clone()));
    let ghost mid = pieces_view(out@);
    render_names_into(names, i + 1, out);
    proof {
        let sep: Seq<SPiece<N>> = if i > 0 { seq![SPiece::Text(", "@)] } else { Seq::empty() };
        assert(mid =~= before + sep + seq![SPiece::Quoted(ns[i as int])]);
        assert(pieces_view(out@) =~= before + render_names::<N>(ns, i as int));
    }
}


/// The interpreter's step agrees with the evaluation function, for every
/// continuation of the answers it recorded.
pub open spec fn eval_agrees<N: Number>(before: MView<N>, e: SExpr, fuel: nat, after: MView<N>, r: Result<SValue<N>, RuntimeError>) -> bool {
    &&& extends(after.heap.log, before.heap.log)
    &&& honest_growth(before.heap.log, after.heap.log)
    &&& after.env == before.env
    &&& forall|orc: Seq<Outcome<N>>| extends(orc, after.heap.log) ==> #[trigger] spec_eval(before, e, fuel, orc) == (after, r)
}

/// The model of the values of a list evaluation.
pub open spec fn list_view<N>(r: Result<Vec<Value<N>>, RuntimeError>) -> Result<Seq<SValue<N>>, RuntimeError> {
    match r {
        Ok(vs) => Ok(values_view(vs@)),
        Err(e) => Err(e),
    }
}

/// The builtin that a name calls, if any.
fn builtin_of(name: &String) -> (r: Option<Builtin>)
    ensures
        r == builtin_named(name@),
{
    let n = name.as_str();
    if str_equal(n, "len") {
        Some(Builtin::Len)
    } else if str_equal(n, "push") {
        Some(Builtin::Push)
    } else if str_equal(n, "pop") {
        Some(Builtin::Pop)
    } else if str_equal(n, "insert") {
        Some(Builtin::Insert)
    } else if str_equal(n, "remove") {
        Some(Builtin::Remove)
    } else if str_equal(n, "clear") {
        Some(Builtin::Clear)
    } else if str_equal(n, "reverse") {
        Some(Builtin::Reverse)
    } else if str_equal(n, "first") {
        Some(Builtin::First)
    } else if str_equal(n, "last") {
        Some(Builtin::Last)
    } else if str_equal(n, "is_empty") {
        Some(Builtin::IsEmpty)
    } else if str_equal(n, "trim") {
        Some(Builtin::Trim)
    } else if str_equal(n, "upper") {
        Some(Builtin::Upper)
    } else if str_equal(n, "lower") {
        Some(Builtin::Lower)
    } else if str_equal(n, "contains") {
        Some(Builtin::Contains)
    } else if str_equal(n, "starts_with") {
        Some(Builtin::StartsWith)
    } else if str_equal(n, "ends_with") {
        Some(Builtin::EndsWith)
    } else if str_equal(n, "replace") {
        Some(Builtin::Replace)
    } else if str_equal(n, "split") {
        Some(Builtin::Split)
    } else if str_equal(n, "keys") {
        Some(Builtin::Keys)
    } else if str_equal(n, "values") {
        Some(Builtin::Values)
    } else if str_equal(n, "has_key") {
        Some(Builtin::HasKey)
    } else if str_equal(n, "remove_key") {
        Some(Builtin::RemoveKey)
    } else {
        None
    }
}

/// How many arguments a builtin takes.
fn arity_of(b: Builtin) -> (r: usize)
    ensures
        r == arity(b),
{
    match b {
        Builtin::Insert | Builtin::Replace => 3,
        Builtin::Push | Builtin::Remove | Builtin::Contains | Builtin::StartsWith | Builtin::EndsWith
        | Builtin::Split | Builtin::HasKey | Builtin::RemoveKey => 2,
        _ => 1,
    }
}

/// `Rc::clone`: another handle on the same function body.
#[verifier::external_body]
fn share_body(b: &Rc<Vec<Stmt>>) -> (r: Rc<Vec<Stmt>>)
    ensures
        *r == **b,
{
    Rc::clone(b)
}

impl<N: Number> Machine<N> {
    /// A builtin applied to the values of its arguments.
    fn apply_builtin(&mut self, b: Builtin, vs: &Vec<Value<N>>) -> (r: Result<Value<N>, RuntimeError>)
        requires
            vs@.len() == arity(b),
        ensures
            only_heap_changed(old(self)@, final(self)@),
            forall|orc: Seq<Outcome<N>>|
                extends(orc, final(self)@.heap.log) ==> #[trigger] spec_apply_builtin(old(self)@.heap, b, values_view(vs@), orc) == (
                    final(self)@.heap,
                    reply_view(r),
                ),
    {
        let ghost m0 = self@;
        let ghost a = values_view(vs@);
        proof {
            lemma_extends_refl(m0.heap.log);
            assert(a[0] == vs@[0]@);
            if vs@.len() > 1 {
                assert(a[1] == vs@[1]@);
            }
            if vs@.len() > 2 {
                assert(a[2] == vs@[2]@);
            }
        }
        match b {
            Builtin::Len => array::len(&mut self.heap, vs[0].duplicate()),
            Builtin::Push => array::push(&mut self.heap, vs[0].duplicate(), vs[1].duplicate()),
            Builtin::Pop => array::pop(&mut self.heap, vs[0].duplicate()),
            Builtin::Insert => array::insert(&mut self.heap, vs[0].duplicate(), vs[1].duplicate(), vs[2].duplicate()),
            Builtin::Remove => array::remove(&mut self.heap, vs[0].duplicate(), vs[1].duplicate()),
            Builtin::Clear => match &vs[0] {
                Value::Array(_) => array::clear(&mut self.heap, vs[0].duplicate()),
                Value::Dictionary(_) => dictionary::clear(&mut self.heap, vs[0].duplicate()),
                _ => Err(RuntimeError::UnsupportedTarget(Builtin::Clear)),
            },
            Builtin::Reverse => array::reverse(&mut self.heap, vs[0].duplicate()),
            Builtin::First => array::first(&self.heap, vs[0].duplicate()),
            Builtin::Last => array::last(&self.heap, vs[0].duplicate()),
            Builtin::IsEmpty => array::is_empty(&self.heap, vs[0].duplicate()),
            Builtin::Trim => string::trim(vs[0].duplicate()),
            Builtin::Upper => string::upper(vs[0].duplicate()),
            Builtin::Lower => string::lower(vs[0].duplicate()),
            Builtin::Contains => match &vs[0] {
                Value::Array(_) => array::contains(&mut self.heap, vs[0].duplicate(), vs[1].duplicate()),
                Value::String(_) => string::contains(vs[0].duplicate(), vs[1].duplicate()),
                _ => Err(RuntimeError::UnsupportedTarget(Builtin::Contains)),
            },
            Builtin::StartsWith => string::starts_with(vs[0].duplicate(), vs[1].duplicate()),
            Builtin::EndsWith => string::ends_with(vs[0].duplicate(), vs[1].duplicate()),
            Builtin::Replace => string::replace(vs[0].duplicate(), vs[1].duplicate(), vs[2].duplicate()),
            Builtin::Split => string::split(&mut self.heap, vs[0].duplicate(), vs[1].duplicate()),
            Builtin::Keys => dictionary::keys(&mut self.heap, vs[0].duplicate()),
            Builtin::Values => dictionary::values(&mut self.heap, vs[0].duplicate()),
            Builtin::HasKey => dictionary::has_key(&self.heap, vs[0].duplicate(), vs[1].duplicate()),
            Builtin::RemoveKey => dictionary::remove(&mut self.heap, vs[0].duplicate(), vs[1].duplicate()),
        }
    }
}


/// The model of how a statement ended.
pub open spec fn signal_view<N>(r: Result<(), RuntimeSignal<N>>) -> Result<(), SSignal<N>> {
    match r {
        Ok(()) => Ok(()),
        Err(sig) => Err(sig@),
    }
}

/// The interpreter's statement step agrees with the execution function.
pub open spec fn exec_agrees<N: Number>(before: MView<N>, s: SStmt, fuel: nat, after: MView<N>, r: Result<(), SSignal<N>>) -> bool {
    &&& extends(after.heap.log, before.heap.log)
    &&& honest_growth(before.heap.log, after.heap.log)
    &&& after.env == before.env
    &&& forall|orc: Seq<Outcome<N>>| extends(orc, after.heap.log) ==> #[trigger] spec_exec(before, s, fuel, orc) == (after, r)
}

/// How deep printed values may nest, within what a `usize` holds.
fn print_depth<N>(h: &Heap<N>) -> (r: usize)
    ensures
        r == render_depth(h@),
{
    match h.arrays.len().checked_add(h.dicts.len()) {
        Some(d) => d,
        None => usize::MAX,
    }
}

impl<N: Number> Machine<N> {
    fn evaluate(&mut self, e: &Expr, fuel: u64) -> (r: Result<Value<N>, RuntimeError>)
        ensures
            eval_agrees(old(self)@, e@, fuel as nat, final(self)@, reply_view(r)),
        decreases fuel, e@, 2nat,
    {
        let ghost m0 = self@;
        proof {
            lemma_extends_refl(m0.heap.log);
        }
        match e {
            Expr::Number(digits) => {
                let n = self.heap.literal(digits.as_str());
                proof {
                    lemma_logged(m0.heap, Outcome::Literal(digits@, n));
                }
                let r = Ok(Value::Number(n));
                assert(eval_agrees(m0, e@, fuel as nat, self@, reply_view(r)));
                r
            },
            Expr::String(text) => {
                let r = Ok(Value::String(text.clone()));
                assert(eval_agrees(m0, e@, fuel as nat, self@, reply_view(r)));
                r
            },
            Expr::Boolean(b) => {
                let r = Ok(Value::Boolean(*b));
                assert(eval_agrees(m0, e@, fuel as nat, self@, reply_view(r)));
                r
            },
            Expr::Null => {
                let r = Ok(Value::Null);
                assert(eval_agrees(m0, e@, fuel as nat, self@, reply_view(r)));
                r
            },
            Expr::Identifier(name) => {
                let r = match self.lookup(name) {
                    Some(v) => Ok(v),
                    None => Ok(Value::Null),
                };
                assert(eval_agrees(m0, e@, fuel as nat, self@, reply_view(r)));
                r
            },
            Expr::Binary { .. } => self.eval_binary_expr(e, fuel),
            Expr::Unary { .. } => self.eval_unary_expr(e, fuel),
            Expr::Array { elements } => {
                assert(decreases_to!(e@ => e@->Array_0));
                let vs = self.eval_list(elements, fuel);
                match vs {
                    Ok(vs) => {
                        let ghost m1 = self@;
                        let ghost vv = values_view(vs@);
                        let id = self.heap.arrays.len();
                        self.heap.arrays.push(vs);
                        proof {
                            assert(self@.heap.arrays =~= m1.heap.arrays.push(vv));
                            assert(self@ == with_heap(m1, HView { arrays: m1.heap.arrays.push(vv), ..m1.heap }));
                        }
                        let r = Ok(Value::Array(id));
                        proof {
                            assert forall|orc: Seq<Outcome<N>>| extends(orc, self@.heap.log) implies #[trigger] spec_eval(m0, e@, fuel as nat, orc) == (self@, reply_view(r)) by {
                                assert(spec_eval_list(m0, exprs_view(elements@), 0, Seq::empty(), fuel as nat, orc) == (m1, Ok::<Seq<SValue<N>>, RuntimeError>(vv)));
                            }
                        }
                        r
                    },
                    Err(err) => {
                        let r = Err(err);
                        proof {
                            assert forall|orc: Seq<Outcome<N>>| extends(orc, self@.heap.log) implies #[trigger] spec_eval(m0, e@, fuel as nat, orc) == (self@, reply_view(r)) by {
                                assert(spec_eval_list(m0, exprs_view(elements@), 0, Seq::empty(), fuel as nat, orc) == (self@, Err::<Seq<SValue<N>>, RuntimeError>(err)));
                            }
                        }
                        r
                    },
                }
            },
            Expr::Index { .. } => self.eval_index_expr(e, fuel),
            Expr::Call { .. } => self.eval_call_expr(e, fuel),
        }
    }

    /// The values of a list of expressions, evaluated in order.
    fn eval_list(&mut self, es: &Vec<Expr>, fuel: u64) -> (r: Result<Vec<Value<N>>, RuntimeError>)
        ensures
            extends(final(self)@.heap.log, old(self)@.heap.log),
            honest_growth(old(self)@.heap.log, final(self)@.heap.log),
            final(self)@.env == old(self)@.env,
            forall|orc: Seq<Outcome<N>>|
                extends(orc, final(self)@.heap.log) ==> #[trigger] spec_eval_list(old(self)@, exprs_view(es@), 0, Seq::empty(), fuel as nat, orc) == (
                    final(self)@,
                    list_view(r),
                ),
        decreases fuel, exprs_view(es@), 1nat,
    {
        let ghost m0 = self@;
        let ghost ev = exprs_view(es@);
        proof {
            lemma_exprs_view_index(es@);
            lemma_extends_refl(m0.heap.log);
            assert(values_view(Seq::<Value<N>>::empty()) =~= Seq::<SValue<N>>::empty());
        }
        let mut acc: Vec<Value<N>> = Vec::new();
        let mut i: usize = 0;
        while i < es.len()
            invariant
                m0 == old(self)@,
                ev == exprs_view(es@),
                ev.len() == es@.len(),
                forall|j: int| 0 <= j < es@.len() ==> #[trigger] ev[j] == expr_view(es@[j]),
                i <= es@.len(),
                extends(self@.heap.log, m0.heap.log),
                honest_growth(m0.heap.log, self@.heap.log),
                self@.env == m0.env,
                forall|orc: Seq<Outcome<N>>|
                    extends(orc, self@.heap.log) ==> #[trigger] spec_eval_list(m0, ev, 0, Seq::empty(), fuel as nat, orc)
                        == spec_eval_list(self@, ev, i as int, values_view(acc@), fuel as nat, orc),
            decreases es@.len() - i,
        {
            proof {
                assert(decreases_to!(ev => ev[i as int]));
            }
            let ghost mb = self@;
            let ghost before = values_view(acc@);
            let v = self.evaluate(&es[i], fuel);
            match v {
                Ok(v) => {
                    let ghost vv = v@;
                    acc.push(v);
                    proof {
                        assert(values_view(acc@) =~= before.push(vv));
                        assert forall|orc: Seq<Outcome<N>>| extends(orc, self@.heap.log) implies #[trigger] spec_eval_list(m0, ev, 0, Seq::empty(), fuel as nat, orc)
                            == spec_eval_list(self@, ev, i + 1, values_view(acc@), fuel as nat, orc) by {
                            assert(spec_eval(mb, ev[i as int], fuel as nat, orc) == (self@, Ok::<SValue<N>, RuntimeError>(vv)));
                            assert(spec_eval_list(mb, ev, i as int, before, fuel as nat, orc) == spec_eval_list(self@, ev, i + 1, before.push(vv), fuel as nat, orc));
                        }
                    }
                },
                Err(err) => {
                    proof {
                        assert forall|orc: Seq<Outcome<N>>| extends(orc, self@.heap.log) implies #[trigger] spec_eval_list(m0, ev, 0, Seq::empty(), fuel as nat, orc)
                            == (self@, Err::<Seq<SValue<N>>, RuntimeError>(err)) by {
                            assert(spec_eval(mb, ev[i as int], fuel as nat, orc) == (self@, Err::<SValue<N>, RuntimeError>(err)));
                            assert(spec_eval_list(mb, ev, i as int, before, fuel as nat, orc) == (self@, Err::<Seq<SValue<N>>, RuntimeError>(err)));
                        }
                    }
                    return Err(err);
                },
            }
            i = i + 1;
        }
        proof {
            assert forall|orc: Seq<Outcome<N>>| extends(orc, self@.heap.log) implies #[trigger] spec_eval_list(m0, ev, 0, Seq::empty(), fuel as nat, orc)
                == (self@, Ok::<Seq<SValue<N>>, RuntimeError>(values_view(acc@))) by {
                assert(spec_eval_list(self@, ev, i as int, values_view(acc@), fuel as nat, orc) == (self@, Ok::<Seq<SValue<N>>, RuntimeError>(values_view(acc@))));
            }
        }
        Ok(acc)
    }

    fn eval_binary_expr(&mut self, e: &Expr, fuel: u64) -> (r: Result<Value<N>, RuntimeError>)
        requires
            e is Binary,
        ensures
            eval_agrees(old(self)@, e@, fuel as nat, final(self)@, reply_view(r)),
        decreases fuel, e@, 1nat,
    {
        match e {
            Expr::Binary { left, operator, right } => {
                let ghost m0 = self@;
                let ghost l = expr_view(**left);
                let ghost rt = expr_view(**right);
                proof {
                    assert(decreases_to!(e@ => e@->Binary_0));
                    assert(decreases_to!(e@ => e@->Binary_2));
                }
                let lv = match self.evaluate(left, fuel) {
                    Ok(v) => v,
                    Err(err) => {
                        proof {
                            assert forall|orc: Seq<Outcome<N>>| extends(orc, self@.heap.log) implies #[trigger] spec_eval(m0, e@, fuel as nat, orc) == (self@, Err::<SValue<N>, RuntimeError>(err)) by {
                                assert(spec_eval(m0, l, fuel as nat, orc) == (self@, Err::<SValue<N>, RuntimeError>(err)));
                            }
                        }
                        return Err(err);
                    },
                };
                let ghost m1 = self@;
                let ghost lvv = lv@;
                let op = operator.as_str();
                let logical_and = str_equal(op, "&&");
                let logical_or = str_equal(op, "||");
                if logical_and || logical_or {
                    let short = match lv {
                        Value::Boolean(b) => b != logical_and,
                        _ => {
                            let r = Err(RuntimeError::LogicalOperands { and: logical_and });
                            proof {
                                assert forall|orc: Seq<Outcome<N>>| extends(orc, self@.heap.log) implies #[trigger] spec_eval(m0, e@, fuel as nat, orc) == (self@, reply_view(r)) by {
                                    assert(spec_eval(m0, l, fuel as nat, orc) == (m1, Ok::<SValue<N>, RuntimeError>(lvv)));
                                }
                            }
                            return r;
                        },
                    };
                    if short {
                        let r = Ok(Value::Boolean(!logical_and));
                        proof {
                            assert forall|orc: Seq<Outcome<N>>| extends(orc, self@.heap.log) implies #[trigger] spec_eval(m0, e@, fuel as nat, orc) == (self@, reply_view(r)) by {
                                assert(spec_eval(m0, l, fuel as nat, orc) == (m1, Ok::<SValue<N>, RuntimeError>(lvv)));
                            }
                        }
                        return r;
                    }
                    let rv = self.evaluate(right, fuel);
                    let r = match rv {
                        Ok(Value::Boolean(v)) => Ok(Value::Boolean(v)),
                        Ok(_) => Err(RuntimeError::LogicalOperands { and: logical_and }),
                        Err(err) => Err(err),
                    };
                    proof {
                        assert forall|orc: Seq<Outcome<N>>| extends(orc, self@.heap.log) implies #[trigger] spec_eval(m0, e@, fuel as nat, orc) == (self@, reply_view(r)) by {
                            assert(spec_eval(m0, l, fuel as nat, orc) == (m1, Ok::<SValue<N>, RuntimeError>(lvv)));
                            assert(spec_eval(m1, rt, fuel as nat, orc) == (self@, reply_view(rv)));
                        }
                    }
                    return r;
                }
                let rv = match self.evaluate(right, fuel) {
                    Ok(v) => v,
                    Err(err) => {
                        proof {
                            assert forall|orc: Seq<Outcome<N>>| extends(orc, self@.heap.log) implies #[trigger] spec_eval(m0, e@, fuel as nat, orc) == (self@, Err::<SValue<N>, RuntimeError>(err)) by {
                                assert(spec_eval(m0, l, fuel as nat, orc) == (m1, Ok::<SValue<N>, RuntimeError>(lvv)));
                                assert(spec_eval(m1, rt, fuel as nat, orc) == (self@, Err::<SValue<N>, RuntimeError>(err)));
                            }
                        }
                        return Err(err);
                    },
                };
                let ghost m2 = self@;
                let ghost rvv = rv@;
                let r = self.eval_binary(lv, operator, rv);
                proof {
                    assert forall|orc: Seq<Outcome<N>>| extends(orc, self@.heap.log) implies #[trigger] spec_eval(m0, e@, fuel as nat, orc) == (self@, reply_view(r)) by {
                        assert(spec_eval(m0, l, fuel as nat, orc) == (m1, Ok::<SValue<N>, RuntimeError>(lvv)));
                        assert(spec_eval(m1, rt, fuel as nat, orc) == (m2, Ok::<SValue<N>, RuntimeError>(rvv)));
                        assert(spec_eval_binary(m2.heap, lvv, operator@, rvv, orc) == (self@.heap, reply_view(r)));
                        assert(self@ == with_heap(m2, self@.heap));
                    }
                }
                r
            },
            // The precondition rules out every other kind of node.
            _ => Err(RuntimeError::Dangling),
        }
    }

    fn eval_unary_expr(&mut self, e: &Expr, fuel: u64) -> (r: Result<Value<N>, RuntimeError>)
        requires
            e is Unary,
        ensures
            eval_agrees(old(self)@, e@, fuel as nat, final(self)@, reply_view(r)),
        decreases fuel, e@, 1nat,
    {
        match e {
            Expr::Unary { operator, right } => {
                let ghost m0 = self@;
                let ghost rt = expr_view(**right);
                proof {
                    assert(decreases_to!(e@ => e@->Unary_1));
                }
                let v = match self.evaluate(right, fuel) {
                    Ok(v) => v,
                    Err(err) => {
                        proof {
                            assert forall|orc: Seq<Outcome<N>>| extends(orc, self@.heap.log) implies #[trigger] spec_eval(m0, e@, fuel as nat, orc) == (self@, Err::<SValue<N>, RuntimeError>(err)) by {
                                assert(spec_eval(m0, rt, fuel as nat, orc) == (self@, Err::<SValue<N>, RuntimeError>(err)));
                            }
                        }
                        return Err(err);
                    },
                };
                let ghost m1 = self@;
                let ghost vv = v@;
                proof {
                    lemma_extends_refl(m1.heap.log);
                }
                let op = operator.as_str();
                let r = if str_equal(op, "+") {
                    match v {
                        Value::Number(n) => Ok(Value::Number(n)),
                        _ => Err(RuntimeError::UnaryOperand { minus: false }),
                    }
                } else if str_equal(op, "-") {
                    match v {
                        Value::Number(n) => {
                            let r = self.heap.negate(n);
                            proof {
                                lemma_logged(m1.heap, Outcome::Negate(n, r));
                                assert(self@ == with_heap(m1, logged(m1.heap, Outcome::Negate(n, r))));
                            }
                            Ok(Value::Number(r))
                        },
                        _ => Err(RuntimeError::UnaryOperand { minus: true }),
                    }
                } else if str_equal(op, "!") {
                    let t = self.truthy(&v);
                    proof {
                        assert(self@ == with_heap(m1, self@.heap));
                    }
                    Ok(Value::Boolean(!t))
                } else {
                    Err(RuntimeError::UnknownUnary)
                };
                proof {
                    assert forall|orc: Seq<Outcome<N>>| extends(orc, self@.heap.log) implies #[trigger] spec_eval(m0, e@, fuel as nat, orc) == (self@, reply_view(r)) by {
                        assert(spec_eval(m0, rt, fuel as nat, orc) == (m1, Ok::<SValue<N>, RuntimeError>(vv)));
                        assert(spec_truthy(m1.heap, vv, orc) == spec_truthy(m1.heap, vv, orc));
                    }
                }
                r
            },
            // The precondition rules out every other kind of node.
            _ => Err(RuntimeError::Dangling),
        }
    }

    fn eval_index_expr(&mut self, e: &Expr, fuel: u64) -> (r: Result<Value<N>, RuntimeError>)
        requires
            e is Index,
        ensures
            eval_agrees(old(self)@, e@, fuel as nat, final(self)@, reply_view(r)),
        decreases fuel, e@, 1nat,
    {
        match e {
            Expr::Index { object, index } => {
                let ghost m0 = self@;
                let ghost ot = expr_view(**object);
                let ghost it = expr_view(**index);
                proof {
                    assert(decreases_to!(e@ => e@->Index_0));
                    assert(decreases_to!(e@ => e@->Index_1));
                }
                let o = match self.evaluate(object, fuel) {
                    Ok(v) => v,
                    Err(err) => {
                        proof {
                            assert forall|orc: Seq<Outcome<N>>| extends(orc, self@.heap.log) implies #[trigger] spec_eval(m0, e@, fuel as nat, orc) == (self@, Err::<SValue<N>, RuntimeError>(err)) by {
                                assert(spec_eval(m0, ot, fuel as nat, orc) == (self@, Err::<SValue<N>, RuntimeError>(err)));
                            }
                        }
                        return Err(err);
                    },
                };
                let ghost m1 = self@;
                let ghost ov = o@;
                let i = match self.evaluate(index, fuel) {
                    Ok(v) => v,
                    Err(err) => {
                        proof {
                            assert forall|orc: Seq<Outcome<N>>| extends(orc, self@.heap.log) implies #[trigger] spec_eval(m0, e@, fuel as nat, orc) == (self@, Err::<SValue<N>, RuntimeError>(err)) by {
                                assert(spec_eval(m0, ot, fuel as nat, orc) == (m1, Ok::<SValue<N>, RuntimeError>(ov)));
                                assert(spec_eval(m1, it, fuel as nat, orc) == (self@, Err::<SValue<N>, RuntimeError>(err)));
                            }
                        }
                        return Err(err);
                    },
                };
                let ghost m2 = self@;
                let ghost iv = i@;
                proof {
                    lemma_extends_refl(m2.heap.log);
                }
                let r = match (&o, &i) {
                    (Value::Array(id), Value::Number(n)) => {
                        let k = self.heap.index(*n);
                        proof {
                            lemma_logged(m2.heap, Outcome::Index(*n, k));
                            assert(self@ == with_heap(m2, logged(m2.heap, Outcome::Index(*n, k))));
                            assert(self.heap.arrays@.len() == self@.heap.arrays.len());
                        }
                        if *id < self.heap.arrays.len() {
                            proof {
                                assert(self@.heap.arrays[*id as int] == values_view(self.heap.arrays@[*id as int]@));
                            }
                            if k < self.heap.arrays[*id].len() {
                                Ok(self.heap.arrays[*id][k].duplicate())
                            } else {
                                Ok(Value::Null)
                            }
                        } else {
                            Err(RuntimeError::Dangling)
                        }
                    },
                    (Value::Dictionary(id), Value::String(key)) => {
                        if *id < self.heap.dicts.len() {
                            proof {
                                assert(self@.heap.dicts[*id as int] == entries_view(self.heap.dicts@[*id as int]@));
                            }
                            match position_of(&self.heap.dicts[*id], key) {
                                Some(j) => {
                                    proof {
                                        lemma_find_key(m2.heap.dicts[*id as int], key@, 0);
                                    }
                                    Ok(self.heap.dicts[*id][j].1.duplicate())
                                },
                                None => Ok(Value::Null),
                            }
                        } else {
                            Err(RuntimeError::Dangling)
                        }
                    },
                    _ => Err(RuntimeError::NotIndexable),
                };
                proof {
                    assert forall|orc: Seq<Outcome<N>>| extends(orc, self@.heap.log) implies #[trigger] spec_eval(m0, e@, fuel as nat, orc) == (self@, reply_view(r)) by {
                        assert(spec_eval(m0, ot, fuel as nat, orc) == (m1, Ok::<SValue<N>, RuntimeError>(ov)));
                        assert(spec_eval(m1, it, fuel as nat, orc) == (m2, Ok::<SValue<N>, RuntimeError>(iv)));
                    }
                }
                r
            },
            // The precondition rules out every other kind of node.
            _ => Err(RuntimeError::Dangling),
        }
    }

    #[verifier::rlimit(50)]
    fn eval_call_expr(&mut self, e: &Expr, fuel: u64) -> (r: Result<Value<N>, RuntimeError>)
        requires
            e is Call,
        ensures
            eval_agrees(old(self)@, e@, fuel as nat, final(self)@, reply_view(r)),
        decreases fuel, e@, 1nat,
    {
        match e {
            Expr::Call { callee, arguments } => {
                let ghost m0 = self@;
                let ghost ct = expr_view(**callee);
                let ghost av = exprs_view(arguments@);
                proof {
                    lemma_exprs_view_index(arguments@);
                    lemma_extends_refl(m0.heap.log);
                    assert(decreases_to!(e@ => e@->Call_0));
                    assert(decreases_to!(e@ => e@->Call_1));
                }
                let builtin = match &**callee {
                    Expr::Identifier(name) => builtin_of(name),
                    _ => None,
                };
                match builtin {
                    Some(b) => {
                        if arguments.len() != arity_of(b) {
                            let r = Err(RuntimeError::WrongArgumentCount(b));
                            proof {
                                assert forall|orc: Seq<Outcome<N>>| extends(orc, self@.heap.log) implies #[trigger] spec_eval(m0, e@, fuel as nat, orc) == (self@, reply_view(r)) by {
                                    assert(av.len() == arguments@.len());
                                }
                            }
                            return r;
                        }
                        proof {
                            assert(av.len() == arguments@.len());
                        }
                        let vs = match self.eval_list(arguments, fuel) {
                            Ok(vs) => vs,
                            Err(err) => {
                                proof {
                                    assert forall|orc: Seq<Outcome<N>>| extends(orc, self@.heap.log) implies #[trigger] spec_eval(m0, e@, fuel as nat, orc) == (self@, Err::<SValue<N>, RuntimeError>(err)) by {
                                        assert(spec_eval_list(m0, av, 0, Seq::empty(), fuel as nat, orc) == (self@, Err::<Seq<SValue<N>>, RuntimeError>(err)));
                                    }
                                }
                                return Err(err);
                            },
                        };
                        let ghost m1 = self@;
                        let ghost vv = values_view(vs@);
                        proof {
                            assert(vs@.len() == arity(b)) by {
                                assert(forall|orc: Seq<Outcome<N>>| extends(orc, self@.heap.log) ==> #[trigger] spec_eval_list(m0, av, 0, Seq::empty(), fuel as nat, orc) == (m1, Ok::<Seq<SValue<N>>, RuntimeError>(vv)));
                                lemma_extends_refl(m1.heap.log);
                                lemma_eval_list_len(m0, av, 0, Seq::empty(), fuel as nat, m1.heap.log);
                            }
                        }
                        let r = self.apply_builtin(b, &vs);
                        proof {
                            assert forall|orc: Seq<Outcome<N>>| extends(orc, self@.heap.log) implies #[trigger] spec_eval(m0, e@, fuel as nat, orc) == (self@, reply_view(r)) by {
                                assert(spec_eval_list(m0, av, 0, Seq::empty(), fuel as nat, orc) == (m1, Ok::<Seq<SValue<N>>, RuntimeError>(vv)));
                                assert(spec_apply_builtin(m1.heap, b, vv, orc) == (self@.heap, reply_view(r)));
                                assert(self@ == with_heap(m1, self@.heap));
                            }
                        }
                        r
                    },
                    None => {
                        let f = match self.evaluate(callee, fuel) {
                            Ok(v) => v,
                            Err(err) => {
                                proof {
                                    assert forall|orc: Seq<Outcome<N>>| extends(orc, self@.heap.log) implies #[trigger] spec_eval(m0, e@, fuel as nat, orc) == (self@, Err::<SValue<N>, RuntimeError>(err)) by {
                                        assert(spec_eval(m0, ct, fuel as nat, orc) == (self@, Err::<SValue<N>, RuntimeError>(err)));
                                    }
                                }
                                return Err(err);
                            },
                        };
                        let ghost m1 = self@;
                        let ghost fv = f@;
                        match f {
                            Value::Function(id) => {
                                let r = self.call_function(arguments, id, fuel);
                                proof {
                                    assert forall|orc: Seq<Outcome<N>>| extends(orc, self@.heap.log) implies #[trigger] spec_eval(m0, e@, fuel as nat, orc) == (self@, reply_view(r)) by {
                                        assert(spec_eval(m0, ct, fuel as nat, orc) == (m1, Ok::<SValue<N>, RuntimeError>(fv)));
                                        assert(spec_call_closure(m1, id as nat, av, fuel as nat, orc) == (self@, reply_view(r)));
                                    }
                                }
                                r
                            },
                            _ => {
                                let r = Err(RuntimeError::NotCallable);
                                proof {
                                    lemma_extends_refl(m1.heap.log);
                                    assert forall|orc: Seq<Outcome<N>>| extends(orc, self@.heap.log) implies #[trigger] spec_eval(m0, e@, fuel as nat, orc) == (self@, reply_view(r)) by {
                                        assert(spec_eval(m0, ct, fuel as nat, orc) == (m1, Ok::<SValue<N>, RuntimeError>(fv)));
                                    }
                                }
                                r
                            },
                        }
                    },
                }
            },
            // The precondition rules out every other kind of node.
            _ => Err(RuntimeError::Dangling),
        }
    }
}



impl<N: Number> Machine<N> {
    /// Calls the function with handle `id` on `args`.
    fn call_function(&mut self, args: &Vec<Expr>, id: usize, fuel: u64) -> (r: Result<Value<N>, RuntimeError>)
        ensures
            extends(final(self)@.heap.log, old(self)@.heap.log),
            honest_growth(old(self)@.heap.log, final(self)@.heap.log),
            final(self)@.env == old(self)@.env,
            forall|orc: Seq<Outcome<N>>|
                extends(orc, final(self)@.heap.log) ==> #[trigger] spec_call_closure(old(self)@, id as nat, exprs_view(args@), fuel as nat, orc) == (
                    final(self)@,
                    reply_view(r),
                ),
        decreases fuel, exprs_view(args@), 3nat,
    {
        let ghost m0 = self@;
        proof {
            lemma_extends_refl(m0.heap.log);
            lemma_exprs_view_index(args@);
        }
        if id >= self.heap.closures.len() {
            let r = Err(RuntimeError::Dangling);
            proof {
                assert forall|orc: Seq<Outcome<N>>| extends(orc, self@.heap.log) implies #[trigger] spec_call_closure(m0, id as nat, exprs_view(args@), fuel as nat, orc) == (self@, reply_view(r)) by {}
            }
            return r;
        }
        proof {
            assert(m0.heap.closures[id as int] == closure_view(self.heap.closures@[id as int]));
        }
        let nparams = self.heap.closures[id].params.len();
        if nparams != args.len() {
            let r = Err(RuntimeError::ArgumentCount { expected: nparams, got: args.len() });
            proof {
                assert forall|orc: Seq<Outcome<N>>| extends(orc, self@.heap.log) implies #[trigger] spec_call_closure(m0, id as nat, exprs_view(args@), fuel as nat, orc) == (self@, reply_view(r)) by {
                    assert(m0.heap.closures[id as int].params.len() == nparams);
                }
            }
            return r;
        }
        if fuel == 0 {
            let r = Err(RuntimeError::StepLimit);
            proof {
                assert forall|orc: Seq<Outcome<N>>| extends(orc, self@.heap.log) implies #[trigger] spec_call_closure(m0, id as nat, exprs_view(args@), fuel as nat, orc) == (self@, reply_view(r)) by {}
            }
            return r;
        }
        let parent = self.heap.closures[id].env;
        let params = crate::ast::clone_names(&self.heap.closures[id].params);
        let body = share_body(&self.heap.closures[id].body);
        let frame = self.heap.frames.len();
        let fresh: Frame<N> = Frame { vars: Vec::new(), parent: Some(parent) };
        proof {
            assert(frame_view(fresh).vars =~= Seq::<(Seq<char>, SValue<N>)>::empty());
        }
        self.heap.frames.push(fresh);
        let ghost m2 = self@;
        proof {
            assert(self@.heap.frames =~= m0.heap.frames.push(SFrame { vars: Seq::empty(), parent: Some(parent as nat) }));
            assert(m2 == with_heap(m0, HView {
                frames: m0.heap.frames.push(SFrame { vars: Seq::empty(), parent: Some(parent as nat) }),
                ..m0.heap
            }));
        }
        let ghost av = exprs_view(args@);
        let ghost c = m0.heap.closures[id as int];
        proof {
            assert(names_view(params@) == c.params);
        }
        let bound = self.bind_args(args, &params, frame, fuel);
        match bound {
            Ok(()) => {},
            Err(err) => {
                proof {
                    assert forall|orc: Seq<Outcome<N>>| extends(orc, self@.heap.log) implies #[trigger] spec_call_closure(m0, id as nat, av, fuel as nat, orc) == (self@, Err::<SValue<N>, RuntimeError>(err)) by {
                        assert(spec_bind_args(m2, av, c.params, frame as nat, 0, fuel as nat, orc) == (self@, Err::<(), RuntimeError>(err)));
                    }
                }
                return Err(err);
            },
        }
        let ghost m3 = self@;
        let inner: u64 = fuel - 1;
        let stmts: &Vec<Stmt> = &body;
        proof {
            assert(stmts_view(stmts@) == c.body);
        }
        let done = self.execute_block(stmts, frame, inner);
        let r = match done {
            Ok(()) => Ok(Value::Null),
            Err(RuntimeSignal::Return(v)) => Ok(v),
            Err(RuntimeSignal::Failure(err)) => Err(err),
            Err(_) => Err(RuntimeError::UnexpectedSignal),
        };
        proof {
            assert(with_env(with_env(self@, frame as nat), m3.env) == self@);
            assert forall|orc: Seq<Outcome<N>>| extends(orc, self@.heap.log) implies #[trigger] spec_call_closure(m0, id as nat, av, fuel as nat, orc) == (self@, reply_view(r)) by {
                assert(spec_bind_args(m2, av, c.params, frame as nat, 0, fuel as nat, orc) == (m3, bound));
                assert(spec_block(with_env(m3, frame as nat), c.body, 0, inner as nat, orc) == (with_env(self@, frame as nat), signal_view(done)));
            }
        }
        r
    }

    /// Evaluates the arguments in the current scope and binds each to its parameter in scope `frame`.
    fn bind_args(&mut self, args: &Vec<Expr>, params: &Vec<String>, frame: usize, fuel: u64) -> (r: Result<(), RuntimeError>)
        requires
            params@.len() == args@.len(),
        ensures
            extends(final(self)@.heap.log, old(self)@.heap.log),
            honest_growth(old(self)@.heap.log, final(self)@.heap.log),
            final(self)@.env == old(self)@.env,
            forall|orc: Seq<Outcome<N>>|
                extends(orc, final(self)@.heap.log) ==> #[trigger] spec_bind_args(old(self)@, exprs_view(args@), crate::ast::names_view(params@), frame as nat, 0, fuel as nat, orc) == (
                    final(self)@,
                    r,
                ),
        decreases fuel, exprs_view(args@), 2nat,
    {
        let ghost m0 = self@;
        let ghost ev = exprs_view(args@);
        let ghost pv = crate::ast::names_view(params@);
        proof {
            lemma_exprs_view_index(args@);
            lemma_extends_refl(m0.heap.log);
        }
        let mut i: usize = 0;
        while i < args.len()
            invariant
                m0 == old(self)@,
                ev == exprs_view(args@),
                pv == crate::ast::names_view(params@),
                ev.len() == args@.len(),
                params@.len() == args@.len(),
                forall|j: int| 0 <= j < args@.len() ==> #[trigger] ev[j] == expr_view(args@[j]),
                i <= args@.len(),
                extends(self@.heap.log, m0.heap.log),
                honest_growth(m0.heap.log, self@.heap.log),
                self@.env == m0.env,
                forall|orc: Seq<Outcome<N>>|
                    extends(orc, self@.heap.log) ==> #[trigger] spec_bind_args(m0, ev, pv, frame as nat, 0, fuel as nat, orc)
                        == spec_bind_args(self@, ev, pv, frame as nat, i as int, fuel as nat, orc),
            decreases args@.len() - i,
        {
            proof {
                assert(decreases_to!(ev => ev[i as int]));
            }
            let ghost mb = self@;
            let v = match self.evaluate(&args[i], fuel) {
                Ok(v) => v,
                Err(err) => {
                    proof {
                        assert forall|orc: Seq<Outcome<N>>| extends(orc, self@.heap.log) implies #[trigger] spec_bind_args(m0, ev, pv, frame as nat, 0, fuel as nat, orc)
                            == (self@, Err::<(), RuntimeError>(err)) by {
                            assert(spec_eval(mb, ev[i as int], fuel as nat, orc) == (self@, Err::<SValue<N>, RuntimeError>(err)));
                            assert(spec_bind_args(mb, ev, pv, frame as nat, i as int, fuel as nat, orc) == (self@, Err::<(), RuntimeError>(err)));
                        }
                    }
                    return Err(err);
                },
            };
            let ghost m1 = self@;
            let ghost vv = v@;
            let name = params[i].clone();
            proof {
                assert(pv[i as int] == params@[i as int]@);
                assert(name@ == pv[i as int]);
            }
            match self.define(frame, name, v) {
                Ok(()) => {
                    proof {
                        assert forall|orc: Seq<Outcome<N>>| extends(orc, self@.heap.log) implies #[trigger] spec_bind_args(m0, ev, pv, frame as nat, 0, fuel as nat, orc)
                            == spec_bind_args(self@, ev, pv, frame as nat, i + 1, fuel as nat, orc) by {
                            assert(spec_eval(mb, ev[i as int], fuel as nat, orc) == (m1, Ok::<SValue<N>, RuntimeError>(vv)));
                            assert(spec_bind_args(mb, ev, pv, frame as nat, i as int, fuel as nat, orc) == spec_bind_args(self@, ev, pv, frame as nat, i + 1, fuel as nat, orc));
                        }
                    }
                },
                Err(err) => {
                    proof {
                        assert forall|orc: Seq<Outcome<N>>| extends(orc, self@.heap.log) implies #[trigger] spec_bind_args(m0, ev, pv, frame as nat, 0, fuel as nat, orc)
                            == (self@, Err::<(), RuntimeError>(err)) by {
                            assert(spec_eval(mb, ev[i as int], fuel as nat, orc) == (m1, Ok::<SValue<N>, RuntimeError>(vv)));
                            assert(spec_bind_args(mb, ev, pv, frame as nat, i as int, fuel as nat, orc) == (self@, Err::<(), RuntimeError>(err)));
                        }
                    }
                    return Err(err);
                },
            }
            i = i + 1;
        }
        proof {
            assert forall|orc: Seq<Outcome<N>>| extends(orc, self@.heap.log) implies #[trigger] spec_bind_args(m0, ev, pv, frame as nat, 0, fuel as nat, orc)
                == (self@, Ok::<(), RuntimeError>(())) by {
                assert(spec_bind_args(self@, ev, pv, frame as nat, i as int, fuel as nat, orc) == (self@, Ok::<(), RuntimeError>(())));
            }
        }
        Ok(())
    }

    /// Runs statements in scope `env`, then returns to the scope it was in.
    fn execute_block(&mut self, statements: &Vec<Stmt>, env: usize, fuel: u64) -> (r: Result<(), RuntimeSignal<N>>)
        ensures
            extends(final(self)@.heap.log, old(self)@.heap.log),
            honest_growth(old(self)@.heap.log, final(self)@.heap.log),
            final(self)@.env == old(self)@.env,
            forall|orc: Seq<Outcome<N>>|
                extends(orc, final(self)@.heap.log) ==> #[trigger] spec_block(with_env(old(self)@, env as nat), stmts_view(statements@), 0, fuel as nat, orc) == (
                    with_env(final(self)@, env as nat),
                    signal_view(r),
                ),
        decreases fuel, stmts_view(statements@), 3nat,
    {
        let previous = self.env;
        self.env = env;
        let r = self.execute_all(statements, fuel);
        proof {
            assert(with_env(self@, env as nat) == self@);
        }
        self.env = previous;
        r
    }

    /// Runs statements in the current scope until one ends early.
    fn execute_all(&mut self, statements: &Vec<Stmt>, fuel: u64) -> (r: Result<(), RuntimeSignal<N>>)
        ensures
            extends(final(self)@.heap.log, old(self)@.heap.log),
            honest_growth(old(self)@.heap.log, final(self)@.heap.log),
            final(self)@.env == old(self)@.env,
            forall|orc: Seq<Outcome<N>>|
                extends(orc, final(self)@.heap.log) ==> #[trigger] spec_block(old(self)@, stmts_view(statements@), 0, fuel as nat, orc) == (
                    final(self)@,
                    signal_view(r),
                ),
        decreases fuel, stmts_view(statements@), 2nat,
    {
        let ghost m0 = self@;
        let ghost sv = stmts_view(statements@);
        proof {
            lemma_stmts_view_index(statements@);
            lemma_extends_refl(m0.heap.log);
        }
        let mut i: usize = 0;
        while i < statements.len()
            invariant
                m0 == old(self)@,
                sv == stmts_view(statements@),
                sv.len() == statements@.len(),
                forall|j: int| 0 <= j < statements@.len() ==> #[trigger] sv[j] == stmt_view(statements@[j]),
                i <= statements@.len(),
                extends(self@.heap.log, m0.heap.log),
                honest_growth(m0.heap.log, self@.heap.log),
                self@.env == m0.env,
                forall|orc: Seq<Outcome<N>>|
                    extends(orc, self@.heap.log) ==> #[trigger] spec_block(m0, sv, 0, fuel as nat, orc)
                        == spec_block(self@, sv, i as int, fuel as nat, orc),
            decreases statements@.len() - i,
        {
            proof {
                assert(decreases_to!(sv => sv[i as int]));
            }
            let ghost mb = self@;
            let r = self.execute(&statements[i], fuel);
            match r {
                Ok(()) => {
                    proof {
                        assert forall|orc: Seq<Outcome<N>>| extends(orc, self@.heap.log) implies #[trigger] spec_block(m0, sv, 0, fuel as nat, orc)
                            == spec_block(self@, sv, i + 1, fuel as nat, orc) by {
                            assert(spec_exec(mb, sv[i as int], fuel as nat, orc) == (self@, Ok::<(), SSignal<N>>(())));
                            assert(spec_block(mb, sv, i as int, fuel as nat, orc) == spec_block(self@, sv, i + 1, fuel as nat, orc));
                        }
                    }
                },
                Err(sig) => {
                    proof {
                        assert forall|orc: Seq<Outcome<N>>| extends(orc, self@.heap.log) implies #[trigger] spec_block(m0, sv, 0, fuel as nat, orc)
                            == (self@, signal_view(r)) by {
                            assert(spec_exec(mb, sv[i as int], fuel as nat, orc) == (self@, signal_view(r)));
                            assert(spec_block(mb, sv, i as int, fuel as nat, orc) == (self@, signal_view(r)));
                        }
                    }
                    return Err(sig);
                },
            }
            i = i + 1;
        }
        proof {
            assert forall|orc: Seq<Outcome<N>>| extends(orc, self@.heap.log) implies #[trigger] spec_block(m0, sv, 0, fuel as nat, orc)
                == (self@, Ok::<(), SSignal<N>>(())) by {
                assert(spec_block(self@, sv, i as int, fuel as nat, orc) == (self@, Ok::<(), SSignal<N>>(())));
            }
        }
        Ok(())
    }

    fn execute(&mut self, stmt: &Stmt, fuel: u64) -> (r: Result<(), RuntimeSignal<N>>)
        ensures
            exec_agrees(old(self)@, stmt@, fuel as nat, final(self)@, signal_view(r)),
        decreases fuel, stmt@, 2nat,
    {
        match stmt {
            Stmt::Let { .. } => self.exec_binding(stmt, fuel),
            Stmt::Assign { .. } => self.exec_binding(stmt, fuel),
            Stmt::Print { .. } => self.exec_print(stmt, fuel),
            Stmt::If { .. } => self.exec_if(stmt, fuel),
            Stmt::While { .. } => {
                let ghost m0 = self@;
                let r = self.run_while(stmt, fuel);
                proof {
                    assert forall|orc: Seq<Outcome<N>>| extends(orc, self@.heap.log) implies #[trigger] spec_exec(m0, stmt@, fuel as nat, orc) == (self@, signal_view(r)) by {
                        assert(spec_while(m0, stmt@, fuel as nat, fuel as nat, orc) == (self@, signal_view(r)));
                    }
                }
                r
            },
            Stmt::For { .. } => self.exec_for(stmt, fuel),
            Stmt::Break => {
                let r = Err(RuntimeSignal::Break);
                proof {
                    lemma_extends_refl(self@.heap.log);
                }
                r
            },
            Stmt::Continue => {
                let r = Err(RuntimeSignal::Continue);
                proof {
                    lemma_extends_refl(self@.heap.log);
                }
                r
            },
            Stmt::Function { .. } => self.exec_function(stmt, fuel),
            Stmt::Return { .. } => self.exec_value(stmt, fuel),
            Stmt::Expression { .. } => self.exec_value(stmt, fuel),
        }
    }

    /// `let` and assignment: evaluate, then bind.
    fn exec_binding(&mut self, stmt: &Stmt, fuel: u64) -> (r: Result<(), RuntimeSignal<N>>)
        requires
            stmt is Let || stmt is Assign,
        ensures
            exec_agrees(old(self)@, stmt@, fuel as nat, final(self)@, signal_view(r)),
        decreases fuel, stmt@, 1nat,
    {
        let ghost m0 = self@;
        proof {
            lemma_extends_refl(m0.heap.log);
        }
        match stmt {
            Stmt::Let { name, value } | Stmt::Assign { name, value } => {
                let ghost vt = expr_view(*value);
                proof {
                    if stmt is Let {
                        assert(decreases_to!(stmt@ => stmt@->Let_1));
                    } else {
                        assert(decreases_to!(stmt@ => stmt@->Assign_1));
                    }
                }
                let v = match self.evaluate(value, fuel) {
                    Ok(v) => v,
                    Err(err) => {
                        let r = Err(RuntimeSignal::Failure(err));
                        proof {
                            assert forall|orc: Seq<Outcome<N>>| extends(orc, self@.heap.log) implies #[trigger] spec_exec(m0, stmt@, fuel as nat, orc) == (self@, signal_view(r)) by {
                                assert(spec_eval(m0, vt, fuel as nat, orc) == (self@, Err::<SValue<N>, RuntimeError>(err)));
                            }
                        }
                        return r;
                    },
                };
                let ghost m1 = self@;
                let ghost vv = v@;
                let done = if let Stmt::Let { .. } = stmt {
                    let env = self.env;
                    self.define(env, name.clone(), v)
                } else {
                    self.assign(name.clone(), v)
                };
                let r = match done {
                    Ok(()) => Ok(()),
                    Err(err) => Err(RuntimeSignal::Failure(err)),
                };
                proof {
                    assert forall|orc: Seq<Outcome<N>>| extends(orc, self@.heap.log) implies #[trigger] spec_exec(m0, stmt@, fuel as nat, orc) == (self@, signal_view(r)) by {
                        assert(spec_eval(m0, vt, fuel as nat, orc) == (m1, Ok::<SValue<N>, RuntimeError>(vv)));
                    }
                }
                r
            },
            // The precondition rules out every other kind of node.
            _ => Err(RuntimeSignal::Break),
        }
    }

    /// `print`: evaluate, render, and add the line to the output.
    fn exec_print(&mut self, stmt: &Stmt, fuel: u64) -> (r: Result<(), RuntimeSignal<N>>)
        requires
            stmt is Print,
        ensures
            exec_agrees(old(self)@, stmt@, fuel as nat, final(self)@, signal_view(r)),
        decreases fuel, stmt@, 1nat,
    {
        let ghost m0 = self@;
        proof {
            lemma_extends_refl(m0.heap.log);
        }
        match stmt {
            Stmt::Print { value } => {
                let ghost vt = expr_view(*value);
                proof {
                    assert(decreases_to!(stmt@ => stmt@->Print_0));
                }
                let v = match self.evaluate(value, fuel) {
                    Ok(v) => v,
                    Err(err) => {
                        let r = Err(RuntimeSignal::Failure(err));
                        proof {
                            assert forall|orc: Seq<Outcome<N>>| extends(orc, self@.heap.log) implies #[trigger] spec_exec(m0, stmt@, fuel as nat, orc) == (self@, signal_view(r)) by {
                                assert(spec_eval(m0, vt, fuel as nat, orc) == (self@, Err::<SValue<N>, RuntimeError>(err)));
                            }
                        }
                        return r;
                    },
                };
                let ghost m1 = self@;
                let ghost vv = v@;
                let depth = print_depth(&self.heap);
                let mut line: Vec<Piece<N>> = Vec::new();
                proof {
                    assert(pieces_view(Seq::<Piece<N>>::empty()) =~= Seq::<SPiece<N>>::empty());
                }
                match self.render(&v, depth, &mut line) {
                    Ok(()) => {},
                    Err(err) => {
                        let r = Err(RuntimeSignal::Failure(err));
                        proof {
                            assert forall|orc: Seq<Outcome<N>>| extends(orc, self@.heap.log) implies #[trigger] spec_exec(m0, stmt@, fuel as nat, orc) == (self@, signal_view(r)) by {
                                assert(spec_eval(m0, vt, fuel as nat, orc) == (m1, Ok::<SValue<N>, RuntimeError>(vv)));
                            }
                        }
                        return r;
                    },
                }
                let ghost lv = pieces_view(line@);
                self.output.push(line);
                proof {
                    assert(self@.out =~= m1.out.push(lv));
                    assert(lv =~= Seq::<SPiece<N>>::empty() + lv);
                    assert(self@ == MView { out: m1.out.push(lv), ..m1 });
                }
                let r = Ok(());
                proof {
                    assert forall|orc: Seq<Outcome<N>>| extends(orc, self@.heap.log) implies #[trigger] spec_exec(m0, stmt@, fuel as nat, orc) == (self@, signal_view(r)) by {
                        assert(spec_eval(m0, vt, fuel as nat, orc) == (m1, Ok::<SValue<N>, RuntimeError>(vv)));
                    }
                }
                r
            },
            // The precondition rules out every other kind of node.
            _ => Err(RuntimeSignal::Break),
        }
    }

    /// `if`: evaluate the condition and run one branch.
    fn exec_if(&mut self, stmt: &Stmt, fuel: u64) -> (r: Result<(), RuntimeSignal<N>>)
        requires
            stmt is If,
        ensures
            exec_agrees(old(self)@, stmt@, fuel as nat, final(self)@, signal_view(r)),
        decreases fuel, stmt@, 1nat,
    {
        let ghost m0 = self@;
        proof {
            lemma_extends_refl(m0.heap.log);
        }
        match stmt {
            Stmt::If { condition, then_branch, else_branch } => {
                let ghost ct = expr_view(*condition);
                proof {
                    assert(decreases_to!(stmt@ => stmt@->If_0));
                    assert(decreases_to!(stmt@ => stmt@->If_1));
                    if else_branch is Some {
                        assert(decreases_to!(stmt@ => stmt@->If_2));
                        assert(decreases_to!(stmt@->If_2 => stmt@->If_2->Some_0));
                    }
                }
                let c = match self.evaluate(condition, fuel) {
                    Ok(v) => v,
                    Err(err) => {
                        let r = Err(RuntimeSignal::Failure(err));
                        proof {
                            assert forall|orc: Seq<Outcome<N>>| extends(orc, self@.heap.log) implies #[trigger] spec_exec(m0, stmt@, fuel as nat, orc) == (self@, signal_view(r)) by {
                                assert(spec_eval(m0, ct, fuel as nat, orc) == (self@, Err::<SValue<N>, RuntimeError>(err)));
                            }
                        }
                        return r;
                    },
                };
                let ghost m1 = self@;
                let ghost cv = c@;
                let t = self.truthy(&c);
                let ghost m2 = self@;
                proof {
                    assert(m2 == with_heap(m1, m2.heap));
                    lemma_extends_refl(m2.heap.log);
                }
                let r = if t {
                    self.execute_all(then_branch, fuel)
                } else {
                    match else_branch {
                        Some(branch) => self.execute_all(branch, fuel),
                        None => Ok(()),
                    }
                };
                proof {
                    assert forall|orc: Seq<Outcome<N>>| extends(orc, self@.heap.log) implies #[trigger] spec_exec(m0, stmt@, fuel as nat, orc) == (self@, signal_view(r)) by {
                        assert(spec_eval(m0, ct, fuel as nat, orc) == (m1, Ok::<SValue<N>, RuntimeError>(cv)));
                        assert(spec_truthy(m1.heap, cv, orc) == (m2.heap, t));
                        if t {
                            assert(spec_block(m2, stmts_view(then_branch@), 0, fuel as nat, orc) == (self@, signal_view(r)));
                        } else if let Some(branch) = else_branch {
                            assert(spec_block(m2, stmts_view(branch@), 0, fuel as nat, orc) == (self@, signal_view(r)));
                        }
                    }
                }
                r
            },
            // The precondition rules out every other kind of node.
            _ => Err(RuntimeSignal::Break),
        }
    }

    /// `for`: run the start, then the loop.
    fn exec_for(&mut self, stmt: &Stmt, fuel: u64) -> (r: Result<(), RuntimeSignal<N>>)
        requires
            stmt is For,
        ensures
            exec_agrees(old(self)@, stmt@, fuel as nat, final(self)@, signal_view(r)),
        decreases fuel, stmt@, 1nat,
    {
        let ghost m0 = self@;
        proof {
            lemma_extends_refl(m0.heap.log);
        }
        match stmt {
            Stmt::For { init, .. } => {
                let ghost it = stmt_view(**init);
                proof {
                    assert(decreases_to!(stmt@ => stmt@->For_0));
                }
                let first = self.execute(init, fuel);
                let ghost m1 = self@;
                match first {
                    Ok(()) => {},
                    Err(sig) => {
                        proof {
                            assert forall|orc: Seq<Outcome<N>>| extends(orc, self@.heap.log) implies #[trigger] spec_exec(m0, stmt@, fuel as nat, orc) == (self@, signal_view(first)) by {
                                assert(spec_exec(m0, it, fuel as nat, orc) == (self@, signal_view(first)));
                            }
                        }
                        return Err(sig);
                    },
                }
                let r = self.run_for(stmt, fuel);
                proof {
                    assert forall|orc: Seq<Outcome<N>>| extends(orc, self@.heap.log) implies #[trigger] spec_exec(m0, stmt@, fuel as nat, orc) == (self@, signal_view(r)) by {
                        assert(spec_exec(m0, it, fuel as nat, orc) == (m1, Ok::<(), SSignal<N>>(())));
                        assert(spec_for(m1, stmt@, fuel as nat, fuel as nat, orc) == (self@, signal_view(r)));
                    }
                }
                r
            },
            // The precondition rules out every other kind of node.
            _ => Err(RuntimeSignal::Break),
        }
    }

    /// A function definition: make the closure and bind its name.
    fn exec_function(&mut self, stmt: &Stmt, fuel: u64) -> (r: Result<(), RuntimeSignal<N>>)
        requires
            stmt is Function,
        ensures
            exec_agrees(old(self)@, stmt@, fuel as nat, final(self)@, signal_view(r)),
        decreases fuel, stmt@, 1nat,
    {
        let ghost m0 = self@;
        proof {
            lemma_extends_refl(m0.heap.log);
        }
        match stmt {
            Stmt::Function { name, params, body } => {
                let closure = Closure {
                    params: crate::ast::clone_names(params),
                    body: Rc::new(crate::ast::clone_stmts(body)),
                    env: self.env,
                };
                let id = self.heap.closures.len();
                let ghost cv = closure_view(closure);
                proof {
                    assert(cv == SClosure { params: names_view(params@), body: stmts_view(body@), env: m0.env });
                }
                self.heap.closures.push(closure);
                let ghost h1 = self@.heap;
                proof {
                    assert(self@.heap.closures =~= m0.heap.closures.push(cv));
                    assert(h1 == HView { closures: m0.heap.closures.push(cv), ..m0.heap });
                    assert(self@ == with_heap(m0, h1));
                }
                let env = self.env;
                let r = match self.define(env, name.clone(), Value::Function(id)) {
                    Ok(()) => Ok(()),
                    Err(err) => Err(RuntimeSignal::Failure(err)),
                };
                r
            },
            // The precondition rules out every other kind of node.
            _ => Err(RuntimeSignal::Break),
        }
    }

    /// `return` and expression statements: evaluate the value.
    fn exec_value(&mut self, stmt: &Stmt, fuel: u64) -> (r: Result<(), RuntimeSignal<N>>)
        requires
            stmt is Return || stmt is Expression,
        ensures
            exec_agrees(old(self)@, stmt@, fuel as nat, final(self)@, signal_view(r)),
        decreases fuel, stmt@, 1nat,
    {
        let ghost m0 = self@;
        proof {
            lemma_extends_refl(m0.heap.log);
        }
        match stmt {
            Stmt::Return { value } | Stmt::Expression { expression: value } => {
                let ghost vt = expr_view(*value);
                proof {
                    if stmt is Return {
                        assert(decreases_to!(stmt@ => stmt@->Return_0));
                    } else {
                        assert(decreases_to!(stmt@ => stmt@->Expression_0));
                    }
                }
                let v = self.evaluate(value, fuel);
                let r = match v {
                    Ok(v) => if let Stmt::Return { .. } = stmt {
                        Err(RuntimeSignal::Return(v))
                    } else {
                        Ok(())
                    },
                    Err(err) => Err(RuntimeSignal::Failure(err)),
                };
                proof {
                    assert forall|orc: Seq<Outcome<N>>| extends(orc, self@.heap.log) implies #[trigger] spec_exec(m0, stmt@, fuel as nat, orc) == (self@, signal_view(r)) by {
                        assert(spec_eval(m0, vt, fuel as nat, orc) == (self@, reply_view(v)));
                    }
                }
                r
            },
            // The precondition rules out every other kind of node.
            _ => Err(RuntimeSignal::Break),
        }
    }

    /// A `while` loop, with at most `fuel` rounds.
    fn run_while(&mut self, stmt: &Stmt, fuel: u64) -> (r: Result<(), RuntimeSignal<N>>)
        requires
            stmt is While,
        ensures
            extends(final(self)@.heap.log, old(self)@.heap.log),
            honest_growth(old(self)@.heap.log, final(self)@.heap.log),
            final(self)@.env == old(self)@.env,
            forall|orc: Seq<Outcome<N>>|
                extends(orc, final(self)@.heap.log) ==> #[trigger] spec_while(old(self)@, stmt@, fuel as nat, fuel as nat, orc) == (
                    final(self)@,
                    signal_view(r),
                ),
        decreases fuel, stmt@, 1nat,
    {
        match stmt {
            Stmt::While { condition, body } => {
                let ghost m0 = self@;
                let ghost ct = expr_view(*condition);
                let ghost bt = stmts_view(body@);
                proof {
                    lemma_extends_refl(m0.heap.log);
                }
                let mut k: u64 = fuel;
                loop
                    invariant
                        m0 == old(self)@,
                        ct == expr_view(*condition),
                        bt == stmts_view(body@),
                        stmt@ == SStmt::While(Box::new(ct), bt),
                        k <= fuel,
                        extends(self@.heap.log, m0.heap.log),
                        honest_growth(m0.heap.log, self@.heap.log),
                        self@.env == m0.env,
                        forall|orc: Seq<Outcome<N>>|
                            extends(orc, self@.heap.log) ==> #[trigger] spec_while(m0, stmt@, fuel as nat, fuel as nat, orc)
                                == spec_while(self@, stmt@, fuel as nat, k as nat, orc),
                    decreases k,
                {
                    let ghost mb = self@;
                    let ghost kb = k;
                    if k == 0 {
                        let r = Err(RuntimeSignal::Failure(RuntimeError::StepLimit));
                        proof {
                            assert forall|orc: Seq<Outcome<N>>| extends(orc, self@.heap.log) implies #[trigger] spec_while(m0, stmt@, fuel as nat, fuel as nat, orc) == (self@, signal_view(r)) by {
                                assert(spec_while(mb, stmt@, fuel as nat, 0, orc) == (self@, signal_view(r)));
                            }
                        }
                        return r;
                    }
                    proof {
                        assert(decreases_to!(stmt@ => stmt@->While_0));
                        assert(decreases_to!(stmt@ => stmt@->While_1));
                    }
                    let c = match self.evaluate(condition, fuel) {
                        Ok(v) => v,
                        Err(err) => {
                            let r = Err(RuntimeSignal::Failure(err));
                            proof {
                                assert forall|orc: Seq<Outcome<N>>| extends(orc, self@.heap.log) implies #[trigger] spec_while(m0, stmt@, fuel as nat, fuel as nat, orc) == (self@, signal_view(r)) by {
                                    assert(spec_eval(mb, ct, fuel as nat, orc) == (self@, Err::<SValue<N>, RuntimeError>(err)));
                                    assert(spec_while(mb, stmt@, fuel as nat, kb as nat, orc) == (self@, signal_view(r)));
                                }
                            }
                            return r;
                        },
                    };
                    let ghost m1 = self@;
                    let ghost cv = c@;
                    let t = self.truthy(&c);
                    let ghost m2 = self@;
                    proof {
                        assert(m2 == with_heap(m1, m2.heap));
                        lemma_extends_refl(m2.heap.log);
                    }
                    if !t {
                        let r = Ok(());
                        proof {
                            assert forall|orc: Seq<Outcome<N>>| extends(orc, self@.heap.log) implies #[trigger] spec_while(m0, stmt@, fuel as nat, fuel as nat, orc) == (self@, signal_view(r)) by {
                                assert(spec_eval(mb, ct, fuel as nat, orc) == (m1, Ok::<SValue<N>, RuntimeError>(cv)));
                                assert(spec_truthy(m1.heap, cv, orc) == (m2.heap, t));
                                assert(spec_while(mb, stmt@, fuel as nat, kb as nat, orc) == (self@, signal_view(r)));
                            }
                        }
                        return r;
                    }
                    let res = self.execute_all(body, fuel);
                    k = k - 1;
                    proof {
                        assert forall|orc: Seq<Outcome<N>>| extends(orc, self@.heap.log) implies #[trigger] spec_while(mb, stmt@, fuel as nat, kb as nat, orc) == (match res {
                            Ok(()) => spec_while(self@, stmt@, fuel as nat, k as nat, orc),
                            Err(RuntimeSignal::Continue) => spec_while(self@, stmt@, fuel as nat, k as nat, orc),
                            Err(RuntimeSignal::Break) => (self@, Ok::<(), SSignal<N>>(())),
                            Err(sig) => (self@, Err::<(), SSignal<N>>(sig@)),
                        }) by {
                            assert(spec_eval(mb, ct, fuel as nat, orc) == (m1, Ok::<SValue<N>, RuntimeError>(cv)));
                            assert(spec_truthy(m1.heap, cv, orc) == (m2.heap, t));
                            assert(spec_block(m2, bt, 0, fuel as nat, orc) == (self@, signal_view(res)));
                        }
                    }
                    match res {
                        Ok(()) => {},
                        Err(RuntimeSignal::Continue) => {},
                        Err(RuntimeSignal::Break) => {
                            return Ok(());
                        },
                        Err(sig) => {
                            return Err(sig);
                        },
                    }
                }
            },
            // The precondition rules out every other kind of node.
            _ => Ok(()),
        }
    }

    /// A `for` loop after its start, with at most `fuel` rounds.
    fn run_for(&mut self, stmt: &Stmt, fuel: u64) -> (r: Result<(), RuntimeSignal<N>>)
        requires
            stmt is For,
        ensures
            extends(final(self)@.heap.log, old(self)@.heap.log),
            honest_growth(old(self)@.heap.log, final(self)@.heap.log),
            final(self)@.env == old(self)@.env,
            forall|orc: Seq<Outcome<N>>|
                extends(orc, final(self)@.heap.log) ==> #[trigger] spec_for(old(self)@, stmt@, fuel as nat, fuel as nat, orc) == (
                    final(self)@,
                    signal_view(r),
                ),
        decreases fuel, stmt@, 0nat,
    {
        match stmt {
            Stmt::For { init, condition, update, body } => {
                let ghost m0 = self@;
                let ghost ct = expr_view(*condition);
                let ghost ut = stmt_view(**update);
                let ghost bt = stmts_view(body@);
                proof {
                    lemma_extends_refl(m0.heap.log);
                }
                let mut k: u64 = fuel;
                loop
                    invariant
                        m0 == old(self)@,
                        ct == expr_view(*condition),
                        ut == stmt_view(**update),
                        bt == stmts_view(body@),
                        stmt@ == SStmt::For(Box::new(stmt_view(**init)), Box::new(ct), Box::new(ut), bt),
                        k <= fuel,
                        extends(self@.heap.log, m0.heap.log),
                        honest_growth(m0.heap.log, self@.heap.log),
                        self@.env == m0.env,
                        forall|orc: Seq<Outcome<N>>|
                            extends(orc, self@.heap.log) ==> #[trigger] spec_for(m0, stmt@, fuel as nat, fuel as nat, orc)
                                == spec_for(self@, stmt@, fuel as nat, k as nat, orc),
                    decreases k,
                {
                    let ghost mb = self@;
                    let ghost kb = k;
                    if k == 0 {
                        let r = Err(RuntimeSignal::Failure(RuntimeError::StepLimit));
                        proof {
                            assert forall|orc: Seq<Outcome<N>>| extends(orc, self@.heap.log) implies #[trigger] spec_for(m0, stmt@, fuel as nat, fuel as nat, orc) == (self@, signal_view(r)) by {
                                assert(spec_for(mb, stmt@, fuel as nat, 0, orc) == (self@, signal_view(r)));
                            }
                        }
                        return r;
                    }
                    proof {
                        assert(decreases_to!(stmt@ => stmt@->For_1));
                        assert(decreases_to!(stmt@ => stmt@->For_2));
                        assert(decreases_to!(stmt@ => stmt@->For_3));
                    }
                    let c = match self.evaluate(condition, fuel) {
                        Ok(v) => v,
                        Err(err) => {
                            let r = Err(RuntimeSignal::Failure(err));
                            proof {
                                assert forall|orc: Seq<Outcome<N>>| extends(orc, self@.heap.log) implies #[trigger] spec_for(m0, stmt@, fuel as nat, fuel as nat, orc) == (self@, signal_view(r)) by {
                                    assert(spec_eval(mb, ct, fuel as nat, orc) == (self@, Err::<SValue<N>, RuntimeError>(err)));
                                    assert(spec_for(mb, stmt@, fuel as nat, kb as nat, orc) == (self@, signal_view(r)));
                                }
                            }
                            return r;
                        },
                    };
                    let ghost m1 = self@;
                    let ghost cv = c@;
                    let t = self.truthy(&c);
                    let ghost m2 = self@;
                    proof {
                        assert(m2 == with_heap(m1, m2.heap));
                        lemma_extends_refl(m2.heap.log);
                    }
                    if !t {
                        let r = Ok(());
                        proof {
                            assert forall|orc: Seq<Outcome<N>>| extends(orc, self@.heap.log) implies #[trigger] spec_for(m0, stmt@, fuel as nat, fuel as nat, orc) == (self@, signal_view(r)) by {
                                assert(spec_eval(mb, ct, fuel as nat, orc) == (m1, Ok::<SValue<N>, RuntimeError>(cv)));
                                assert(spec_truthy(m1.heap, cv, orc) == (m2.heap, t));
                                assert(spec_for(mb, stmt@, fuel as nat, kb as nat, orc) == (self@, signal_view(r)));
                            }
                        }
                        return r;
                    }
                    let res = self.execute_all(body, fuel);
                    let ghost m3 = self@;
                    let stop = match res {
                        Ok(()) => false,
                        Err(RuntimeSignal::Continue) => false,
                        _ => true,
                    };
                    if stop {
                        let r = match res {
                            Err(RuntimeSignal::Break) => Ok(()),
                            _ => res,
                        };
                        proof {
                            assert forall|orc: Seq<Outcome<N>>| extends(orc, self@.heap.log) implies #[trigger] spec_for(m0, stmt@, fuel as nat, fuel as nat, orc) == (self@, signal_view(r)) by {
                                assert(spec_eval(mb, ct, fuel as nat, orc) == (m1, Ok::<SValue<N>, RuntimeError>(cv)));
                                assert(spec_truthy(m1.heap, cv, orc) == (m2.heap, t));
                                assert(spec_block(m2, bt, 0, fuel as nat, orc) == (m3, signal_view(res)));
                                assert(spec_for(mb, stmt@, fuel as nat, kb as nat, orc) == (self@, signal_view(r)));
                            }
                        }
                        return r;
                    }
                    let u = self.execute(update, fuel);
                    match u {
                        Ok(()) => {},
                        Err(sig) => {
                            proof {
                                assert forall|orc: Seq<Outcome<N>>| extends(orc, self@.heap.log) implies #[trigger] spec_for(m0, stmt@, fuel as nat, fuel as nat, orc) == (self@, signal_view(u)) by {
                                    assert(spec_eval(mb, ct, fuel as nat, orc) == (m1, Ok::<SValue<N>, RuntimeError>(cv)));
                                    assert(spec_truthy(m1.heap, cv, orc) == (m2.heap, t));
                                    assert(spec_block(m2, bt, 0, fuel as nat, orc) == (m3, signal_view(res)));
                                    assert(spec_exec(m3, ut, fuel as nat, orc) == (self@, signal_view(u)));
                                    assert(spec_for(mb, stmt@, fuel as nat, kb as nat, orc) == (self@, signal_view(u)));
                                }
                            }
                            return Err(sig);
                        },
                    }
                    k = k - 1;
                    proof {
                        assert forall|orc: Seq<Outcome<N>>| extends(orc, self@.heap.log) implies #[trigger] spec_for(m0, stmt@, fuel as nat, fuel as nat, orc) == spec_for(self@, stmt@, fuel as nat, k as nat, orc) by {
                            assert(spec_eval(mb, ct, fuel as nat, orc) == (m1, Ok::<SValue<N>, RuntimeError>(cv)));
                            assert(spec_truthy(m1.heap, cv, orc) == (m2.heap, t));
                            assert(spec_block(m2, bt, 0, fuel as nat, orc) == (m3, signal_view(res)));
                            assert(spec_exec(m3, ut, fuel as nat, orc) == (self@, signal_view(u)));
                            assert(spec_for(mb, stmt@, fuel as nat, kb as nat, orc) == spec_for(self@, stmt@, fuel as nat, k as nat, orc));
                        }
                    }
                }
            },
            // The precondition rules out every other kind of node.
            _ => Ok(()),
        }
    }
}

impl<N: Number> Machine<N> {
    /// The machine before a program runs.
    fn new() -> (r: Self)
        ensures
            r@ == fresh_machine::<N>(),
    {
        let mut heap = Heap::new();
        let global: Frame<N> = Frame { vars: Vec::new(), parent: None };
        proof {
            assert(frame_view(global).vars =~= Seq::<(Seq<char>, SValue<N>)>::empty());
            assert(heap.frames@.len() == heap@.frames.len());
        }
        heap.frames.push(global);
        let r = Machine { heap, env: 0, output: Vec::new() };
        proof {
            let g = SFrame::<N> { vars: Seq::empty(), parent: None };
            assert(frame_view(r.heap.frames@[0]) == g);
            assert(r@.heap.frames =~= seq![g]);
            assert(r@.out =~= Seq::<Seq<SPiece<N>>>::empty());
            assert(r@.heap == fresh_machine::<N>().heap);
        }
        r
    }
}

/// The interpreter: the running machine, the file it runs, and how many
/// rounds a loop and how deep calls may go.
pub struct Interpreter<N> {
    machine: Machine<N>,
    context: ExecutionContext,
    budget: u64,
}

impl<N: Number> Interpreter<N> {
    /// The model of the running machine.
    pub closed spec fn machine_view(&self) -> MView<N> {
        self.machine@
    }

    /// The running file and its directory.
    pub closed spec fn context_view(&self) -> ContextView {
        self.context@
    }

    /// How many rounds each loop may take and how deep calls may nest.
    pub closed spec fn budget(&self) -> nat {
        self.budget as nat
    }

    /// An interpreter with an empty global scope, no file, and the largest budget.
    pub fn new() -> (r: Self)
        ensures
            r.machine_view() == fresh_machine::<N>(),
            machine_wf(r.machine_view()),
            r.context_view().file is None,
            r.context_view().directory is None,
            r.budget() == u64::MAX,
    {
        Self::with_budget(u64::MAX)
    }

    /// An interpreter with an empty global scope, no file, and the given budget.
    pub fn with_budget(budget: u64) -> (r: Self)
        ensures
            r.machine_view() == fresh_machine::<N>(),
            machine_wf(r.machine_view()),
            r.context_view().file is None,
            r.context_view().directory is None,
            r.budget() == budget,
    {
        proof {
            lemma_fresh_machine_wf::<N>();
        }
        Self { machine: Machine::new(), context: ExecutionContext::new(), budget }
    }

    /// Records the running file and its directory.
    pub fn set_current_file(&mut self, path: String)
        ensures
            final(self).context_view().file == Some(path@),
            final(self).context_view().directory == path_parent_of(path@),
            path@.len() == 0 ==> final(self).context_view().directory is None,
            single_component(path@) ==> final(self).context_view().directory == Some(Seq::<char>::empty()),
            final(self).machine_view() == old(self).machine_view(),
            final(self).budget() == old(self).budget(),
    {
        self.context.set_current_file(path);
    }

    /// The running file, if one was set.
    pub fn current_file(&self) -> (r: Option<&String>)
        ensures
            match r {
                Some(s) => self.context_view().file == Some(s@),
                None => self.context_view().file is None,
            },
    {
        self.context.current_file()
    }

    /// The directory of the running file, if it has one.
    pub fn current_directory(&self) -> (r: Option<&String>)
        ensures
            match r {
                Some(s) => self.context_view().directory == Some(s@),
                None => self.context_view().directory is None,
            },
    {
        self.context.current_directory()
    }

    /// Runs a program in the current scope. The lines it prints are added to
    /// the output; it stops at the first failure, or at a `break`,
    /// `continue` or `return` that nothing catches.
    pub fn run(&mut self, program: &Program) -> (r: Result<(), RuntimeError>)
        ensures
            extends(final(self).machine_view().heap.log, old(self).machine_view().heap.log),
            honest_growth(old(self).machine_view().heap.log, final(self).machine_view().heap.log),
            final(self).context_view() == old(self).context_view(),
            final(self).budget() == old(self).budget(),
            forall|orc: Seq<Outcome<N>>|
                extends(orc, final(self).machine_view().heap.log) ==> #[trigger] spec_run(old(self).machine_view(), program@, old(self).budget(), orc) == (
                    final(self).machine_view(),
                    r,
                ),
            machine_wf(old(self).machine_view()) ==> machine_wf(final(self).machine_view()) && r != Err::<(), RuntimeError>(RuntimeError::Dangling),
    {
        let ghost m0 = self.machine@;
        let done = self.machine.execute_all(&program.statements, self.budget);
        let r = match done {
            Ok(()) => Ok(()),
            Err(RuntimeSignal::Failure(e)) => Err(e),
            Err(_) => Err(RuntimeError::UnexpectedSignal),
        };
        proof {
            assert forall|orc: Seq<Outcome<N>>| extends(orc, self.machine@.heap.log) implies #[trigger] spec_run(m0, program@, self.budget as nat, orc) == (self.machine@, r) by {
                assert(spec_block(m0, stmts_view(program.statements@), 0, self.budget as nat, orc) == (self.machine@, signal_view(done)));
            }
            if machine_wf(m0) {
                lemma_extends_refl(self.machine@.heap.log);
                lemma_run_never_dangles(m0, program@, self.budget as nat, self.machine@.heap.log);
                assert(spec_run(m0, program@, self.budget as nat, self.machine@.heap.log) == (self.machine@, r));
            }
        }
        r
    }

    /// The lines printed so far, each as its pieces.
    pub fn output(&self) -> (r: &Vec<Vec<Piece<N>>>)
        ensures
            Seq::new(r@.len(), |i: int| pieces_view(r@[i]@)) == self.machine_view().out,
    {
        &self.machine.output
    }
}

} // verus!
