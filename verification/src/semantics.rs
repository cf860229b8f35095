//! What running a program means: the evaluation of expressions and the
//! execution of statements, as functions on the model of the machine.
//!
//! Every function takes `orc`, a record of the answers of the number
//! arithmetic; it reads the next answer at the position where the log of the
//! heap ends. The interpreter is proved to agree with these functions for the
//! record of answers it actually got.
use vstd::prelude::*;
use crate::ast::{SExpr, SStmt};
use crate::builtin::array::{
    spec_clear, spec_contains, spec_first, spec_insert, spec_is_empty, spec_last, spec_len, spec_pop, spec_push,
    spec_remove, spec_reverse,
};
use crate::builtin::dictionary::{find_key, spec_has_key, spec_keys, spec_values};
use crate::builtin::string::{
    spec_ends_with, spec_lower, spec_replace, spec_split, spec_starts_with, spec_trim, spec_upper,
};
use crate::value::{
    answer_flag, answer_index, answer_num, ask, logged, ArithOp, Builtin, CmpOp, HView, Outcome, RuntimeError,
    SClosure, SFrame, SPiece, SSignal, SValue,
};

verus! {

/// The model of the machine: the heap, the current scope, and the lines printed so far.
pub struct MView<N> {
    pub heap: HView<N>,
    pub env: nat,
    pub out: Seq<Seq<SPiece<N>>>,
}

/// The machine with another heap.
pub open spec fn with_heap<N>(m: MView<N>, h: HView<N>) -> MView<N> {
    MView { heap: h, ..m }
}

/// The machine in another scope.
pub open spec fn with_env<N>(m: MView<N>, env: nat) -> MView<N> {
    MView { env, ..m }
}

// ---------------------------------------------------------------------------
// Scopes.
// ---------------------------------------------------------------------------

/// The value bound to `name` in scope `f` or, failing that, in the scopes it
/// sits in; at most `steps` scopes are looked at.
pub open spec fn spec_lookup<N>(fs: Seq<SFrame<N>>, f: int, name: Seq<char>, steps: nat) -> Option<SValue<N>>
    decreases steps,
{
    if steps == 0 || !(0 <= f < fs.len()) {
        None
    } else {
        match find_key(fs[f].vars, name, 0) {
            Some(i) => Some(fs[f].vars[i as int].1),
            None => match fs[f].parent {
                Some(p) => spec_lookup(fs, p as int, name, (steps - 1) as nat),
                None => None,
            },
        }
    }
}

/// The value a name has in the current scope chain.
pub open spec fn lookup_var<N>(h: HView<N>, env: nat, name: Seq<char>) -> Option<SValue<N>> {
    spec_lookup(h.frames, env as int, name, h.frames.len())
}

/// The scope, among `f` and the scopes it sits in, that binds `name`.
pub open spec fn spec_owner<N>(fs: Seq<SFrame<N>>, f: int, name: Seq<char>, steps: nat) -> Option<nat>
    decreases steps,
{
    if steps == 0 || !(0 <= f < fs.len()) {
        None
    } else {
        match find_key(fs[f].vars, name, 0) {
            Some(_) => Some(f as nat),
            None => match fs[f].parent {
                Some(p) => spec_owner(fs, p as int, name, (steps - 1) as nat),
                None => None,
            },
        }
    }
}

/// Bindings with `name` bound to `v`: the existing binding is replaced, or a new one added.
pub open spec fn bind_in<N>(vars: Seq<(Seq<char>, SValue<N>)>, name: Seq<char>, v: SValue<N>) -> Seq<(Seq<char>, SValue<N>)> {
    match find_key(vars, name, 0) {
        Some(i) => vars.update(i as int, (name, v)),
        None => vars.push((name, v)),
    }
}

/// Binds `name` to `v` in scope `f`.
pub open spec fn spec_define<N>(h: HView<N>, f: nat, name: Seq<char>, v: SValue<N>) -> Result<HView<N>, RuntimeError> {
    if f < h.frames.len() {
        let fr = h.frames[f as int];
        Ok(HView { frames: h.frames.update(f as int, SFrame { vars: bind_in(fr.vars, name, v), parent: fr.parent }), ..h })
    } else {
        Err(RuntimeError::Dangling)
    }
}

/// Sets `name` to `v` in the nearest scope that binds it, or binds it in scope `f`.
pub open spec fn spec_assign<N>(h: HView<N>, f: nat, name: Seq<char>, v: SValue<N>) -> Result<HView<N>, RuntimeError> {
    match spec_owner(h.frames, f as int, name, h.frames.len()) {
        Some(o) => spec_define(h, o, name, v),
        None => spec_define(h, f, name, v),
    }
}

// ---------------------------------------------------------------------------
// Values.
// ---------------------------------------------------------------------------

/// Whether a value counts as true: `false`, `null`, zero, the empty string and
/// the empty array or dictionary count as false.
pub open spec fn spec_truthy<N>(h: HView<N>, v: SValue<N>, orc: Seq<Outcome<N>>) -> (HView<N>, bool) {
    match v {
        SValue::Boolean(b) => (h, b),
        SValue::Number(n) => {
            let z = answer_flag(ask(h, orc));
            (logged(h, Outcome::Zero(n, z)), !z)
        },
        SValue::Null => (h, false),
        SValue::Str(s) => (h, s.len() > 0),
        SValue::Array(id) => (h, !(id < h.arrays.len() && h.arrays[id as int].len() == 0)),
        SValue::Dictionary(id) => (h, !(id < h.dicts.len() && h.dicts[id as int].len() == 0)),
        SValue::Function(_) => (h, true),
    }
}

/// A number answer turned into a value.
pub open spec fn arith_value<N>(h: HView<N>, op: ArithOp, a: N, b: N, orc: Seq<Outcome<N>>) -> (HView<N>, Result<SValue<N>, RuntimeError>) {
    let r = answer_num(ask(h, orc));
    (logged(h, Outcome::Arith(op, a, b, r)), Ok(SValue::Number(r)))
}

/// A comparison answer turned into a value; `negate` flips it.
pub open spec fn compare_value<N>(h: HView<N>, op: CmpOp, a: N, b: N, negate: bool, orc: Seq<Outcome<N>>) -> (HView<N>, Result<SValue<N>, RuntimeError>) {
    let r = answer_flag(ask(h, orc));
    (logged(h, Outcome::Compare(op, a, b, r)), Ok(SValue::Boolean(if negate { !r } else { r })))
}

/// `==` and `!=` on values other than numbers; other operators give `null`.
pub open spec fn equality_value<N>(op: Seq<char>, same: bool) -> SValue<N> {
    if op == "=="@ {
        SValue::Boolean(same)
    } else if op == "!="@ {
        SValue::Boolean(!same)
    } else {
        SValue::Null
    }
}

/// A binary operator applied to two values. `&&` and `||` need booleans;
/// arithmetic and comparisons work on numbers; `==` and `!=` also on two
/// booleans, two strings or two nulls; everything else gives `null`.
pub open spec fn spec_eval_binary<N>(h: HView<N>, left: SValue<N>, op: Seq<char>, right: SValue<N>, orc: Seq<Outcome<N>>) -> (HView<N>, Result<SValue<N>, RuntimeError>) {
    if op == "&&"@ {
        match (left, right) {
            (SValue::Boolean(a), SValue::Boolean(b)) => (h, Ok(SValue::Boolean(a && b))),
            _ => (h, Err(RuntimeError::LogicalOperands { and: true })),
        }
    } else if op == "||"@ {
        match (left, right) {
            (SValue::Boolean(a), SValue::Boolean(b)) => (h, Ok(SValue::Boolean(a || b))),
            _ => (h, Err(RuntimeError::LogicalOperands { and: false })),
        }
    } else {
        match (left, right) {
            (SValue::Number(a), SValue::Number(b)) => {
                if op == "+"@ {
                    arith_value(h, ArithOp::Plus, a, b, orc)
                } else if op == "-"@ {
                    arith_value(h, ArithOp::Minus, a, b, orc)
                } else if op == "*"@ {
                    arith_value(h, ArithOp::Times, a, b, orc)
                } else if op == "/"@ {
                    arith_value(h, ArithOp::Divide, a, b, orc)
                } else if op == "%"@ {
                    arith_value(h, ArithOp::Remainder, a, b, orc)
                } else if op == "=="@ {
                    compare_value(h, CmpOp::Equal, a, b, false, orc)
                } else if op == "!="@ {
                    compare_value(h, CmpOp::Equal, a, b, true, orc)
                } else if op == "<"@ {
                    compare_value(h, CmpOp::Less, a, b, false, orc)
                } else if op == "<="@ {
                    compare_value(h, CmpOp::AtMost, a, b, false, orc)
                } else if op == ">"@ {
                    compare_value(h, CmpOp::Greater, a, b, false, orc)
                } else if op == ">="@ {
                    compare_value(h, CmpOp::AtLeast, a, b, false, orc)
                } else {
                    (h, Ok(SValue::Null))
                }
            },
            (SValue::Boolean(a), SValue::Boolean(b)) => (h, Ok(equality_value(op, a == b))),
            (SValue::Str(a), SValue::Str(b)) => (h, Ok(equality_value(op, a == b))),
            (SValue::Null, SValue::Null) => (h, Ok(equality_value(op, true))),
            _ => (h, Ok(SValue::Null)),
        }
    }
}

// ---------------------------------------------------------------------------
// Printing.
// ---------------------------------------------------------------------------

/// The printed form of a value, in the debug notation of the value type;
/// containers nested deeper than `depth` mean the value contains itself.
pub open spec fn spec_render<N>(h: HView<N>, v: SValue<N>, depth: nat) -> Result<Seq<SPiece<N>>, RuntimeError>
    decreases depth, 0nat,
{
    match v {
        SValue::Number(n) => Ok(seq![SPiece::Text("Number("@), SPiece::Number(n), SPiece::Text(")"@)]),
        SValue::Str(s) => Ok(seq![SPiece::Text("String("@), SPiece::Quoted(s), SPiece::Text(")"@)]),
        SValue::Boolean(b) => Ok(seq![SPiece::Text(if b { "Boolean(true)"@ } else { "Boolean(false)"@ })]),
        SValue::Null => Ok(seq![SPiece::Text("Null"@)]),
        SValue::Array(id) => if id >= h.arrays.len() {
            Err(RuntimeError::Dangling)
        } else if depth == 0 {
            Err(RuntimeError::CyclicValue)
        } else {
            match spec_render_items(h, h.arrays[id as int], 0, (depth - 1) as nat) {
                Ok(inner) => Ok(seq![SPiece::Text("Array(RefCell { value: ["@)] + inner + seq![SPiece::Text("] })"@)]),
                Err(e) => Err(e),
            }
        },
        SValue::Dictionary(id) => if id >= h.dicts.len() {
            Err(RuntimeError::Dangling)
        } else if depth == 0 {
            Err(RuntimeError::CyclicValue)
        } else {
            match spec_render_entries(h, h.dicts[id as int], 0, (depth - 1) as nat) {
                Ok(inner) => Ok(seq![SPiece::Text("Dictionary(RefCell { value: {"@)] + inner + seq![SPiece::Text("} })"@)]),
                Err(e) => Err(e),
            }
        },
        SValue::Function(id) => if id >= h.closures.len() {
            Err(RuntimeError::Dangling)
        } else {
            Ok(seq![SPiece::Text("Function { params: ["@)] + render_names::<N>(h.closures[id as int].params, 0) + seq![SPiece::Text("], .. }"@)])
        },
    }
}

/// The printed forms of `items` from position `i` on, separated by commas.
pub open spec fn spec_render_items<N>(h: HView<N>, items: Seq<SValue<N>>, i: int, depth: nat) -> Result<Seq<SPiece<N>>, RuntimeError>
    decreases depth, items.len() - i + 1,
{
    if 0 <= i < items.len() {
        match spec_render(h, items[i], depth) {
            Ok(first) => match spec_render_items(h, items, i + 1, depth) {
                Ok(rest) => Ok((if i > 0 { seq![SPiece::Text(", "@)] } else { Seq::empty() }) + first + rest),
                Err(e) => Err(e),
            },
            Err(e) => Err(e),
        }
    } else {
        Ok(Seq::empty())
    }
}

/// The printed forms of dictionary entries from position `i` on.
pub open spec fn spec_render_entries<N>(h: HView<N>, es: Seq<(Seq<char>, SValue<N>)>, i: int, depth: nat) -> Result<Seq<SPiece<N>>, RuntimeError>
    decreases depth, es.len() - i + 1,
{
    if 0 <= i < es.len() {
        match spec_render(h, es[i].1, depth) {
            Ok(first) => match spec_render_entries(h, es, i + 1, depth) {
                Ok(rest) => Ok((if i > 0 { seq![SPiece::Text(", "@)] } else { Seq::empty() }) + seq![SPiece::Quoted(es[i].0), SPiece::Text(": "@)] + first + rest),
                Err(e) => Err(e),
            },
            Err(e) => Err(e),
        }
    } else {
        Ok(Seq::empty())
    }
}

/// Parameter names, quoted and separated by commas, from position `i` on.
pub open spec fn render_names<N>(names: Seq<Seq<char>>, i: int) -> Seq<SPiece<N>>
    decreases names.len() - i,
{
    if 0 <= i < names.len() {
        (if i > 0 { seq![SPiece::Text(", "@)] } else { Seq::empty() }) + seq![SPiece::Quoted(names[i])] + render_names(names, i + 1)
    } else {
        Seq::empty()
    }
}

/// How deep containers may nest in a printed value: each container on a path
/// from the value down is a different one unless the value contains itself.
/// (The count is kept within what a machine word holds.)
pub open spec fn render_depth<N>(h: HView<N>) -> nat {
    let d = h.arrays.len() + h.dicts.len();
    if d <= usize::MAX { d } else { usize::MAX as nat }
}

// ---------------------------------------------------------------------------
// Builtins.
// ---------------------------------------------------------------------------

/// The builtin that a name calls, if any.
pub open spec fn builtin_named(name: Seq<char>) -> Option<Builtin> {
    if name == "len"@ {
        Some(Builtin::Len)
    } else if name == "push"@ {
        Some(Builtin::Push)
    } else if name == "pop"@ {
        Some(Builtin::Pop)
    } else if name == "insert"@ {
        Some(Builtin::Insert)
    } else if name == "remove"@ {
        Some(Builtin::Remove)
    } else if name == "clear"@ {
        Some(Builtin::Clear)
    } else if name == "reverse"@ {
        Some(Builtin::Reverse)
    } else if name == "first"@ {
        Some(Builtin::First)
    } else if name == "last"@ {
        Some(Builtin::Last)
    } else if name == "is_empty"@ {
        Some(Builtin::IsEmpty)
    } else if name == "trim"@ {
        Some(Builtin::Trim)
    } else if name == "upper"@ {
        Some(Builtin::Upper)
    } else if name == "lower"@ {
        Some(Builtin::Lower)
    } else if name == "contains"@ {
        Some(Builtin::Contains)
    } else if name == "starts_with"@ {
        Some(Builtin::StartsWith)
    } else if name == "ends_with"@ {
        Some(Builtin::EndsWith)
    } else if name == "replace"@ {
        Some(Builtin::Replace)
    } else if name == "split"@ {
        Some(Builtin::Split)
    } else if name == "keys"@ {
        Some(Builtin::Keys)
    } else if name == "values"@ {
        Some(Builtin::Values)
    } else if name == "has_key"@ {
        Some(Builtin::HasKey)
    } else if name == "remove_key"@ {
        Some(Builtin::RemoveKey)
    } else {
        None
    }
}

/// How many arguments a builtin takes.
pub open spec fn arity(b: Builtin) -> nat {
    match b {
        Builtin::Insert | Builtin::Replace => 3,
        Builtin::Push | Builtin::Remove | Builtin::Contains | Builtin::StartsWith | Builtin::EndsWith
        | Builtin::Split | Builtin::HasKey | Builtin::RemoveKey => 2,
        _ => 1,
    }
}

/// A builtin applied to the values of its arguments.
pub open spec fn spec_apply_builtin<N>(h: HView<N>, b: Builtin, a: Seq<SValue<N>>, orc: Seq<Outcome<N>>) -> (HView<N>, Result<SValue<N>, RuntimeError>) {
    match b {
        Builtin::Len => spec_len(h, a[0], orc),
        Builtin::Push => spec_push(h, a[0], a[1]),
        Builtin::Pop => spec_pop(h, a[0]),
        Builtin::Insert => spec_insert(h, a[0], a[1], a[2], orc),
        Builtin::Remove => spec_remove(h, a[0], a[1], orc),
        Builtin::Clear => match a[0] {
            SValue::Array(_) => spec_clear(h, a[0]),
            SValue::Dictionary(_) => crate::builtin::dictionary::spec_clear(h, a[0]),
            _ => (h, Err(RuntimeError::UnsupportedTarget(Builtin::Clear))),
        },
        Builtin::Reverse => spec_reverse(h, a[0]),
        Builtin::First => (h, spec_first(h, a[0])),
        Builtin::Last => (h, spec_last(h, a[0])),
        Builtin::IsEmpty => (h, spec_is_empty(h, a[0])),
        Builtin::Trim => (h, spec_trim(a[0])),
        Builtin::Upper => (h, spec_upper(a[0])),
        Builtin::Lower => (h, spec_lower(a[0])),
        Builtin::Contains => match a[0] {
            SValue::Array(_) => spec_contains(h, a[0], a[1], orc),
            SValue::Str(_) => (h, crate::builtin::string::spec_contains(a[0], a[1])),
            _ => (h, Err(RuntimeError::UnsupportedTarget(Builtin::Contains))),
        },
        Builtin::StartsWith => (h, spec_starts_with(a[0], a[1])),
        Builtin::EndsWith => (h, spec_ends_with(a[0], a[1])),
        Builtin::Replace => (h, spec_replace(a[0], a[1], a[2])),
        Builtin::Split => spec_split(h, a[0], a[1]),
        Builtin::Keys => spec_keys(h, a[0]),
        Builtin::Values => spec_values(h, a[0]),
        Builtin::HasKey => (h, spec_has_key(h, a[0], a[1])),
        Builtin::RemoveKey => crate::builtin::dictionary::spec_remove(h, a[0], a[1]),
    }
}

// ---------------------------------------------------------------------------
// Evaluation and execution.
// ---------------------------------------------------------------------------

/// The value of an expression, and the machine after evaluating it.
pub open spec fn spec_eval<N>(m: MView<N>, e: SExpr, fuel: nat, orc: Seq<Outcome<N>>) -> (MView<N>, Result<SValue<N>, RuntimeError>)
    decreases fuel, e, 0nat,
{
    match e {
        SExpr::Number(d) => {
            let n = answer_num(ask(m.heap, orc));
            (with_heap(m, logged(m.heap, Outcome::Literal(d, n))), Ok(SValue::Number(n)))
        },
        SExpr::Str(s) => (m, Ok(SValue::Str(s))),
        SExpr::Boolean(b) => (m, Ok(SValue::Boolean(b))),
        SExpr::Null => (m, Ok(SValue::Null)),
        SExpr::Identifier(name) => (m, Ok(match lookup_var(m.heap, m.env, name) {
            Some(v) => v,
            None => SValue::Null,
        })),
        SExpr::Binary(l, op, r) => {
            let (m1, lv) = spec_eval(m, *l, fuel, orc);
            match lv {
                Err(err) => (m1, Err(err)),
                Ok(lv) => if op == "&&"@ {
                    match lv {
                        SValue::Boolean(false) => (m1, Ok(SValue::Boolean(false))),
                        SValue::Boolean(true) => {
                            let (m2, rv) = spec_eval(m1, *r, fuel, orc);
                            match rv {
                                Ok(SValue::Boolean(v)) => (m2, Ok(SValue::Boolean(v))),
                                Ok(_) => (m2, Err(RuntimeError::LogicalOperands { and: true })),
                                Err(err) => (m2, Err(err)),
                            }
                        },
                        _ => (m1, Err(RuntimeError::LogicalOperands { and: true })),
                    }
                } else if op == "||"@ {
                    match lv {
                        SValue::Boolean(true) => (m1, Ok(SValue::Boolean(true))),
                        SValue::Boolean(false) => {
                            let (m2, rv) = spec_eval(m1, *r, fuel, orc);
                            match rv {
                                Ok(SValue::Boolean(v)) => (m2, Ok(SValue::Boolean(v))),
                                Ok(_) => (m2, Err(RuntimeError::LogicalOperands { and: false })),
                                Err(err) => (m2, Err(err)),
                            }
                        },
                        _ => (m1, Err(RuntimeError::LogicalOperands { and: false })),
                    }
                } else {
                    let (m2, rv) = spec_eval(m1, *r, fuel, orc);
                    match rv {
                        Err(err) => (m2, Err(err)),
                        Ok(rv) => {
                            let (h3, res) = spec_eval_binary(m2.heap, lv, op, rv, orc);
                            (with_heap(m2, h3), res)
                        },
                    }
                },
            }
        },
        SExpr::Unary(op, r) => {
            let (m1, v) = spec_eval(m, *r, fuel, orc);
            match v {
                Err(err) => (m1, Err(err)),
                Ok(v) => if op == "+"@ {
                    match v {
                        SValue::Number(n) => (m1, Ok(SValue::Number(n))),
                        _ => (m1, Err(RuntimeError::UnaryOperand { minus: false })),
                    }
                } else if op == "-"@ {
                    match v {
                        SValue::Number(n) => {
                            let r = answer_num(ask(m1.heap, orc));
                            (with_heap(m1, logged(m1.heap, Outcome::Negate(n, r))), Ok(SValue::Number(r)))
                        },
                        _ => (m1, Err(RuntimeError::UnaryOperand { minus: true })),
                    }
                } else if op == "!"@ {
                    let (h2, t) = spec_truthy(m1.heap, v, orc);
                    (with_heap(m1, h2), Ok(SValue::Boolean(!t)))
                } else {
                    (m1, Err(RuntimeError::UnknownUnary))
                },
            }
        },
        SExpr::Array(elements) => {
            let (m1, vs) = spec_eval_list(m, elements, 0, Seq::empty(), fuel, orc);
            match vs {
                Ok(vs) => (
                    with_heap(m1, HView { arrays: m1.heap.arrays.push(vs), ..m1.heap }),
                    Ok(SValue::Array(m1.heap.arrays.len())),
                ),
                Err(err) => (m1, Err(err)),
            }
        },
        SExpr::Index(object, index) => {
            let (m1, o) = spec_eval(m, *object, fuel, orc);
            match o {
                Err(err) => (m1, Err(err)),
                Ok(o) => {
                    let (m2, i) = spec_eval(m1, *index, fuel, orc);
                    match i {
                        Err(err) => (m2, Err(err)),
                        Ok(i) => match (o, i) {
                            (SValue::Array(id), SValue::Number(n)) => {
                                let k = answer_index(ask(m2.heap, orc));
                                let m3 = with_heap(m2, logged(m2.heap, Outcome::Index(n, k)));
                                if id < m2.heap.arrays.len() {
                                    let a = m2.heap.arrays[id as int];
                                    (m3, Ok(if k < a.len() { a[k as int] } else { SValue::Null }))
                                } else {
                                    (m3, Err(RuntimeError::Dangling))
                                }
                            },
                            (SValue::Dictionary(id), SValue::Str(key)) => if id < m2.heap.dicts.len() {
                                let es = m2.heap.dicts[id as int];
                                (m2, Ok(match find_key(es, key, 0) {
                                    Some(j) => es[j as int].1,
                                    None => SValue::Null,
                                }))
                            } else {
                                (m2, Err(RuntimeError::Dangling))
                            },
                            _ => (m2, Err(RuntimeError::NotIndexable)),
                        },
                    }
                },
            }
        },
        SExpr::Call(callee, args) => {
            let builtin = match *callee {
                SExpr::Identifier(name) => builtin_named(name),
                _ => None,
            };
            match builtin {
                Some(b) => if args.len() != arity(b) {
                    (m, Err(RuntimeError::WrongArgumentCount(b)))
                } else {
                    let (m1, vs) = spec_eval_list(m, args, 0, Seq::empty(), fuel, orc);
                    match vs {
                        Ok(vs) => {
                            let (h2, res) = spec_apply_builtin(m1.heap, b, vs, orc);
                            (with_heap(m1, h2), res)
                        },
                        Err(err) => (m1, Err(err)),
                    }
                },
                None => {
                    let (m1, f) = spec_eval(m, *callee, fuel, orc);
                    match f {
                        Err(err) => (m1, Err(err)),
                        Ok(SValue::Function(id)) => spec_call_closure(m1, id, args, fuel, orc),
                        Ok(_) => (m1, Err(RuntimeError::NotCallable)),
                    }
                },
            }
        },
        _ => (m, Ok(SValue::Null)),
    }
}

/// A call of the function with handle `id` on `args`: the arguments are
/// evaluated in the caller's scope and bound in a new scope inside the
/// function's own, where the body then runs with one step less.
pub open spec fn spec_call_closure<N>(m: MView<N>, id: nat, args: Seq<SExpr>, fuel: nat, orc: Seq<Outcome<N>>) -> (MView<N>, Result<SValue<N>, RuntimeError>)
    decreases fuel, args, args.len() + 1,
{
    if id >= m.heap.closures.len() {
        (m, Err(RuntimeError::Dangling))
    } else {
        let c = m.heap.closures[id as int];
        if c.params.len() != args.len() {
            (m, Err(RuntimeError::ArgumentCount { expected: c.params.len() as usize, got: args.len() as usize }))
        } else if fuel == 0 {
            (m, Err(RuntimeError::StepLimit))
        } else {
            let frame = m.heap.frames.len();
            let m2 = with_heap(m, HView {
                frames: m.heap.frames.push(SFrame { vars: Seq::empty(), parent: Some(c.env) }),
                ..m.heap
            });
            let (m3, bound) = spec_bind_args(m2, args, c.params, frame, 0, fuel, orc);
            match bound {
                Err(err) => (m3, Err(err)),
                Ok(()) => {
                    let (m4, done) = spec_block(with_env(m3, frame), c.body, 0, (fuel - 1) as nat, orc);
                    let m5 = with_env(m4, m3.env);
                    match done {
                        Ok(()) => (m5, Ok(SValue::Null)),
                        Err(SSignal::Return(v)) => (m5, Ok(v)),
                        Err(SSignal::Failure(err)) => (m5, Err(err)),
                        Err(_) => (m5, Err(RuntimeError::UnexpectedSignal)),
                    }
                },
            }
        }
    }
}

/// The values of `es` from position `i` on, evaluated in order after `acc`.
pub open spec fn spec_eval_list<N>(m: MView<N>, es: Seq<SExpr>, i: int, acc: Seq<SValue<N>>, fuel: nat, orc: Seq<Outcome<N>>) -> (MView<N>, Result<Seq<SValue<N>>, RuntimeError>)
    decreases fuel, es, es.len() - i,
{
    if 0 <= i < es.len() {
        let (m1, v) = spec_eval(m, es[i], fuel, orc);
        match v {
            Ok(v) => spec_eval_list(m1, es, i + 1, acc.push(v), fuel, orc),
            Err(err) => (m1, Err(err)),
        }
    } else {
        (m, Ok(acc))
    }
}

/// Evaluates the arguments from position `i` on, in the caller's scope, and
/// binds each to its parameter in scope `frame`.
pub open spec fn spec_bind_args<N>(m: MView<N>, args: Seq<SExpr>, params: Seq<Seq<char>>, frame: nat, i: int, fuel: nat, orc: Seq<Outcome<N>>) -> (MView<N>, Result<(), RuntimeError>)
    decreases fuel, args, args.len() - i,
{
    if 0 <= i < args.len() {
        let (m1, v) = spec_eval(m, args[i], fuel, orc);
        match v {
            Ok(v) => match spec_define(m1.heap, frame, params[i], v) {
                Ok(h2) => spec_bind_args(with_heap(m1, h2), args, params, frame, i + 1, fuel, orc),
                Err(err) => (m1, Err(err)),
            },
            Err(err) => (m1, Err(err)),
        }
    } else {
        (m, Ok(()))
    }
}

/// Statements from position `i` on, in the current scope, until one ends early.
pub open spec fn spec_block<N>(m: MView<N>, stmts: Seq<SStmt>, i: int, fuel: nat, orc: Seq<Outcome<N>>) -> (MView<N>, Result<(), SSignal<N>>)
    decreases fuel, stmts, stmts.len() - i,
{
    if 0 <= i < stmts.len() {
        let (m1, r) = spec_exec(m, stmts[i], fuel, orc);
        match r {
            Ok(()) => spec_block(m1, stmts, i + 1, fuel, orc),
            Err(sig) => (m1, Err(sig)),
        }
    } else {
        (m, Ok(()))
    }
}

/// A value turned into the end of a statement: failures stop it.
pub open spec fn failed<N>(m: MView<N>, err: RuntimeError) -> (MView<N>, Result<(), SSignal<N>>) {
    (m, Err(SSignal::Failure(err)))
}

/// The machine after executing a statement, and how the statement ended.
pub open spec fn spec_exec<N>(m: MView<N>, s: SStmt, fuel: nat, orc: Seq<Outcome<N>>) -> (MView<N>, Result<(), SSignal<N>>)
    decreases fuel, s, fuel + 1,
{
    match s {
        SStmt::Let(name, value) => {
            let (m1, v) = spec_eval(m, *value, fuel, orc);
            match v {
                Err(err) => failed(m1, err),
                Ok(v) => match spec_define(m1.heap, m1.env, name, v) {
                    Ok(h2) => (with_heap(m1, h2), Ok(())),
                    Err(err) => failed(m1, err),
                },
            }
        },
        SStmt::Assign(name, value) => {
            let (m1, v) = spec_eval(m, *value, fuel, orc);
            match v {
                Err(err) => failed(m1, err),
                Ok(v) => match spec_assign(m1.heap, m1.env, name, v) {
                    Ok(h2) => (with_heap(m1, h2), Ok(())),
                    Err(err) => failed(m1, err),
                },
            }
        },
        SStmt::Print(value) => {
            let (m1, v) = spec_eval(m, *value, fuel, orc);
            match v {
                Err(err) => failed(m1, err),
                Ok(v) => match spec_render(m1.heap, v, render_depth(m1.heap)) {
                    Ok(line) => (MView { out: m1.out.push(line), ..m1 }, Ok(())),
                    Err(err) => failed(m1, err),
                },
            }
        },
        SStmt::If(cond, then_branch, else_branch) => {
            let (m1, c) = spec_eval(m, *cond, fuel, orc);
            match c {
                Err(err) => failed(m1, err),
                Ok(c) => {
                    let (h2, t) = spec_truthy(m1.heap, c, orc);
                    let m2 = with_heap(m1, h2);
                    if t {
                        spec_block(m2, then_branch, 0, fuel, orc)
                    } else {
                        match else_branch {
                            Some(b) => spec_block(m2, b, 0, fuel, orc),
                            None => (m2, Ok(())),
                        }
                    }
                },
            }
        },
        SStmt::While(_, _) => spec_while(m, s, fuel, fuel, orc),
        SStmt::For(init, _, _, _) => {
            let (m1, r) = spec_exec(m, *init, fuel, orc);
            match r {
                Err(sig) => (m1, Err(sig)),
                Ok(()) => spec_for(m1, s, fuel, fuel, orc),
            }
        },
        SStmt::Break => (m, Err(SSignal::Break)),
        SStmt::Continue => (m, Err(SSignal::Continue)),
        SStmt::Function(name, params, body) => {
            let id = m.heap.closures.len();
            let h1 = HView { closures: m.heap.closures.push(SClosure { params, body, env: m.env }), ..m.heap };
            match spec_define(h1, m.env, name, SValue::Function(id)) {
                Ok(h2) => (with_heap(m, h2), Ok(())),
                Err(err) => failed(with_heap(m, h1), err),
            }
        },
        SStmt::Return(value) => {
            let (m1, v) = spec_eval(m, *value, fuel, orc);
            match v {
                Err(err) => failed(m1, err),
                Ok(v) => (m1, Err(SSignal::Return(v))),
            }
        },
        SStmt::Expression(expression) => {
            let (m1, v) = spec_eval(m, *expression, fuel, orc);
            match v {
                Err(err) => failed(m1, err),
                Ok(_) => (m1, Ok(())),
            }
        },
        _ => (m, Ok(())),
    }
}

/// A `while` loop with at most `k` more rounds.
pub open spec fn spec_while<N>(m: MView<N>, s: SStmt, fuel: nat, k: nat, orc: Seq<Outcome<N>>) -> (MView<N>, Result<(), SSignal<N>>)
    decreases fuel, s, k,
{
    match s {
        SStmt::While(cond, body) => if k == 0 {
            failed(m, RuntimeError::StepLimit)
        } else {
            let (m1, c) = spec_eval(m, *cond, fuel, orc);
            match c {
                Err(err) => failed(m1, err),
                Ok(c) => {
                    let (h2, t) = spec_truthy(m1.heap, c, orc);
                    let m2 = with_heap(m1, h2);
                    if !t {
                        (m2, Ok(()))
                    } else {
                        let (m3, r) = spec_block(m2, body, 0, fuel, orc);
                        match r {
                            Ok(()) => spec_while(m3, s, fuel, (k - 1) as nat, orc),
                            Err(SSignal::Continue) => spec_while(m3, s, fuel, (k - 1) as nat, orc),
                            Err(SSignal::Break) => (m3, Ok(())),
                            Err(sig) => (m3, Err(sig)),
                        }
                    }
                },
            }
        },
        _ => (m, Ok(())),
    }
}

/// A `for` loop, after its start, with at most `k` more rounds.
pub open spec fn spec_for<N>(m: MView<N>, s: SStmt, fuel: nat, k: nat, orc: Seq<Outcome<N>>) -> (MView<N>, Result<(), SSignal<N>>)
    decreases fuel, s, k,
{
    match s {
        SStmt::For(_, cond, update, body) => if k == 0 {
            failed(m, RuntimeError::StepLimit)
        } else {
            let (m1, c) = spec_eval(m, *cond, fuel, orc);
            match c {
                Err(err) => failed(m1, err),
                Ok(c) => {
                    let (h2, t) = spec_truthy(m1.heap, c, orc);
                    let m2 = with_heap(m1, h2);
                    if !t {
                        (m2, Ok(()))
                    } else {
                        let (m3, r) = spec_block(m2, body, 0, fuel, orc);
                        match r {
                            Err(SSignal::Break) => (m3, Ok(())),
                            Err(SSignal::Return(v)) => (m3, Err(SSignal::Return(v))),
                            Err(SSignal::Failure(err)) => (m3, Err(SSignal::Failure(err))),
                            _ => {
                                let (m4, u) = spec_exec(m3, *update, fuel, orc);
                                match u {
                                    Err(sig) => (m4, Err(sig)),
                                    Ok(()) => spec_for(m4, s, fuel, (k - 1) as nat, orc),
                                }
                            },
                        }
                    }
                },
            }
        },
        _ => (m, Ok(())),
    }
}

/// A list evaluation that succeeds gives one value per expression.
pub proof fn lemma_eval_list_len<N>(m: MView<N>, es: Seq<SExpr>, i: int, acc: Seq<SValue<N>>, fuel: nat, orc: Seq<Outcome<N>>)
    requires
        0 <= i <= es.len(),
        spec_eval_list(m, es, i, acc, fuel, orc).1 is Ok,
    ensures
        spec_eval_list(m, es, i, acc, fuel, orc).1->Ok_0.len() == acc.len() + es.len() - i,
    decreases es.len() - i,
{
    if i < es.len() {
        let (m1, v) = spec_eval(m, es[i], fuel, orc);
        if v is Ok {
            lemma_eval_list_len(m1, es, i + 1, acc.push(v->Ok_0), fuel, orc);
        }
    }
}

/// The machine before a program runs: one empty global scope, nothing
/// allocated, nothing printed and no answer asked yet.
pub open spec fn fresh_machine<N>() -> MView<N> {
    MView {
        heap: HView {
            arrays: Seq::empty(),
            dicts: Seq::empty(),
            frames: seq![SFrame { vars: Seq::empty(), parent: None }],
            closures: Seq::empty(),
            log: Seq::empty(),
        },
        env: 0,
        out: Seq::empty(),
    }
}

/// A whole program run in the current scope: a failure ends it with its
/// error, and `break`, `continue` or `return` outside any loop or function
/// end it as unexpected.
pub open spec fn spec_run<N>(m: MView<N>, program: Seq<SStmt>, fuel: nat, orc: Seq<Outcome<N>>) -> (MView<N>, Result<(), RuntimeError>) {
    let (m1, r) = spec_block(m, program, 0, fuel, orc);
    (m1, match r {
        Ok(()) => Ok(()),
        Err(SSignal::Failure(e)) => Err(e),
        Err(_) => Err(RuntimeError::UnexpectedSignal),
    })
}

} // verus!
