//! Every handle points at something: a machine whose handles all point into
//! its heap keeps them so through every step, and so never fails with
//! `Dangling`.
use vstd::prelude::*;
use crate::ast::{SExpr, SStmt};
use crate::builtin::array::{set_array, spec_contains_from};
use crate::builtin::dictionary::{find_key, spec_keys};
use crate::builtin::string::piece_values;
use crate::equality::spec_equals;
use crate::laws::{lemma_bind_keeps_scope, lemma_eval_keeps_scope, lemma_exec_keeps_scope};
use crate::semantics::{
    arity, bind_in, builtin_named, fresh_machine, lemma_eval_list_len, render_depth, spec_apply_builtin, spec_assign,
    spec_bind_args, spec_block, spec_call_closure, spec_define, spec_eval, spec_eval_binary, spec_eval_list, spec_exec,
    spec_for, spec_lookup, spec_owner, spec_render, spec_render_entries, spec_render_items, spec_run, spec_truthy,
    spec_while, with_env, with_heap, MView,
};
use crate::value::{Builtin, HView, Outcome, RuntimeError, SClosure, SFrame, SPiece, SSignal, SValue};

verus! {

/// The value is no handle, or a handle on something that exists.
pub open spec fn valid_value<N>(h: HView<N>, v: SValue<N>) -> bool {
    match v {
        SValue::Array(id) => id < h.arrays.len(),
        SValue::Dictionary(id) => id < h.dicts.len(),
        SValue::Function(id) => id < h.closures.len(),
        _ => true,
    }
}

/// Every value of the list is valid.
pub open spec fn values_valid<N>(h: HView<N>, s: Seq<SValue<N>>) -> bool {
    forall|i: int| 0 <= i < s.len() ==> valid_value(h, #[trigger] s[i])
}

/// Every value of the entries is valid.
pub open spec fn entries_valid<N>(h: HView<N>, es: Seq<(Seq<char>, SValue<N>)>) -> bool {
    forall|i: int| 0 <= i < es.len() ==> valid_value(h, #[trigger] es[i].1)
}

/// The scope's values are valid and its enclosing scope exists.
/// No two entries have the same key.
pub open spec fn keys_distinct<N>(es: Seq<(Seq<char>, SValue<N>)>) -> bool {
    forall|i: int, j: int| 0 <= i < j < es.len() ==> #[trigger] es[i].0 != #[trigger] es[j].0
}

/// The values of a dictionary are valid and each key occurs in it at most once.
pub open spec fn dict_valid<N>(h: HView<N>, es: Seq<(Seq<char>, SValue<N>)>) -> bool {
    entries_valid(h, es) && keys_distinct(es)
}

pub open spec fn frame_valid<N>(h: HView<N>, f: SFrame<N>) -> bool {
    &&& entries_valid(h, f.vars)
    &&& f.parent matches Some(p) ==> p < h.frames.len()
}

/// Every value stored in the heap is valid, no dictionary has a key twice,
/// every scope's enclosing scope exists, and every function's scope exists.
pub open spec fn heap_wf<N>(h: HView<N>) -> bool {
    &&& forall|a: int| 0 <= a < h.arrays.len() ==> values_valid(h, #[trigger] h.arrays[a])
    &&& forall|d: int| 0 <= d < h.dicts.len() ==> dict_valid(h, #[trigger] h.dicts[d])
    &&& forall|f: int| 0 <= f < h.frames.len() ==> frame_valid(h, #[trigger] h.frames[f])
    &&& forall|c: int| 0 <= c < h.closures.len() ==> (#[trigger] h.closures[c]).env < h.frames.len()
}

/// The heap is well formed and the current scope exists.
pub open spec fn machine_wf<N>(m: MView<N>) -> bool {
    heap_wf(m.heap) && m.env < m.heap.frames.len()
}

/// Nothing was taken out of the heap.
pub open spec fn grows<N>(h: HView<N>, h2: HView<N>) -> bool {
    &&& h.arrays.len() <= h2.arrays.len()
    &&& h.dicts.len() <= h2.dicts.len()
    &&& h.frames.len() <= h2.frames.len()
    &&& h.closures.len() <= h2.closures.len()
}

proof fn lemma_grows_trans<N>(a: HView<N>, b: HView<N>, c: HView<N>)
    requires
        grows(a, b),
        grows(b, c),
    ensures
        grows(a, c),
{
}

proof fn lemma_values_grow<N>(h: HView<N>, h2: HView<N>, s: Seq<SValue<N>>)
    requires
        values_valid(h, s),
        grows(h, h2),
    ensures
        values_valid(h2, s),
{
    assert forall|i: int| 0 <= i < s.len() implies valid_value(h2, #[trigger] s[i]) by {
        assert(valid_value(h, s[i]));
    }
}

proof fn lemma_entries_grow<N>(h: HView<N>, h2: HView<N>, es: Seq<(Seq<char>, SValue<N>)>)
    requires
        entries_valid(h, es),
        grows(h, h2),
    ensures
        entries_valid(h2, es),
{
    assert forall|i: int| 0 <= i < es.len() implies valid_value(h2, #[trigger] es[i].1) by {
        assert(valid_value(h, es[i].1));
    }
}

/// A heap built from a well-formed one by growing it, where every part that
/// changed is valid in the new heap, is well formed.
proof fn lemma_wf_rebuild<N>(h: HView<N>, h2: HView<N>)
    requires
        heap_wf(h),
        grows(h, h2),
        forall|a: int|
            0 <= a < h2.arrays.len() ==> (a < h.arrays.len() && #[trigger] h2.arrays[a] == h.arrays[a]) || values_valid(h2, h2.arrays[a]),
        forall|d: int|
            0 <= d < h2.dicts.len() ==> (d < h.dicts.len() && #[trigger] h2.dicts[d] == h.dicts[d]) || dict_valid(h2, h2.dicts[d]),
        forall|f: int|
            0 <= f < h2.frames.len() ==> (f < h.frames.len() && #[trigger] h2.frames[f] == h.frames[f]) || frame_valid(h2, h2.frames[f]),
        forall|c: int| 0 <= c < h2.closures.len() ==> (#[trigger] h2.closures[c]).env < h2.frames.len(),
    ensures
        heap_wf(h2),
{
    assert forall|a: int| 0 <= a < h2.arrays.len() implies values_valid(h2, #[trigger] h2.arrays[a]) by {
        if !values_valid(h2, h2.arrays[a]) {
            assert(values_valid(h, h.arrays[a]));
            lemma_values_grow(h, h2, h.arrays[a]);
        }
    }
    assert forall|d: int| 0 <= d < h2.dicts.len() implies dict_valid(h2, #[trigger] h2.dicts[d]) by {
        if !dict_valid(h2, h2.dicts[d]) {
            assert(dict_valid(h, h.dicts[d]));
            lemma_entries_grow(h, h2, h.dicts[d]);
        }
    }
    assert forall|f: int| 0 <= f < h2.frames.len() implies frame_valid(h2, #[trigger] h2.frames[f]) by {
        if !frame_valid(h2, h2.frames[f]) {
            assert(frame_valid(h, h.frames[f]));
            lemma_entries_grow(h, h2, h.frames[f].vars);
        }
    }
}

/// Recording an answer keeps a heap well formed.
proof fn lemma_wf_logged<N>(h: HView<N>, h2: HView<N>)
    requires
        heap_wf(h),
        h2.arrays == h.arrays,
        h2.dicts == h.dicts,
        h2.frames == h.frames,
        h2.closures == h.closures,
    ensures
        heap_wf(h2),
        grows(h, h2),
{
    lemma_wf_rebuild(h, h2);
}

/// Replacing an array by one whose values are valid keeps a heap well formed.
proof fn lemma_wf_set_array<N>(h: HView<N>, id: nat, s: Seq<SValue<N>>)
    requires
        heap_wf(h),
        id < h.arrays.len(),
        values_valid(h, s),
    ensures
        heap_wf(set_array(h, id, s)),
        grows(h, set_array(h, id, s)),
{
    let h2 = set_array(h, id, s);
    lemma_values_grow(h, h2, s);
    lemma_wf_rebuild(h, h2);
}

/// Adding an array whose values are valid keeps a heap well formed.
proof fn lemma_wf_push_array<N>(h: HView<N>, s: Seq<SValue<N>>)
    requires
        heap_wf(h),
        values_valid(h, s),
    ensures
        heap_wf(HView { arrays: h.arrays.push(s), ..h }),
        grows(h, HView { arrays: h.arrays.push(s), ..h }),
{
    let h2 = HView { arrays: h.arrays.push(s), ..h };
    lemma_values_grow(h, h2, s);
    lemma_wf_rebuild(h, h2);
}

proof fn lemma_values_of_strings<N>(h: HView<N>, parts: Seq<Seq<char>>)
    ensures
        values_valid(h, piece_values::<N>(parts)),
{
}

/// Comparing for `contains` only records answers.
proof fn lemma_contains_from_store<N>(h: HView<N>, items: Seq<SValue<N>>, target: SValue<N>, i: int, orc: Seq<Outcome<N>>)
    ensures
        spec_contains_from(h, items, target, i, orc).0.arrays == h.arrays,
        spec_contains_from(h, items, target, i, orc).0.dicts == h.dicts,
        spec_contains_from(h, items, target, i, orc).0.frames == h.frames,
        spec_contains_from(h, items, target, i, orc).0.closures == h.closures,
    decreases items.len() - i,
{
    if 0 <= i < items.len() {
        let (h1, eq) = spec_equals(h, items[i], target, orc);
        if !eq {
            lemma_contains_from_store(h1, items, target, i + 1, orc);
        }
    }
}

/// A builtin on valid arguments in a well-formed heap keeps it well formed,
/// gives a valid value, and never meets a dangling handle.
pub proof fn lemma_builtin_wf<N>(h: HView<N>, b: Builtin, a: Seq<SValue<N>>, orc: Seq<Outcome<N>>)
    requires
        heap_wf(h),
        a.len() == arity(b),
        values_valid(h, a),
    ensures
        heap_wf(spec_apply_builtin(h, b, a, orc).0),
        grows(h, spec_apply_builtin(h, b, a, orc).0),
        spec_apply_builtin(h, b, a, orc).1 matches Ok(v) ==> valid_value(spec_apply_builtin(h, b, a, orc).0, v),
        spec_apply_builtin(h, b, a, orc).1 != Err::<SValue<N>, RuntimeError>(RuntimeError::Dangling),
{
    let (h2, r) = spec_apply_builtin(h, b, a, orc);
    assert(valid_value(h, a[0]));
    if a.len() > 1 {
        assert(valid_value(h, a[1]));
    }
    if a.len() > 2 {
        assert(valid_value(h, a[2]));
    }
    match b {
        Builtin::Len => {
            lemma_wf_logged(h, h2);
        },
        Builtin::Push => {
            if let SValue::Array(id) = a[0] {
                let arr = h.arrays[id as int];
                assert(values_valid(h, arr));
                assert(values_valid(h, arr.push(a[1]))) by {
                    assert forall|i: int| 0 <= i < arr.push(a[1]).len() implies valid_value(h, #[trigger] arr.push(a[1])[i]) by {
                        if i < arr.len() {
                            assert(arr.push(a[1])[i] == arr[i]);
                        }
                    }
                }
                lemma_wf_set_array(h, id, arr.push(a[1]));
            }
        },
        Builtin::Pop => {
            if let SValue::Array(id) = a[0] {
                let arr = h.arrays[id as int];
                assert(values_valid(h, arr));
                if arr.len() > 0 {
                    assert(valid_value(h, arr[arr.len() - 1]));
                    assert(values_valid(h, arr.drop_last())) by {
                        assert forall|i: int| 0 <= i < arr.drop_last().len() implies valid_value(h, #[trigger] arr.drop_last()[i]) by {
                            assert(arr.drop_last()[i] == arr[i]);
                        }
                    }
                    lemma_wf_set_array(h, id, arr.drop_last());
                }
            }
        },
        Builtin::Insert => {
            if let (SValue::Array(id), SValue::Number(n)) = (a[0], a[1]) {
                let arr = h.arrays[id as int];
                let h1 = crate::value::logged(h, Outcome::Index(n, crate::value::answer_index(crate::value::ask(h, orc))));
                lemma_wf_logged(h, h1);
                let i = crate::value::answer_index(crate::value::ask(h, orc));
                if i <= arr.len() {
                    assert(values_valid(h, arr));
                    let ins = arr.insert(i as int, a[2]);
                    assert(values_valid(h1, ins)) by {
                        assert forall|k: int| 0 <= k < ins.len() implies valid_value(h1, #[trigger] ins[k]) by {
                            if k < i {
                                assert(ins[k] == arr[k]);
                            } else if k > i {
                                assert(ins[k] == arr[k - 1]);
                            }
                        }
                    }
                    lemma_wf_set_array(h1, id, ins);
                }
            }
        },
        Builtin::Remove => {
            if let (SValue::Array(id), SValue::Number(n)) = (a[0], a[1]) {
                let arr = h.arrays[id as int];
                let h1 = crate::value::logged(h, Outcome::Index(n, crate::value::answer_index(crate::value::ask(h, orc))));
                lemma_wf_logged(h, h1);
                let i = crate::value::answer_index(crate::value::ask(h, orc));
                if i < arr.len() {
                    assert(values_valid(h, arr));
                    assert(valid_value(h, arr[i as int]));
                    let rem = arr.remove(i as int);
                    assert(values_valid(h1, rem)) by {
                        assert forall|k: int| 0 <= k < rem.len() implies valid_value(h1, #[trigger] rem[k]) by {
                            if k < i {
                                assert(rem[k] == arr[k]);
                            } else {
                                assert(rem[k] == arr[k + 1]);
                            }
                        }
                    }
                    lemma_wf_set_array(h1, id, rem);
                }
            }
        },
        Builtin::Clear => {
            match a[0] {
                SValue::Array(id) => {
                    lemma_wf_set_array(h, id, Seq::empty());
                },
                SValue::Dictionary(id) => {
                    if id < h.dicts.len() {
                        lemma_wf_rebuild(h, h2);
                    }
                },
                _ => {},
            }
        },
        Builtin::Reverse => {
            if let SValue::Array(id) = a[0] {
                if id < h.arrays.len() {
                    let arr = h.arrays[id as int];
                    assert(values_valid(h, arr));
                    assert(values_valid(h, arr.reverse())) by {
                        assert forall|k: int| 0 <= k < arr.reverse().len() implies valid_value(h, #[trigger] arr.reverse()[k]) by {
                            assert(arr.reverse()[k] == arr[arr.len() - 1 - k]);
                        }
                    }
                    lemma_wf_set_array(h, id, arr.reverse());
                }
            }
        },
        Builtin::First | Builtin::Last => {
            if let SValue::Array(id) = a[0] {
                if id < h.arrays.len() {
                    let arr = h.arrays[id as int];
                    assert(values_valid(h, arr));
                    if arr.len() > 0 {
                        assert(valid_value(h, arr[0]));
                        assert(valid_value(h, arr[arr.len() - 1]));
                    }
                }
            }
        },
        Builtin::Contains => {
            if let SValue::Array(id) = a[0] {
                if id < h.arrays.len() {
                    lemma_contains_from_store(h, h.arrays[id as int], a[1], 0, orc);
                    lemma_wf_logged(h, h2);
                }
            }
        },
        Builtin::Split => {
            if let (SValue::Str(s), SValue::Str(sep)) = (a[0], a[1]) {
                lemma_values_of_strings(h, crate::builtin::string::split_parts(s, sep));
                lemma_wf_push_array(h, piece_values(crate::builtin::string::split_parts(s, sep)));
            }
        },
        Builtin::Keys => {
            if let SValue::Dictionary(id) = a[0] {
                if id < h.dicts.len() {
                    let es = h.dicts[id as int];
                    lemma_wf_push_array(h, Seq::new(es.len(), |i: int| SValue::<N>::Str(es[i].0)));
                }
            }
        },
        Builtin::Values => {
            if let SValue::Dictionary(id) = a[0] {
                if id < h.dicts.len() {
                    let es = h.dicts[id as int];
                    assert(entries_valid(h, es));
                    let vs = Seq::new(es.len(), |i: int| es[i].1);
                    assert(values_valid(h, vs)) by {
                        assert forall|k: int| 0 <= k < vs.len() implies valid_value(h, #[trigger] vs[k]) by {
                            assert(valid_value(h, es[k].1));
                        }
                    }
                    lemma_wf_push_array(h, vs);
                }
            }
        },
        Builtin::RemoveKey => {
            if let (SValue::Dictionary(id), SValue::Str(k)) = (a[0], a[1]) {
                if id < h.dicts.len() {
                    let es = h.dicts[id as int];
                    assert(dict_valid(h, es));
                    if let Some(i) = find_key(es, k, 0) {
                        crate::builtin::dictionary::lemma_find_key(es, k, 0);
                        assert(valid_value(h, es[i as int].1));
                        let rem = es.remove(i as int);
                        assert(entries_valid(h2, rem)) by {
                            assert forall|j: int| 0 <= j < rem.len() implies valid_value(h2, #[trigger] rem[j].1) by {
                                if j < i {
                                    assert(rem[j] == es[j]);
                                } else {
                                    assert(rem[j] == es[j + 1]);
                                }
                            }
                        }
                        assert(keys_distinct(rem)) by {
                            assert forall|a: int, b: int| 0 <= a < b < rem.len() implies #[trigger] rem[a].0 != #[trigger] rem[b].0 by {
                                let a2 = if a < i { a } else { a + 1 };
                                let b2 = if b < i { b } else { b + 1 };
                                assert(rem[a] == es[a2] && rem[b] == es[b2]);
                                assert(es[a2].0 != es[b2].0);
                            }
                        }
                        lemma_wf_rebuild(h, h2);
                    }
                }
            }
        },
        _ => {},
    }
}

/// Arithmetic, comparisons and truth tests only record answers.
proof fn lemma_binary_store<N>(h: HView<N>, l: SValue<N>, op: Seq<char>, r: SValue<N>, orc: Seq<Outcome<N>>)
    ensures
        spec_eval_binary(h, l, op, r, orc).0.arrays == h.arrays,
        spec_eval_binary(h, l, op, r, orc).0.dicts == h.dicts,
        spec_eval_binary(h, l, op, r, orc).0.frames == h.frames,
        spec_eval_binary(h, l, op, r, orc).0.closures == h.closures,
        spec_eval_binary(h, l, op, r, orc).1 matches Ok(v) ==> (v is Number || v is Boolean || v is Null),
        spec_eval_binary(h, l, op, r, orc).1 != Err::<SValue<N>, RuntimeError>(RuntimeError::Dangling),
{
}

/// What a name reads in a well-formed heap is valid.
proof fn lemma_lookup_valid<N>(h: HView<N>, f: int, name: Seq<char>, steps: nat)
    requires
        heap_wf(h),
    ensures
        spec_lookup(h.frames, f, name, steps) matches Some(v) ==> valid_value(h, v),
    decreases steps,
{
    if steps > 0 && 0 <= f < h.frames.len() {
        let fr = h.frames[f];
        assert(frame_valid(h, fr));
        crate::builtin::dictionary::lemma_find_key(fr.vars, name, 0);
        match find_key(fr.vars, name, 0) {
            Some(i) => {
                assert(valid_value(h, fr.vars[i as int].1));
            },
            None => {
                if let Some(p) = fr.parent {
                    lemma_lookup_valid(h, p as int, name, (steps - 1) as nat);
                }
            },
        }
    }
}

/// The scope that binds a name exists.
proof fn lemma_owner_live<N>(fs: Seq<SFrame<N>>, f: int, name: Seq<char>, steps: nat)
    ensures
        spec_owner(fs, f, name, steps) matches Some(o) ==> o < fs.len(),
    decreases steps,
{
    if steps > 0 && 0 <= f < fs.len() {
        if let Some(p) = fs[f].parent {
            lemma_owner_live(fs, p as int, name, (steps - 1) as nat);
        }
    }
}

/// Binding a valid value in an existing scope succeeds and keeps the heap well formed.
proof fn lemma_define_wf<N>(h: HView<N>, f: nat, name: Seq<char>, v: SValue<N>)
    requires
        heap_wf(h),
        f < h.frames.len(),
        valid_value(h, v),
    ensures
        spec_define(h, f, name, v) is Ok,
        heap_wf(spec_define(h, f, name, v)->Ok_0),
        grows(h, spec_define(h, f, name, v)->Ok_0),
{
    let fr = h.frames[f as int];
    let h2 = spec_define(h, f, name, v)->Ok_0;
    assert(frame_valid(h, fr));
    crate::builtin::dictionary::lemma_find_key(fr.vars, name, 0);
    let b = bind_in(fr.vars, name, v);
    assert(entries_valid(h2, b)) by {
        assert forall|j: int| 0 <= j < b.len() implies valid_value(h2, #[trigger] b[j].1) by {
            match find_key(fr.vars, name, 0) {
                Some(i) => {
                    if j != i {
                        assert(b[j] == fr.vars[j]);
                        assert(valid_value(h, fr.vars[j].1));
                    }
                },
                None => {
                    if j < fr.vars.len() {
                        assert(b[j] == fr.vars[j]);
                        assert(valid_value(h, fr.vars[j].1));
                    }
                },
            }
        }
    }
    assert(frame_valid(h2, h2.frames[f as int]));
    lemma_wf_rebuild(h, h2);
}

/// Assigning a valid value succeeds and keeps the heap well formed.
proof fn lemma_assign_wf<N>(h: HView<N>, env: nat, name: Seq<char>, v: SValue<N>)
    requires
        heap_wf(h),
        env < h.frames.len(),
        valid_value(h, v),
    ensures
        spec_assign(h, env, name, v) is Ok,
        heap_wf(spec_assign(h, env, name, v)->Ok_0),
        grows(h, spec_assign(h, env, name, v)->Ok_0),
{
    lemma_owner_live(h.frames, env as int, name, h.frames.len());
    match spec_owner(h.frames, env as int, name, h.frames.len()) {
        Some(o) => lemma_define_wf(h, o, name, v),
        None => lemma_define_wf(h, env, name, v),
    }
}

/// Printing a valid value in a well-formed heap never meets a dangling handle.
proof fn lemma_render_not_dangling<N>(h: HView<N>, v: SValue<N>, depth: nat)
    requires
        heap_wf(h),
        valid_value(h, v),
    ensures
        spec_render(h, v, depth) != Err::<Seq<SPiece<N>>, RuntimeError>(RuntimeError::Dangling),
    decreases depth, 0nat,
{
    match v {
        SValue::Array(id) => {
            if depth > 0 {
                lemma_items_not_dangling(h, h.arrays[id as int], 0, (depth - 1) as nat);
            }
        },
        SValue::Dictionary(id) => {
            if depth > 0 {
                lemma_entries_not_dangling(h, h.dicts[id as int], 0, (depth - 1) as nat);
            }
        },
        _ => {},
    }
}

proof fn lemma_items_not_dangling<N>(h: HView<N>, items: Seq<SValue<N>>, i: int, depth: nat)
    requires
        heap_wf(h),
        values_valid(h, items),
    ensures
        spec_render_items(h, items, i, depth) != Err::<Seq<SPiece<N>>, RuntimeError>(RuntimeError::Dangling),
    decreases depth, items.len() - i + 1,
{
    if 0 <= i < items.len() {
        assert(valid_value(h, items[i]));
        lemma_render_not_dangling(h, items[i], depth);
        lemma_items_not_dangling(h, items, i + 1, depth);
    }
}

proof fn lemma_entries_not_dangling<N>(h: HView<N>, es: Seq<(Seq<char>, SValue<N>)>, i: int, depth: nat)
    requires
        heap_wf(h),
        entries_valid(h, es),
    ensures
        spec_render_entries(h, es, i, depth) != Err::<Seq<SPiece<N>>, RuntimeError>(RuntimeError::Dangling),
    decreases depth, es.len() - i + 1,
{
    if 0 <= i < es.len() {
        assert(valid_value(h, es[i].1));
        lemma_render_not_dangling(h, es[i].1, depth);
        lemma_entries_not_dangling(h, es, i + 1, depth);
    }
}

/// The machine after a step is well formed and holds all it held before.
pub open spec fn kept_wf<N>(before: MView<N>, after: MView<N>) -> bool {
    machine_wf(after) && grows(before.heap, after.heap)
}

/// Evaluating an expression in a well-formed machine keeps it well formed,
/// gives a valid value, and never meets a dangling handle.
pub proof fn lemma_eval_wf<N>(m: MView<N>, e: SExpr, fuel: nat, orc: Seq<Outcome<N>>)
    requires
        machine_wf(m),
    ensures
        kept_wf(m, spec_eval(m, e, fuel, orc).0),
        spec_eval(m, e, fuel, orc).1 matches Ok(v) ==> valid_value(spec_eval(m, e, fuel, orc).0.heap, v),
        spec_eval(m, e, fuel, orc).1 != Err::<SValue<N>, RuntimeError>(RuntimeError::Dangling),
    decreases fuel, e, 0nat,
{
    lemma_eval_keeps_scope(m, e, fuel, orc);
    match e {
        SExpr::Number(d) => {
            let h1 = spec_eval(m, e, fuel, orc).0.heap;
            lemma_wf_logged(m.heap, h1);
        },
        SExpr::Identifier(name) => {
            lemma_lookup_valid(m.heap, m.env as int, name, m.heap.frames.len());
        },
        SExpr::Binary(l, op, r) => {
            lemma_eval_wf(m, *l, fuel, orc);
            let (m1, lv) = spec_eval(m, *l, fuel, orc);
            if lv is Ok {
                lemma_eval_keeps_scope(m, *l, fuel, orc);
                lemma_eval_wf(m1, *r, fuel, orc);
                let (m2, rv) = spec_eval(m1, *r, fuel, orc);
                lemma_grows_trans(m.heap, m1.heap, m2.heap);
                if rv is Ok {
                    lemma_binary_store(m2.heap, lv->Ok_0, op, rv->Ok_0, orc);
                    lemma_wf_logged(m2.heap, spec_eval_binary(m2.heap, lv->Ok_0, op, rv->Ok_0, orc).0);
                }
            }
        },
        SExpr::Unary(op, r) => {
            lemma_eval_wf(m, *r, fuel, orc);
            let (m1, v) = spec_eval(m, *r, fuel, orc);
            if v is Ok {
                let h2 = spec_eval(m, e, fuel, orc).0.heap;
                if h2 != m1.heap {
                    lemma_wf_logged(m1.heap, h2);
                    lemma_grows_trans(m.heap, m1.heap, h2);
                }
            }
        },
        SExpr::Array(elements) => {
            lemma_list_wf(m, elements, 0, Seq::empty(), fuel, orc);
            let (m1, vs) = spec_eval_list(m, elements, 0, Seq::empty(), fuel, orc);
            if vs is Ok {
                lemma_wf_push_array(m1.heap, vs->Ok_0);
                lemma_grows_trans(m.heap, m1.heap, HView { arrays: m1.heap.arrays.push(vs->Ok_0), ..m1.heap });
            }
        },
        SExpr::Index(object, index) => {
            lemma_eval_wf(m, *object, fuel, orc);
            let (m1, o) = spec_eval(m, *object, fuel, orc);
            if o is Ok {
                lemma_eval_keeps_scope(m, *object, fuel, orc);
                lemma_eval_wf(m1, *index, fuel, orc);
                let (m2, i) = spec_eval(m1, *index, fuel, orc);
                lemma_grows_trans(m.heap, m1.heap, m2.heap);
                if i is Ok {
                    match (o->Ok_0, i->Ok_0) {
                        (SValue::Array(id), SValue::Number(n)) => {
                            let k = crate::value::answer_index(crate::value::ask(m2.heap, orc));
                            let h3 = crate::value::logged(m2.heap, Outcome::Index(n, k));
                            lemma_wf_logged(m2.heap, h3);
                            let a = m2.heap.arrays[id as int];
                            assert(values_valid(m2.heap, a));
                            if k < a.len() {
                                assert(valid_value(m2.heap, a[k as int]));
                            }
                        },
                        (SValue::Dictionary(id), SValue::Str(key)) => {
                            let es = m2.heap.dicts[id as int];
                            assert(entries_valid(m2.heap, es));
                            crate::builtin::dictionary::lemma_find_key(es, key, 0);
                            if let Some(j) = find_key(es, key, 0) {
                                assert(valid_value(m2.heap, es[j as int].1));
                            }
                        },
                        _ => {},
                    }
                }
            }
        },
        SExpr::Call(callee, args) => {
            let builtin = match *callee {
                SExpr::Identifier(name) => builtin_named(name),
                _ => None,
            };
            match builtin {
                Some(b) => {
                    if args.len() == arity(b) {
                        lemma_list_wf(m, args, 0, Seq::empty(), fuel, orc);
                        let (m1, vs) = spec_eval_list(m, args, 0, Seq::empty(), fuel, orc);
                        if vs is Ok {
                            lemma_eval_list_len(m, args, 0, Seq::empty(), fuel, orc);
                            lemma_builtin_wf(m1.heap, b, vs->Ok_0, orc);
                            lemma_grows_trans(m.heap, m1.heap, spec_apply_builtin(m1.heap, b, vs->Ok_0, orc).0);
                        }
                    }
                },
                None => {
                    lemma_eval_wf(m, *callee, fuel, orc);
                    let (m1, f) = spec_eval(m, *callee, fuel, orc);
                    if let Ok(SValue::Function(id)) = f {
                        lemma_eval_keeps_scope(m, *callee, fuel, orc);
                        lemma_call_wf(m1, id, args, fuel, orc);
                        lemma_grows_trans(m.heap, m1.heap, spec_call_closure(m1, id, args, fuel, orc).0.heap);
                    }
                },
            }
        },
        _ => {},
    }
}

/// A call of a valid function keeps the machine well formed, gives a valid
/// value, and never meets a dangling handle.
pub proof fn lemma_call_wf<N>(m: MView<N>, id: nat, args: Seq<SExpr>, fuel: nat, orc: Seq<Outcome<N>>)
    requires
        machine_wf(m),
        id < m.heap.closures.len(),
    ensures
        kept_wf(m, spec_call_closure(m, id, args, fuel, orc).0),
        spec_call_closure(m, id, args, fuel, orc).1 matches Ok(v) ==> valid_value(spec_call_closure(m, id, args, fuel, orc).0.heap, v),
        spec_call_closure(m, id, args, fuel, orc).1 != Err::<SValue<N>, RuntimeError>(RuntimeError::Dangling),
    decreases fuel, args, args.len() + 1,
{
    let c = m.heap.closures[id as int];
    if c.params.len() == args.len() && fuel > 0 {
        let frame = m.heap.frames.len();
        let h1 = HView { frames: m.heap.frames.push(SFrame { vars: Seq::empty(), parent: Some(c.env) }), ..m.heap };
        let m2 = with_heap(m, h1);
        assert(c.env < m.heap.frames.len());
        assert(frame_valid(h1, h1.frames[frame as int]));
        lemma_wf_rebuild(m.heap, h1);
        lemma_bind_wf(m2, args, c.params, frame, 0, fuel, orc);
        lemma_bind_keeps_scope(m2, args, c.params, frame, 0, fuel, orc);
        let (m3, bound) = spec_bind_args(m2, args, c.params, frame, 0, fuel, orc);
        lemma_grows_trans(m.heap, m2.heap, m3.heap);
        if bound is Ok {
            let inner = with_env(m3, frame);
            lemma_block_wf(inner, c.body, 0, (fuel - 1) as nat, orc);
            let m4 = spec_block(inner, c.body, 0, (fuel - 1) as nat, orc).0;
            lemma_grows_trans(m.heap, m3.heap, m4.heap);
        }
    }
}

/// Evaluating a list keeps the machine well formed and gives valid values.
pub proof fn lemma_list_wf<N>(m: MView<N>, es: Seq<SExpr>, i: int, acc: Seq<SValue<N>>, fuel: nat, orc: Seq<Outcome<N>>)
    requires
        machine_wf(m),
        values_valid(m.heap, acc),
    ensures
        kept_wf(m, spec_eval_list(m, es, i, acc, fuel, orc).0),
        spec_eval_list(m, es, i, acc, fuel, orc).1 matches Ok(vs) ==> values_valid(spec_eval_list(m, es, i, acc, fuel, orc).0.heap, vs),
        spec_eval_list(m, es, i, acc, fuel, orc).1 != Err::<Seq<SValue<N>>, RuntimeError>(RuntimeError::Dangling),
    decreases fuel, es, es.len() - i,
{
    if 0 <= i < es.len() {
        lemma_eval_wf(m, es[i], fuel, orc);
        let (m1, v) = spec_eval(m, es[i], fuel, orc);
        if v is Ok {
            lemma_values_grow(m.heap, m1.heap, acc);
            let acc2 = acc.push(v->Ok_0);
            assert(values_valid(m1.heap, acc2)) by {
                assert forall|k: int| 0 <= k < acc2.len() implies valid_value(m1.heap, #[trigger] acc2[k]) by {
                    if k < acc.len() {
                        assert(acc2[k] == acc[k]);
                    }
                }
            }
            lemma_list_wf(m1, es, i + 1, acc2, fuel, orc);
            lemma_grows_trans(m.heap, m1.heap, spec_eval_list(m1, es, i + 1, acc2, fuel, orc).0.heap);
        }
    }
}

/// Binding arguments in an existing scope keeps the machine well formed.
pub proof fn lemma_bind_wf<N>(m: MView<N>, args: Seq<SExpr>, params: Seq<Seq<char>>, frame: nat, i: int, fuel: nat, orc: Seq<Outcome<N>>)
    requires
        machine_wf(m),
        frame < m.heap.frames.len(),
    ensures
        kept_wf(m, spec_bind_args(m, args, params, frame, i, fuel, orc).0),
        spec_bind_args(m, args, params, frame, i, fuel, orc).1 != Err::<(), RuntimeError>(RuntimeError::Dangling),
    decreases fuel, args, args.len() - i,
{
    if 0 <= i < args.len() {
        lemma_eval_wf(m, args[i], fuel, orc);
        lemma_eval_keeps_scope(m, args[i], fuel, orc);
        let (m1, v) = spec_eval(m, args[i], fuel, orc);
        if v is Ok {
            lemma_define_wf(m1.heap, frame, params[i], v->Ok_0);
            let m2 = with_heap(m1, spec_define(m1.heap, frame, params[i], v->Ok_0)->Ok_0);
            lemma_bind_wf(m2, args, params, frame, i + 1, fuel, orc);
            lemma_grows_trans(m.heap, m1.heap, m2.heap);
            lemma_grows_trans(m.heap, m2.heap, spec_bind_args(m2, args, params, frame, i + 1, fuel, orc).0.heap);
        }
    }
}

/// How a statement ended, for a well-formed machine: a returned value is
/// valid, and no failure comes from a dangling handle.
pub open spec fn ended_wf<N>(after: MView<N>, r: Result<(), SSignal<N>>) -> bool {
    &&& r != Err::<(), SSignal<N>>(SSignal::Failure(RuntimeError::Dangling))
    &&& r matches Err(SSignal::Return(v)) ==> valid_value(after.heap, v)
}

/// Running statements keeps the machine well formed.
pub proof fn lemma_block_wf<N>(m: MView<N>, stmts: Seq<SStmt>, i: int, fuel: nat, orc: Seq<Outcome<N>>)
    requires
        machine_wf(m),
    ensures
        kept_wf(m, spec_block(m, stmts, i, fuel, orc).0),
        ended_wf(spec_block(m, stmts, i, fuel, orc).0, spec_block(m, stmts, i, fuel, orc).1),
    decreases fuel, stmts, stmts.len() - i,
{
    if 0 <= i < stmts.len() {
        lemma_exec_wf(m, stmts[i], fuel, orc);
        let (m1, r) = spec_exec(m, stmts[i], fuel, orc);
        if r is Ok {
            lemma_block_wf(m1, stmts, i + 1, fuel, orc);
            lemma_grows_trans(m.heap, m1.heap, spec_block(m1, stmts, i + 1, fuel, orc).0.heap);
        }
    }
}

/// A statement keeps the machine well formed.
pub proof fn lemma_exec_wf<N>(m: MView<N>, s: SStmt, fuel: nat, orc: Seq<Outcome<N>>)
    requires
        machine_wf(m),
    ensures
        kept_wf(m, spec_exec(m, s, fuel, orc).0),
        ended_wf(spec_exec(m, s, fuel, orc).0, spec_exec(m, s, fuel, orc).1),
    decreases fuel, s, fuel + 1,
{
    lemma_exec_keeps_scope(m, s, fuel, orc);
    match s {
        SStmt::Let(name, value) => {
            lemma_eval_wf(m, *value, fuel, orc);
            lemma_eval_keeps_scope(m, *value, fuel, orc);
            let (m1, v) = spec_eval(m, *value, fuel, orc);
            if v is Ok {
                lemma_define_wf(m1.heap, m1.env, name, v->Ok_0);
                lemma_grows_trans(m.heap, m1.heap, spec_define(m1.heap, m1.env, name, v->Ok_0)->Ok_0);
            }
        },
        SStmt::Assign(name, value) => {
            lemma_eval_wf(m, *value, fuel, orc);
            lemma_eval_keeps_scope(m, *value, fuel, orc);
            let (m1, v) = spec_eval(m, *value, fuel, orc);
            if v is Ok {
                lemma_assign_wf(m1.heap, m1.env, name, v->Ok_0);
                lemma_grows_trans(m.heap, m1.heap, spec_assign(m1.heap, m1.env, name, v->Ok_0)->Ok_0);
            }
        },
        SStmt::Print(value) => {
            lemma_eval_wf(m, *value, fuel, orc);
            let (m1, v) = spec_eval(m, *value, fuel, orc);
            if v is Ok {
                lemma_render_not_dangling(m1.heap, v->Ok_0, render_depth(m1.heap));
            }
        },
        SStmt::If(cond, then_branch, else_branch) => {
            lemma_eval_wf(m, *cond, fuel, orc);
            lemma_eval_keeps_scope(m, *cond, fuel, orc);
            let (m1, c) = spec_eval(m, *cond, fuel, orc);
            if c is Ok {
                let h2 = spec_truthy(m1.heap, c->Ok_0, orc).0;
                lemma_wf_logged(m1.heap, h2);
                let m2 = with_heap(m1, h2);
                lemma_block_wf(m2, then_branch, 0, fuel, orc);
                lemma_grows_trans(m.heap, m2.heap, spec_block(m2, then_branch, 0, fuel, orc).0.heap);
                if let Some(b) = else_branch {
                    lemma_block_wf(m2, b, 0, fuel, orc);
                    lemma_grows_trans(m.heap, m2.heap, spec_block(m2, b, 0, fuel, orc).0.heap);
                }
            }
        },
        SStmt::While(_, _) => {
            lemma_while_wf(m, s, fuel, fuel, orc);
        },
        SStmt::For(init, _, _, _) => {
            lemma_exec_wf(m, *init, fuel, orc);
            lemma_exec_keeps_scope(m, *init, fuel, orc);
            let (m1, r) = spec_exec(m, *init, fuel, orc);
            if r is Ok {
                lemma_for_wf(m1, s, fuel, fuel, orc);
                lemma_grows_trans(m.heap, m1.heap, spec_for(m1, s, fuel, fuel, orc).0.heap);
            }
        },
        SStmt::Function(name, params, body) => {
            let id = m.heap.closures.len();
            let h1 = HView { closures: m.heap.closures.push(SClosure { params, body, env: m.env }), ..m.heap };
            lemma_wf_rebuild(m.heap, h1);
            lemma_define_wf(h1, m.env, name, SValue::Function(id));
        },
        SStmt::Return(value) | SStmt::Expression(value) => {
            lemma_eval_wf(m, *value, fuel, orc);
        },
        _ => {},
    }
}

/// A `while` loop keeps the machine well formed.
pub proof fn lemma_while_wf<N>(m: MView<N>, s: SStmt, fuel: nat, k: nat, orc: Seq<Outcome<N>>)
    requires
        machine_wf(m),
    ensures
        kept_wf(m, spec_while(m, s, fuel, k, orc).0),
        ended_wf(spec_while(m, s, fuel, k, orc).0, spec_while(m, s, fuel, k, orc).1),
    decreases fuel, s, k,
{
    if let SStmt::While(cond, body) = s {
        if k > 0 {
            lemma_eval_wf(m, *cond, fuel, orc);
            lemma_eval_keeps_scope(m, *cond, fuel, orc);
            let (m1, c) = spec_eval(m, *cond, fuel, orc);
            if c is Ok {
                let h2 = spec_truthy(m1.heap, c->Ok_0, orc).0;
                lemma_wf_logged(m1.heap, h2);
                let m2 = with_heap(m1, h2);
                lemma_block_wf(m2, body, 0, fuel, orc);
                let m3 = spec_block(m2, body, 0, fuel, orc).0;
                lemma_grows_trans(m.heap, m2.heap, m3.heap);
                lemma_while_wf(m3, s, fuel, (k - 1) as nat, orc);
                lemma_grows_trans(m.heap, m3.heap, spec_while(m3, s, fuel, (k - 1) as nat, orc).0.heap);
            }
        }
    }
}

/// A `for` loop, after its start, keeps the machine well formed.
pub proof fn lemma_for_wf<N>(m: MView<N>, s: SStmt, fuel: nat, k: nat, orc: Seq<Outcome<N>>)
    requires
        machine_wf(m),
    ensures
        kept_wf(m, spec_for(m, s, fuel, k, orc).0),
        ended_wf(spec_for(m, s, fuel, k, orc).0, spec_for(m, s, fuel, k, orc).1),
    decreases fuel, s, k,
{
    if let SStmt::For(_, cond, update, body) = s {
        if k > 0 {
            lemma_eval_wf(m, *cond, fuel, orc);
            lemma_eval_keeps_scope(m, *cond, fuel, orc);
            let (m1, c) = spec_eval(m, *cond, fuel, orc);
            if c is Ok {
                let h2 = spec_truthy(m1.heap, c->Ok_0, orc).0;
                lemma_wf_logged(m1.heap, h2);
                let m2 = with_heap(m1, h2);
                lemma_block_wf(m2, body, 0, fuel, orc);
                let m3 = spec_block(m2, body, 0, fuel, orc).0;
                lemma_grows_trans(m.heap, m2.heap, m3.heap);
                lemma_exec_wf(m3, *update, fuel, orc);
                let m4 = spec_exec(m3, *update, fuel, orc).0;
                lemma_grows_trans(m.heap, m3.heap, m4.heap);
                lemma_for_wf(m4, s, fuel, (k - 1) as nat, orc);
                lemma_grows_trans(m.heap, m4.heap, spec_for(m4, s, fuel, (k - 1) as nat, orc).0.heap);
            }
        }
    }
}

/// The machine a program starts on is well formed.
pub proof fn lemma_fresh_machine_wf<N>()
    ensures
        machine_wf(fresh_machine::<N>()),
{
    let m = fresh_machine::<N>();
    assert(frame_valid(m.heap, m.heap.frames[0]));
}

/// A program run on a well-formed machine (such as the one a program starts
/// on) never fails because of a dangling handle, and leaves the machine well formed.
pub proof fn lemma_run_never_dangles<N>(m: MView<N>, program: Seq<SStmt>, fuel: nat, orc: Seq<Outcome<N>>)
    requires
        machine_wf(m),
    ensures
        spec_run(m, program, fuel, orc).1 != Err::<(), RuntimeError>(RuntimeError::Dangling),
        machine_wf(spec_run(m, program, fuel, orc).0),
{
    lemma_block_wf(m, program, 0, fuel, orc);
}

/// In a well-formed heap, `keys` gives each key of the dictionary exactly
/// once: the new array holds one string per entry, no two alike, and a text
/// is among them exactly when the dictionary has an entry for it.
pub proof fn lemma_keys_each_once<N>(h: HView<N>, d: SValue<N>)
    requires
        heap_wf(h),
        spec_keys(h, d).1 is Ok,
    ensures
        ({
            let (h2, r) = spec_keys(h, d);
            let ks = h2.arrays[h.arrays.len() as int];
            let es = h.dicts[d->Dictionary_0 as int];
            &&& r == Ok::<SValue<N>, RuntimeError>(SValue::Array(h.arrays.len()))
            &&& ks.len() == es.len()
            &&& forall|i: int, j: int| 0 <= i < j < ks.len() ==> #[trigger] ks[i] != #[trigger] ks[j]
            &&& forall|k: Seq<char>| (exists|i: int| 0 <= i < ks.len() && #[trigger] ks[i] == SValue::<N>::Str(k))
                <==> find_key(es, k, 0) is Some
        }),
{
    let id = d->Dictionary_0;
    let es = h.dicts[id as int];
    assert(dict_valid(h, es));
    let (h2, r) = spec_keys(h, d);
    let ks = h2.arrays[h.arrays.len() as int];
    assert(ks == Seq::new(es.len(), |i: int| SValue::<N>::Str(es[i].0)));
    assert forall|i: int, j: int| 0 <= i < j < ks.len() implies #[trigger] ks[i] != #[trigger] ks[j] by {
        assert(es[i].0 != es[j].0);
    }
    assert forall|k: Seq<char>| (exists|i: int| 0 <= i < ks.len() && #[trigger] ks[i] == SValue::<N>::Str(k))
        <==> find_key(es, k, 0) is Some by {
        crate::laws::lemma_find_key_first(es, k, 0);
        if find_key(es, k, 0) is Some {
            let j = find_key(es, k, 0)->Some_0 as int;
            assert(ks[j] == SValue::<N>::Str(k));
        }
    }
}

} // verus!
