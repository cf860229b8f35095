//! Builtins on arrays (and `len` on strings).
use vstd::prelude::*;
use crate::equality::{equals, spec_equals};
use crate::value::{honest_growth, 
    answer_index, answer_num, ask, extends, lemma_extends_refl, lemma_extends_trans, lemma_logged, logged, reply_view,
    Builtin, HView, Heap, Number, Outcome, RuntimeError, SValue, Value,
};

verus! {

/// `h` with array `id` holding `a`.
pub open spec fn set_array<N>(h: HView<N>, id: nat, a: Seq<SValue<N>>) -> HView<N> {
    HView { arrays: h.arrays.update(id as int, a), ..h }
}

/// The number of bytes that UTF-8 takes for a text.
pub open spec fn byte_len(s: Seq<char>) -> nat {
    vstd::utf8::encode_utf8(s).len()
}

/// `len`: the number of elements of an array or of bytes of a string, as a number.
pub open spec fn spec_len<N>(h: HView<N>, value: SValue<N>, orc: Seq<Outcome<N>>) -> (HView<N>, Result<SValue<N>, RuntimeError>) {
    match value {
        SValue::Array(id) => if id < h.arrays.len() {
            let n = answer_num(ask(h, orc));
            (logged(h, Outcome::Count(h.arrays[id as int].len() as usize, n)), Ok(SValue::Number(n)))
        } else {
            (h, Err(RuntimeError::Dangling))
        },
        SValue::Str(s) => {
            let n = answer_num(ask(h, orc));
            (logged(h, Outcome::Count(byte_len(s) as usize, n)), Ok(SValue::Number(n)))
        },
        _ => (h, Err(RuntimeError::WrongArgument(Builtin::Len))),
    }
}

/// The number of elements of an array, or of bytes of a string.
pub fn len<N: Number>(heap: &mut Heap<N>, value: Value<N>) -> (r: Result<Value<N>, RuntimeError>)
    ensures
        extends(final(heap)@.log, old(heap)@.log),
        honest_growth(old(heap)@.log, final(heap)@.log),
        forall|orc: Seq<Outcome<N>>|
            extends(orc, final(heap)@.log) ==> #[trigger] spec_len(old(heap)@, value@, orc) == (
                final(heap)@,
                reply_view(r),
            ),
{
    let ghost h0 = heap@;
    match value {
        Value::Array(id) => {
            if id < heap.arrays.len() {
                let count = heap.arrays[id].len();
                let n = heap.count(count);
                proof {
                    lemma_logged(h0, Outcome::Count(count, n));
                }
                Ok(Value::Number(n))
            } else {
                proof {
                    lemma_extends_refl(h0.log);
                }
                Err(RuntimeError::Dangling)
            }
        },
        Value::String(text) => {
            let bytes = text.as_str().len();
            let n = heap.count(bytes);
            proof {
                assert(bytes == byte_len(text@) as usize);
                lemma_logged(h0, Outcome::Count(bytes, n));
            }
            Ok(Value::Number(n))
        },
        _ => {
            proof {
                lemma_extends_refl(h0.log);
            }
            Err(RuntimeError::WrongArgument(Builtin::Len))
        },
    }
}


/// `h` with an array operation applied to a valid handle, or the reason it could not be.
pub open spec fn on_array<N>(h: HView<N>, a: SValue<N>, which: Builtin) -> Result<nat, RuntimeError> {
    match a {
        SValue::Array(id) => if id < h.arrays.len() {
            Ok(id)
        } else {
            Err(RuntimeError::Dangling)
        },
        _ => Err(RuntimeError::WrongArgument(which)),
    }
}

/// `push`: the array with `value` added at the end.
pub open spec fn spec_push<N>(h: HView<N>, array: SValue<N>, value: SValue<N>) -> (HView<N>, Result<SValue<N>, RuntimeError>) {
    match on_array(h, array, Builtin::Push) {
        Ok(id) => (set_array(h, id, h.arrays[id as int].push(value)), Ok(SValue::Null)),
        Err(e) => (h, Err(e)),
    }
}

/// Appends `value` to an array.
pub fn push<N: Number>(heap: &mut Heap<N>, array: Value<N>, value: Value<N>) -> (r: Result<Value<N>, RuntimeError>)
    ensures
        spec_push(old(heap)@, array@, value@) == (final(heap)@, reply_view(r)),
{
    match array {
        Value::Array(id) => {
            if id < heap.arrays.len() {
                let ghost h0 = heap@;
                let ghost v = value@;
                heap.arrays[id].push(value);
                proof {
                    assert(heap@.arrays[id as int] =~= h0.arrays[id as int].push(v));
                    assert(heap@.arrays =~= h0.arrays.update(id as int, h0.arrays[id as int].push(v)));
                    assert(heap@ == set_array(h0, id as nat, h0.arrays[id as int].push(v)));
                }
                Ok(Value::Null)
            } else {
                Err(RuntimeError::Dangling)
            }
        },
        _ => Err(RuntimeError::WrongArgument(Builtin::Push)),
    }
}

/// `pop`: the array without its last element, which is given back.
pub open spec fn spec_pop<N>(h: HView<N>, array: SValue<N>) -> (HView<N>, Result<SValue<N>, RuntimeError>) {
    match on_array(h, array, Builtin::Pop) {
        Ok(id) => {
            let a = h.arrays[id as int];
            if a.len() > 0 {
                (set_array(h, id, a.drop_last()), Ok(a.last()))
            } else {
                (h, Ok(SValue::Null))
            }
        },
        Err(e) => (h, Err(e)),
    }
}

/// Removes and gives back the last element of an array; `null` when it is empty.
pub fn pop<N: Number>(heap: &mut Heap<N>, array: Value<N>) -> (r: Result<Value<N>, RuntimeError>)
    ensures
        spec_pop(old(heap)@, array@) == (final(heap)@, reply_view(r)),
{
    match array {
        Value::Array(id) => {
            if id < heap.arrays.len() {
                let ghost h0 = heap@;
                let popped = heap.arrays[id].pop();
                proof {
                    if h0.arrays[id as int].len() > 0 {
                        assert(heap@.arrays[id as int] =~= h0.arrays[id as int].drop_last());
                        assert(heap@.arrays =~= h0.arrays.update(id as int, h0.arrays[id as int].drop_last()));
                    } else {
                        assert(heap@.arrays =~= h0.arrays);
                    }
                }
                match popped {
                    Some(v) => Ok(v),
                    None => Ok(Value::Null),
                }
            } else {
                Err(RuntimeError::Dangling)
            }
        },
        _ => Err(RuntimeError::WrongArgument(Builtin::Pop)),
    }
}

/// `insert`: the array with `value` placed at the position `index` denotes.
pub open spec fn spec_insert<N>(h: HView<N>, array: SValue<N>, index: SValue<N>, value: SValue<N>, orc: Seq<Outcome<N>>) -> (HView<N>, Result<SValue<N>, RuntimeError>) {
    match (array, index) {
        (SValue::Array(id), SValue::Number(n)) => if id < h.arrays.len() {
            let i = answer_index(ask(h, orc));
            let h1 = logged(h, Outcome::Index(n, i));
            let a = h.arrays[id as int];
            if i > a.len() {
                (h1, Err(RuntimeError::IndexOutOfRange(Builtin::Insert)))
            } else {
                (set_array(h1, id, a.insert(i as int, value)), Ok(SValue::Null))
            }
        } else {
            (h, Err(RuntimeError::Dangling))
        },
        _ => (h, Err(RuntimeError::WrongArgument(Builtin::Insert))),
    }
}

/// Inserts `value` into an array at the position that `index` denotes.
pub fn insert<N: Number>(heap: &mut Heap<N>, array: Value<N>, index: Value<N>, value: Value<N>) -> (r: Result<Value<N>, RuntimeError>)
    ensures
        extends(final(heap)@.log, old(heap)@.log),
        honest_growth(old(heap)@.log, final(heap)@.log),
        forall|orc: Seq<Outcome<N>>|
            extends(orc, final(heap)@.log) ==> #[trigger] spec_insert(old(heap)@, array@, index@, value@, orc) == (
                final(heap)@,
                reply_view(r),
            ),
{
    let ghost h0 = heap@;
    match (array, index) {
        (Value::Array(id), Value::Number(n)) => {
            if id < heap.arrays.len() {
                let i = heap.index(n);
                let ghost h1 = heap@;
                proof {
                    lemma_logged(h0, Outcome::Index(n, i));
                    assert(h1.arrays == h0.arrays);
                    assert(heap.arrays@.len() == h1.arrays.len());
                    assert(heap.arrays@[id as int]@.len() == h1.arrays[id as int].len());
                }
                if i > heap.arrays[id].len() {
                    Err(RuntimeError::IndexOutOfRange(Builtin::Insert))
                } else {
                    let ghost v = value@;
                    heap.arrays[id].insert(i, value);
                    proof {
                        assert(heap@.arrays[id as int] =~= h1.arrays[id as int].insert(i as int, v));
                        assert(heap@.arrays =~= h1.arrays.update(id as int, h1.arrays[id as int].insert(i as int, v)));
                        assert(heap@ == set_array(h1, id as nat, h0.arrays[id as int].insert(i as int, v)));
                    }
                    Ok(Value::Null)
                }
            } else {
                proof {
                    lemma_extends_refl(h0.log);
                }
                Err(RuntimeError::Dangling)
            }
        },
        _ => {
            proof {
                lemma_extends_refl(h0.log);
            }
            Err(RuntimeError::WrongArgument(Builtin::Insert))
        },
    }
}

/// `remove`: the array without the element at the position `index` denotes, which is given back.
pub open spec fn spec_remove<N>(h: HView<N>, array: SValue<N>, index: SValue<N>, orc: Seq<Outcome<N>>) -> (HView<N>, Result<SValue<N>, RuntimeError>) {
    match (array, index) {
        (SValue::Array(id), SValue::Number(n)) => if id < h.arrays.len() {
            let i = answer_index(ask(h, orc));
            let h1 = logged(h, Outcome::Index(n, i));
            let a = h.arrays[id as int];
            if i >= a.len() {
                (h1, Err(RuntimeError::IndexOutOfRange(Builtin::Remove)))
            } else {
                (set_array(h1, id, a.remove(i as int)), Ok(a[i as int]))
            }
        } else {
            (h, Err(RuntimeError::Dangling))
        },
        _ => (h, Err(RuntimeError::WrongArgument(Builtin::Remove))),
    }
}

/// Removes and gives back the element of an array at the position that `index` denotes.
pub fn remove<N: Number>(heap: &mut Heap<N>, array: Value<N>, index: Value<N>) -> (r: Result<Value<N>, RuntimeError>)
    ensures
        extends(final(heap)@.log, old(heap)@.log),
        honest_growth(old(heap)@.log, final(heap)@.log),
        forall|orc: Seq<Outcome<N>>|
            extends(orc, final(heap)@.log) ==> #[trigger] spec_remove(old(heap)@, array@, index@, orc) == (
                final(heap)@,
                reply_view(r),
            ),
{
    let ghost h0 = heap@;
    match (array, index) {
        (Value::Array(id), Value::Number(n)) => {
            if id < heap.arrays.len() {
                let i = heap.index(n);
                let ghost h1 = heap@;
                proof {
                    lemma_logged(h0, Outcome::Index(n, i));
                    assert(h1.arrays == h0.arrays);
                    assert(heap.arrays@.len() == h1.arrays.len());
                    assert(heap.arrays@[id as int]@.len() == h1.arrays[id as int].len());
                }
                if i >= heap.arrays[id].len() {
                    Err(RuntimeError::IndexOutOfRange(Builtin::Remove))
                } else {
                    let removed = heap.arrays[id].remove(i);
                    proof {
                        assert(heap@.arrays[id as int] =~= h1.arrays[id as int].remove(i as int));
                        assert(heap@.arrays =~= h1.arrays.update(id as int, h1.arrays[id as int].remove(i as int)));
                        assert(heap@ == set_array(h1, id as nat, h0.arrays[id as int].remove(i as int)));
                    }
                    Ok(removed)
                }
            } else {
                proof {
                    lemma_extends_refl(h0.log);
                }
                Err(RuntimeError::Dangling)
            }
        },
        _ => {
            proof {
                lemma_extends_refl(h0.log);
            }
            Err(RuntimeError::WrongArgument(Builtin::Remove))
        },
    }
}

/// `clear` on an array: the array emptied.
pub open spec fn spec_clear<N>(h: HView<N>, array: SValue<N>) -> (HView<N>, Result<SValue<N>, RuntimeError>) {
    match on_array(h, array, Builtin::Clear) {
        Ok(id) => (set_array(h, id, Seq::empty()), Ok(SValue::Null)),
        Err(e) => (h, Err(e)),
    }
}

/// Removes every element of an array.
pub fn clear<N: Number>(heap: &mut Heap<N>, array: Value<N>) -> (r: Result<Value<N>, RuntimeError>)
    ensures
        spec_clear(old(heap)@, array@) == (final(heap)@, reply_view(r)),
{
    match array {
        Value::Array(id) => {
            if id < heap.arrays.len() {
                let ghost h0 = heap@;
                heap.arrays[id].clear();
                proof {
                    assert(heap@.arrays[id as int] =~= Seq::<SValue<N>>::empty());
                    assert(heap@.arrays =~= h0.arrays.update(id as int, Seq::<SValue<N>>::empty()));
                }
                Ok(Value::Null)
            } else {
                Err(RuntimeError::Dangling)
            }
        },
        _ => Err(RuntimeError::WrongArgument(Builtin::Clear)),
    }
}

/// Whether some element of `items` from position `i` on equals `target`; the
/// comparisons stop at the first equal element.
pub open spec fn spec_contains_from<N>(h: HView<N>, items: Seq<SValue<N>>, target: SValue<N>, i: int, orc: Seq<Outcome<N>>) -> (HView<N>, bool)
    decreases items.len() - i,
{
    if 0 <= i < items.len() {
        let (h1, eq) = spec_equals(h, items[i], target, orc);
        if eq {
            (h1, true)
        } else {
            spec_contains_from(h1, items, target, i + 1, orc)
        }
    } else {
        (h, false)
    }
}

/// `contains` on an array: whether some element equals `target`.
pub open spec fn spec_contains<N>(h: HView<N>, array: SValue<N>, target: SValue<N>, orc: Seq<Outcome<N>>) -> (HView<N>, Result<SValue<N>, RuntimeError>) {
    match on_array(h, array, Builtin::Contains) {
        Ok(id) => {
            let (h1, found) = spec_contains_from(h, h.arrays[id as int], target, 0, orc);
            (h1, Ok(SValue::Boolean(found)))
        },
        Err(e) => (h, Err(e)),
    }
}

/// Whether some element of an array equals `target` (see [`equals`]).
pub fn contains<N: Number>(heap: &mut Heap<N>, array: Value<N>, target: Value<N>) -> (r: Result<Value<N>, RuntimeError>)
    ensures
        extends(final(heap)@.log, old(heap)@.log),
        honest_growth(old(heap)@.log, final(heap)@.log),
        forall|orc: Seq<Outcome<N>>|
            extends(orc, final(heap)@.log) ==> #[trigger] spec_contains(old(heap)@, array@, target@, orc) == (
                final(heap)@,
                reply_view(r),
            ),
{
    let ghost h0 = heap@;
    match array {
        Value::Array(id) => {
            if id < heap.arrays.len() {
                let ghost items = h0.arrays[id as int];
                let n = heap.arrays[id].len();
                let mut i: usize = 0;
                proof {
                    lemma_extends_refl(h0.log);
                }
                while i < n
                    invariant
                        h0 == old(heap)@,
                        array@ == SValue::<N>::Array(id as nat),
                        id < heap.arrays@.len(),
                        n == heap.arrays@[id as int]@.len(),
                        heap@.arrays == h0.arrays,
                        heap@.dicts == h0.dicts,
                        heap@.frames == h0.frames,
                        heap@.closures == h0.closures,
                        items == h0.arrays[id as int],
                        i <= n,
                        extends(heap@.log, h0.log),
                        honest_growth(h0.log, heap@.log),
                        forall|orc: Seq<Outcome<N>>|
                            extends(orc, heap@.log) ==> #[trigger] spec_contains_from(h0, items, target@, 0, orc)
                                == spec_contains_from(heap@, items, target@, i as int, orc),
                    decreases n - i,
                {
                    let item = heap.arrays[id][i].duplicate();
                    let ghost hb = heap@;
                    let eq = equals(heap, &item, &target);
                    proof {
                        lemma_extends_trans(heap@.log, hb.log, h0.log);
                        crate::value::lemma_honest_trans(h0.log, hb.log, heap@.log);
                        assert(heap@.arrays == hb.arrays);
                        assert(heap.arrays@.len() == heap@.arrays.len());
                        assert(heap@.arrays[id as int].len() == heap.arrays@[id as int]@.len());
                        assert(item@ == items[i as int]);
                        assert forall|orc: Seq<Outcome<N>>| extends(orc, heap@.log) implies #[trigger] spec_contains_from(h0, items, target@, 0, orc)
                            == (if eq { (heap@, true) } else { spec_contains_from(heap@, items, target@, i + 1, orc) }) by {
                            lemma_extends_trans(orc, heap@.log, hb.log);
                        }
                    }
                    if eq {
                        return Ok(Value::Boolean(true));
                    }
                    i = i + 1;
                }
                Ok(Value::Boolean(false))
            } else {
                proof {
                    lemma_extends_refl(h0.log);
                }
                Err(RuntimeError::Dangling)
            }
        },
        _ => {
            proof {
                lemma_extends_refl(h0.log);
            }
            Err(RuntimeError::WrongArgument(Builtin::Contains))
        },
    }
}

/// `reverse`: the array in the opposite order.
pub open spec fn spec_reverse<N>(h: HView<N>, array: SValue<N>) -> (HView<N>, Result<SValue<N>, RuntimeError>) {
    match on_array(h, array, Builtin::Reverse) {
        Ok(id) => (set_array(h, id, h.arrays[id as int].reverse()), Ok(SValue::Null)),
        Err(e) => (h, Err(e)),
    }
}

/// Reverses the order of the elements of an array.
pub fn reverse<N: Number>(heap: &mut Heap<N>, array: Value<N>) -> (r: Result<Value<N>, RuntimeError>)
    ensures
        spec_reverse(old(heap)@, array@) == (final(heap)@, reply_view(r)),
{
    match array {
        Value::Array(id) => {
            if id < heap.arrays.len() {
                let ghost h0 = heap@;
                let ghost a = h0.arrays[id as int];
                let n = heap.arrays[id].len();
                let mut reversed: Vec<Value<N>> = Vec::new();
                let mut k: usize = n;
                while k > 0
                    invariant
                        id < heap.arrays@.len(),
                        n == heap.arrays@[id as int]@.len(),
                        heap@ == h0,
                        a == h0.arrays[id as int],
                        k <= n,
                        reversed@.len() == n - k,
                        forall|j: int| 0 <= j < n - k ==> #[trigger] reversed@[j]@ == a[n - 1 - j],
                    decreases k,
                {
                    k = k - 1;
                    let item = heap.arrays[id][k].duplicate();
                    reversed.push(item);
                }
                heap.arrays.set(id, reversed);
                proof {
                    assert(heap@.arrays[id as int] =~= a.reverse());
                    assert(heap@.arrays =~= h0.arrays.update(id as int, a.reverse()));
                }
                Ok(Value::Null)
            } else {
                Err(RuntimeError::Dangling)
            }
        },
        _ => Err(RuntimeError::WrongArgument(Builtin::Reverse)),
    }
}

/// `first`: the first element, or `null`.
pub open spec fn spec_first<N>(h: HView<N>, array: SValue<N>) -> Result<SValue<N>, RuntimeError> {
    match on_array(h, array, Builtin::First) {
        Ok(id) => if h.arrays[id as int].len() > 0 {
            Ok(h.arrays[id as int][0])
        } else {
            Ok(SValue::Null)
        },
        Err(e) => Err(e),
    }
}

/// The first element of an array; `null` when it is empty.
pub fn first<N: Number>(heap: &Heap<N>, array: Value<N>) -> (r: Result<Value<N>, RuntimeError>)
    ensures
        spec_first(heap@, array@) == reply_view(r),
{
    match array {
        Value::Array(id) => {
            if id < heap.arrays.len() {
                if heap.arrays[id].len() > 0 {
                    Ok(heap.arrays[id][0].duplicate())
                } else {
                    Ok(Value::Null)
                }
            } else {
                Err(RuntimeError::Dangling)
            }
        },
        _ => Err(RuntimeError::WrongArgument(Builtin::First)),
    }
}

/// `last`: the last element, or `null`.
pub open spec fn spec_last<N>(h: HView<N>, array: SValue<N>) -> Result<SValue<N>, RuntimeError> {
    match on_array(h, array, Builtin::Last) {
        Ok(id) => if h.arrays[id as int].len() > 0 {
            Ok(h.arrays[id as int].last())
        } else {
            Ok(SValue::Null)
        },
        Err(e) => Err(e),
    }
}

/// The last element of an array; `null` when it is empty.
pub fn last<N: Number>(heap: &Heap<N>, array: Value<N>) -> (r: Result<Value<N>, RuntimeError>)
    ensures
        spec_last(heap@, array@) == reply_view(r),
{
    match array {
        Value::Array(id) => {
            if id < heap.arrays.len() {
                let n = heap.arrays[id].len();
                if n > 0 {
                    Ok(heap.arrays[id][n - 1].duplicate())
                } else {
                    Ok(Value::Null)
                }
            } else {
                Err(RuntimeError::Dangling)
            }
        },
        _ => Err(RuntimeError::WrongArgument(Builtin::Last)),
    }
}

/// `is_empty`: whether the array has no elements.
pub open spec fn spec_is_empty<N>(h: HView<N>, array: SValue<N>) -> Result<SValue<N>, RuntimeError> {
    match on_array(h, array, Builtin::IsEmpty) {
        Ok(id) => Ok(SValue::Boolean(h.arrays[id as int].len() == 0)),
        Err(e) => Err(e),
    }
}

/// Whether an array has no elements.
pub fn is_empty<N: Number>(heap: &Heap<N>, array: Value<N>) -> (r: Result<Value<N>, RuntimeError>)
    ensures
        spec_is_empty(heap@, array@) == reply_view(r),
{
    match array {
        Value::Array(id) => {
            if id < heap.arrays.len() {
                Ok(Value::Boolean(heap.arrays[id].len() == 0))
            } else {
                Err(RuntimeError::Dangling)
            }
        },
        _ => Err(RuntimeError::WrongArgument(Builtin::IsEmpty)),
    }
}

} // verus!
