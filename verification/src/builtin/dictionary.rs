//! Builtins on dictionaries: lists of string keys with their values, each key at most once.
use vstd::prelude::*;
use crate::value::{reply_view, Builtin, HView, Heap, Number, RuntimeError, SValue, Value, values_view};

verus! {

/// The position of the first entry with key `k` from position `i` on, if any.
pub open spec fn find_key<N>(es: Seq<(Seq<char>, SValue<N>)>, k: Seq<char>, i: int) -> Option<nat>
    decreases es.len() - i,
{
    if 0 <= i < es.len() {
        if es[i].0 == k {
            Some(i as nat)
        } else {
            find_key(es, k, i + 1)
        }
    } else {
        None
    }
}

/// What [`find_key`] finds lies at or after where it starts, and holds the key.
pub proof fn lemma_find_key<N>(es: Seq<(Seq<char>, SValue<N>)>, k: Seq<char>, i: int)
    ensures
        find_key(es, k, i) matches Some(j) ==> i <= j < es.len() && es[j as int].0 == k,
    decreases es.len() - i,
{
    if 0 <= i < es.len() && es[i].0 != k {
        lemma_find_key(es, k, i + 1);
    }
}

/// A dictionary handle that points at a dictionary, or why not.
pub open spec fn on_dict<N>(h: HView<N>, d: SValue<N>, which: Builtin) -> Result<nat, RuntimeError> {
    match d {
        SValue::Dictionary(id) => if id < h.dicts.len() {
            Ok(id)
        } else {
            Err(RuntimeError::Dangling)
        },
        _ => Err(RuntimeError::WrongArgument(which)),
    }
}

/// `keys`: a new array of the keys, in order.
pub open spec fn spec_keys<N>(h: HView<N>, d: SValue<N>) -> (HView<N>, Result<SValue<N>, RuntimeError>) {
    match on_dict(h, d, Builtin::Keys) {
        Ok(id) => {
            let es = h.dicts[id as int];
            (
                HView { arrays: h.arrays.push(Seq::new(es.len(), |i: int| SValue::<N>::Str(es[i].0))), ..h },
                Ok(SValue::Array(h.arrays.len())),
            )
        },
        Err(e) => (h, Err(e)),
    }
}

/// A new array of the keys of a dictionary, in the dictionary's order.
pub fn keys<N: Number>(heap: &mut Heap<N>, value: Value<N>) -> (r: Result<Value<N>, RuntimeError>)
    ensures
        spec_keys(old(heap)@, value@) == (final(heap)@, reply_view(r)),
{
    match value {
        Value::Dictionary(id) => {
            if id < heap.dicts.len() {
                let ghost h0 = heap@;
                let ghost es = h0.dicts[id as int];
                let n = heap.dicts[id].len();
                let mut out: Vec<Value<N>> = Vec::new();
                let mut i: usize = 0;
                while i < n
                    invariant
                        heap@ == h0,
                        id < heap.dicts@.len(),
                        es == h0.dicts[id as int],
                        n == es.len(),
                        i <= n,
                        out@.len() == i,
                        forall|j: int| 0 <= j < i ==> #[trigger] out@[j]@ == SValue::<N>::Str(es[j].0),
                    decreases n - i,
                {
                    let k = heap.dicts[id][i].0.clone();
                    out.push(Value::String(k));
                    i = i + 1;
                }
                let new_id = heap.arrays.len();
                proof {
                    assert(values_view(out@) =~= Seq::new(es.len(), |i: int| SValue::<N>::Str(es[i].0)));
                }
                heap.arrays.push(out);
                proof {
                    assert(heap@.arrays =~= h0.arrays.push(Seq::new(es.len(), |i: int| SValue::<N>::Str(es[i].0))));
                }
                Ok(Value::Array(new_id))
            } else {
                Err(RuntimeError::Dangling)
            }
        },
        _ => Err(RuntimeError::WrongArgument(Builtin::Keys)),
    }
}

/// `values`: a new array of the values, in order.
pub open spec fn spec_values<N>(h: HView<N>, d: SValue<N>) -> (HView<N>, Result<SValue<N>, RuntimeError>) {
    match on_dict(h, d, Builtin::Values) {
        Ok(id) => {
            let es = h.dicts[id as int];
            (
                HView { arrays: h.arrays.push(Seq::new(es.len(), |i: int| es[i].1)), ..h },
                Ok(SValue::Array(h.arrays.len())),
            )
        },
        Err(e) => (h, Err(e)),
    }
}

/// A new array of the values of a dictionary, in the dictionary's order.
pub fn values<N: Number>(heap: &mut Heap<N>, value: Value<N>) -> (r: Result<Value<N>, RuntimeError>)
    ensures
        spec_values(old(heap)@, value@) == (final(heap)@, reply_view(r)),
{
    match value {
        Value::Dictionary(id) => {
            if id < heap.dicts.len() {
                let ghost h0 = heap@;
                let ghost es = h0.dicts[id as int];
                let n = heap.dicts[id].len();
                let mut out: Vec<Value<N>> = Vec::new();
                let mut i: usize = 0;
                while i < n
                    invariant
                        heap@ == h0,
                        id < heap.dicts@.len(),
                        es == h0.dicts[id as int],
                        n == es.len(),
                        i <= n,
                        out@.len() == i,
                        forall|j: int| 0 <= j < i ==> #[trigger] out@[j]@ == es[j].1,
                    decreases n - i,
                {
                    let v = heap.dicts[id][i].1.duplicate();
                    out.push(v);
                    i = i + 1;
                }
                let new_id = heap.arrays.len();
                proof {
                    assert(values_view(out@) =~= Seq::new(es.len(), |i: int| es[i].1));
                }
                heap.arrays.push(out);
                proof {
                    assert(heap@.arrays =~= h0.arrays.push(Seq::new(es.len(), |i: int| es[i].1)));
                }
                Ok(Value::Array(new_id))
            } else {
                Err(RuntimeError::Dangling)
            }
        },
        _ => Err(RuntimeError::WrongArgument(Builtin::Values)),
    }
}

/// The first position, from `i` on, whose key is `k`.
pub(crate) fn position_of<N>(es: &Vec<(String, Value<N>)>, k: &String) -> (r: Option<usize>)
    ensures
        match r {
            Some(i) => find_key(crate::value::entries_view(es@), k@, 0) == Some(i as nat),
            None => find_key(crate::value::entries_view(es@), k@, 0) is None,
        },
{
    let ghost v = crate::value::entries_view(es@);
    let mut i: usize = 0;
    while i < es.len()
        invariant
            v == crate::value::entries_view(es@),
            i <= es@.len(),
            find_key(v, k@, 0) == find_key(v, k@, i as int),
        decreases es@.len() - i,
    {
        if es[i].0 == *k {
            return Some(i);
        }
        i = i + 1;
    }
    None
}

/// Which error a dictionary builtin gives for a dictionary and a key that is
/// not a string, or for something that is no dictionary.
pub open spec fn key_error<N>(d: SValue<N>, which: Builtin) -> RuntimeError {
    match d {
        SValue::Dictionary(_) => RuntimeError::KeyNotString(which),
        _ => RuntimeError::WrongArgument(which),
    }
}

/// `has_key`: whether an entry has the key.
pub open spec fn spec_has_key<N>(h: HView<N>, d: SValue<N>, key: SValue<N>) -> Result<SValue<N>, RuntimeError> {
    match (d, key) {
        (SValue::Dictionary(id), SValue::Str(k)) => if id < h.dicts.len() {
            Ok(SValue::Boolean(find_key(h.dicts[id as int], k, 0) is Some))
        } else {
            Err(RuntimeError::Dangling)
        },
        _ => Err(key_error(d, Builtin::HasKey)),
    }
}

/// Whether a dictionary has an entry for `key`.
pub fn has_key<N: Number>(heap: &Heap<N>, dictionary: Value<N>, key: Value<N>) -> (r: Result<Value<N>, RuntimeError>)
    ensures
        spec_has_key(heap@, dictionary@, key@) == reply_view(r),
{
    match (dictionary, key) {
        (Value::Dictionary(id), Value::String(k)) => {
            if id < heap.dicts.len() {
                let found = position_of(&heap.dicts[id], &k);
                Ok(Value::Boolean(found.is_some()))
            } else {
                Err(RuntimeError::Dangling)
            }
        },
        (Value::Dictionary(_), _) => Err(RuntimeError::KeyNotString(Builtin::HasKey)),
        _ => Err(RuntimeError::WrongArgument(Builtin::HasKey)),
    }
}

/// `remove_key`: the dictionary without the entry for the key, whose value is given back.
pub open spec fn spec_remove<N>(h: HView<N>, d: SValue<N>, key: SValue<N>) -> (HView<N>, Result<SValue<N>, RuntimeError>) {
    match (d, key) {
        (SValue::Dictionary(id), SValue::Str(k)) => if id < h.dicts.len() {
            let es = h.dicts[id as int];
            match find_key(es, k, 0) {
                Some(i) => (HView { dicts: h.dicts.update(id as int, es.remove(i as int)), ..h }, Ok(es[i as int].1)),
                None => (h, Ok(SValue::Null)),
            }
        } else {
            (h, Err(RuntimeError::Dangling))
        },
        _ => (h, Err(key_error(d, Builtin::RemoveKey))),
    }
}

/// Removes the entry for `key` and gives back its value; `null` when there is none.
pub fn remove<N: Number>(heap: &mut Heap<N>, dictionary: Value<N>, key: Value<N>) -> (r: Result<Value<N>, RuntimeError>)
    ensures
        spec_remove(old(heap)@, dictionary@, key@) == (final(heap)@, reply_view(r)),
{
    match (dictionary, key) {
        (Value::Dictionary(id), Value::String(k)) => {
            if id < heap.dicts.len() {
                let ghost h0 = heap@;
                match position_of(&heap.dicts[id], &k) {
                    Some(i) => {
                        proof {
                            lemma_find_key(h0.dicts[id as int], k@, 0);
                        }
                        let (_, v) = heap.dicts[id].remove(i);
                        proof {
                            assert(heap@.dicts[id as int] =~= h0.dicts[id as int].remove(i as int));
                            assert(heap@.dicts =~= h0.dicts.update(id as int, h0.dicts[id as int].remove(i as int)));
                        }
                        Ok(v)
                    },
                    None => Ok(Value::Null),
                }
            } else {
                Err(RuntimeError::Dangling)
            }
        },
        (Value::Dictionary(_), _) => Err(RuntimeError::KeyNotString(Builtin::RemoveKey)),
        _ => Err(RuntimeError::WrongArgument(Builtin::RemoveKey)),
    }
}

/// `clear` on a dictionary: the dictionary emptied.
pub open spec fn spec_clear<N>(h: HView<N>, d: SValue<N>) -> (HView<N>, Result<SValue<N>, RuntimeError>) {
    match on_dict(h, d, Builtin::Clear) {
        Ok(id) => (HView { dicts: h.dicts.update(id as int, Seq::empty()), ..h }, Ok(SValue::Null)),
        Err(e) => (h, Err(e)),
    }
}

/// Removes every entry of a dictionary.
pub fn clear<N: Number>(heap: &mut Heap<N>, dictionary: Value<N>) -> (r: Result<Value<N>, RuntimeError>)
    ensures
        spec_clear(old(heap)@, dictionary@) == (final(heap)@, reply_view(r)),
{
    match dictionary {
        Value::Dictionary(id) => {
            if id < heap.dicts.len() {
                let ghost h0 = heap@;
                heap.dicts[id].clear();
                proof {
                    assert(heap@.dicts[id as int] =~= Seq::<(Seq<char>, SValue<N>)>::empty());
                    assert(heap@.dicts =~= h0.dicts.update(id as int, Seq::empty()));
                }
                Ok(Value::Null)
            } else {
                Err(RuntimeError::Dangling)
            }
        },
        _ => Err(RuntimeError::WrongArgument(Builtin::Clear)),
    }
}

} // verus!
