//! Equality of runtime values, as the language's `contains` sees it.
use vstd::prelude::*;
use crate::value::{honest_growth, 
    answer_flag, ask, extends, lemma_extends_refl, lemma_logged, logged, same_store, CmpOp, HView, Heap, Number, Outcome,
    SValue, Value,
};

verus! {

/// Numbers are equal when the arithmetic says so; strings, booleans and `null`
/// when they are the same; everything else, arrays among them, is unequal.
pub open spec fn spec_equals<N>(h: HView<N>, left: SValue<N>, right: SValue<N>, orc: Seq<Outcome<N>>) -> (HView<N>, bool) {
    match (left, right) {
        (SValue::Number(a), SValue::Number(b)) => {
            let f = answer_flag(ask(h, orc));
            (logged(h, Outcome::Compare(CmpOp::Equal, a, b, f)), f)
        },
        (SValue::Str(a), SValue::Str(b)) => (h, a == b),
        (SValue::Boolean(a), SValue::Boolean(b)) => (h, a == b),
        (SValue::Null, SValue::Null) => (h, true),
        _ => (h, false),
    }
}

/// Whether two values are equal in the sense of [`spec_equals`].
pub fn equals<N: Number>(heap: &mut Heap<N>, left: &Value<N>, right: &Value<N>) -> (r: bool)
    ensures
        extends(final(heap)@.log, old(heap)@.log),
        honest_growth(old(heap)@.log, final(heap)@.log),
        same_store(final(heap)@, old(heap)@),
        forall|orc: Seq<Outcome<N>>|
            extends(orc, final(heap)@.log) ==> #[trigger] spec_equals(old(heap)@, left@, right@, orc) == (
                final(heap)@,
                r,
            ),
{
    let ghost h0 = heap@;
    match (left, right) {
        (Value::Number(a), Value::Number(b)) => {
            let f = heap.compare(CmpOp::Equal, *a, *b);
            proof {
                lemma_logged(h0, Outcome::Compare(CmpOp::Equal, *a, *b, f));
            }
            f
        },
        (Value::String(a), Value::String(b)) => {
            proof {
                lemma_extends_refl(h0.log);
            }
            *a == *b
        },
        (Value::Boolean(a), Value::Boolean(b)) => {
            proof {
                lemma_extends_refl(h0.log);
            }
            *a == *b
        },
        (Value::Null, Value::Null) => {
            proof {
                lemma_extends_refl(h0.log);
            }
            true
        },
        _ => {
            proof {
                lemma_extends_refl(h0.log);
            }
            false
        },
    }
}

} // verus!
