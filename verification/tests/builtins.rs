use gnc::builtin::{array, dictionary, string};
use gnc::equality::equals;
use gnc::value::{Builtin, Heap, Number, RuntimeError, Value};

#[derive(Clone, Copy, Debug, PartialEq)]
struct Num(f64);

impl Number for Num {
    fn literal_value(digits: &str) -> Self {
        Self::from_literal(digits)
    }
    fn count_value(n: usize) -> Self {
        Self::from_count(n)
    }
    fn sum(self, other: Self) -> Self {
        self.plus(other)
    }
    fn difference(self, other: Self) -> Self {
        self.minus(other)
    }
    fn product(self, other: Self) -> Self {
        self.times(other)
    }
    fn quotient(self, other: Self) -> Self {
        self.divided_by(other)
    }
    fn modulo(self, other: Self) -> Self {
        self.remainder(other)
    }
    fn negation(self) -> Self {
        self.negated()
    }
    fn same_as(self, other: Self) -> bool {
        self.equal_to(other)
    }
    fn below(self, other: Self) -> bool {
        self.less_than(other)
    }
    fn not_above(self, other: Self) -> bool {
        self.at_most(other)
    }
    fn above(self, other: Self) -> bool {
        self.greater_than(other)
    }
    fn not_below(self, other: Self) -> bool {
        self.at_least(other)
    }
    fn zero_test(self) -> bool {
        self.is_zero()
    }
    fn position(self) -> usize {
        self.to_index()
    }
    fn from_literal(digits: &str) -> Self {
        Num(digits.parse().unwrap_or(0.0))
    }
    fn from_count(n: usize) -> Self {
        Num(n as f64)
    }
    fn plus(self, other: Self) -> Self {
        Num(self.0 + other.0)
    }
    fn minus(self, other: Self) -> Self {
        Num(self.0 - other.0)
    }
    fn times(self, other: Self) -> Self {
        Num(self.0 * other.0)
    }
    fn divided_by(self, other: Self) -> Self {
        Num(self.0 / other.0)
    }
    fn remainder(self, other: Self) -> Self {
        Num(self.0 % other.0)
    }
    fn negated(self) -> Self {
        Num(-self.0)
    }
    fn equal_to(self, other: Self) -> bool {
        self.0 == other.0
    }
    fn less_than(self, other: Self) -> bool {
        self.0 < other.0
    }
    fn at_most(self, other: Self) -> bool {
        self.0 <= other.0
    }
    fn greater_than(self, other: Self) -> bool {
        self.0 > other.0
    }
    fn at_least(self, other: Self) -> bool {
        self.0 >= other.0
    }
    fn is_zero(self) -> bool {
        self.0 == 0.0
    }
    fn to_index(self) -> usize {
        self.0 as usize
    }
}

fn text(v: &Value<Num>) -> String {
    match v {
        Value::String(s) => s.clone(),
        _ => panic!("not a string"),
    }
}

fn boolean(v: &Value<Num>) -> bool {
    match v {
        Value::Boolean(b) => *b,
        _ => panic!("not a boolean"),
    }
}

fn number(v: &Value<Num>) -> f64 {
    match v {
        Value::Number(n) => n.0,
        _ => panic!("not a number"),
    }
}

fn handle(v: &Value<Num>) -> usize {
    match v {
        Value::Array(i) => *i,
        _ => panic!("not an array"),
    }
}

fn sample() -> Heap<Num> {
    let mut heap: Heap<Num> = Heap::new();
    heap.dicts.push(vec![
        ("a".to_string(), Value::Number(Num(1.0))),
        ("b".to_string(), Value::Boolean(true)),
    ]);
    heap
}

#[test]
fn dictionary_keys_and_values_keep_the_order() {
    let mut heap = sample();
    let k = dictionary::keys(&mut heap, Value::Dictionary(0)).unwrap();
    let keys: Vec<String> = heap.arrays[handle(&k)].iter().map(text).collect();
    assert_eq!(keys, vec!["a", "b"]);
    let v = dictionary::values(&mut heap, Value::Dictionary(0)).unwrap();
    let vals = &heap.arrays[handle(&v)];
    assert_eq!(number(&vals[0]), 1.0);
    assert!(boolean(&vals[1]));
}

#[test]
fn dictionary_has_key_and_remove() {
    let mut heap = sample();
    let has = dictionary::has_key(&heap, Value::Dictionary(0), Value::String("a".to_string())).unwrap();
    assert!(boolean(&has));
    let removed = dictionary::remove(&mut heap, Value::Dictionary(0), Value::String("a".to_string())).unwrap();
    assert_eq!(number(&removed), 1.0);
    let has = dictionary::has_key(&heap, Value::Dictionary(0), Value::String("a".to_string())).unwrap();
    assert!(!boolean(&has));
    let missing = dictionary::remove(&mut heap, Value::Dictionary(0), Value::String("zzz".to_string())).unwrap();
    assert!(matches!(missing, Value::Null));
    assert_eq!(heap.dicts[0].len(), 1);
}

#[test]
fn dictionary_clear_empties_it() {
    let mut heap = sample();
    let r = dictionary::clear(&mut heap, Value::Dictionary(0));
    assert!(matches!(r, Ok(Value::Null)));
    assert!(heap.dicts[0].is_empty());
}

#[test]
fn dictionary_errors() {
    let mut heap = sample();
    assert!(matches!(
        dictionary::has_key(&heap, Value::Dictionary(0), Value::Number(Num(1.0))),
        Err(RuntimeError::KeyNotString(Builtin::HasKey))
    ));
    assert!(matches!(
        dictionary::remove(&mut heap, Value::Dictionary(0), Value::Null),
        Err(RuntimeError::KeyNotString(Builtin::RemoveKey))
    ));
    assert!(matches!(dictionary::values(&mut heap, Value::Null), Err(RuntimeError::WrongArgument(Builtin::Values))));
    assert!(matches!(dictionary::keys(&mut heap, Value::Dictionary(9)), Err(RuntimeError::Dangling)));
}

#[test]
fn array_push_then_last_and_pop() {
    let mut heap: Heap<Num> = Heap::new();
    heap.arrays.push(vec![Value::Number(Num(1.0))]);
    let r = array::push(&mut heap, Value::Array(0), Value::String("x".to_string()));
    assert!(matches!(r, Ok(Value::Null)));
    assert_eq!(text(&array::last(&heap, Value::Array(0)).unwrap()), "x");
    assert_eq!(text(&array::pop(&mut heap, Value::Array(0)).unwrap()), "x");
    assert_eq!(heap.arrays[0].len(), 1);
    assert_eq!(number(&array::first(&heap, Value::Array(0)).unwrap()), 1.0);
}

#[test]
fn array_len_of_a_string_counts_bytes() {
    let mut heap: Heap<Num> = Heap::new();
    let n = array::len(&mut heap, Value::String("ü".to_string())).unwrap();
    assert_eq!(number(&n), 2.0);
    assert!(matches!(array::len(&mut heap, Value::Null), Err(RuntimeError::WrongArgument(Builtin::Len))));
}

#[test]
fn array_handles_that_point_at_nothing() {
    let mut heap: Heap<Num> = Heap::new();
    assert!(matches!(array::push(&mut heap, Value::Array(3), Value::Null), Err(RuntimeError::Dangling)));
    assert!(matches!(array::is_empty(&heap, Value::Array(0)), Err(RuntimeError::Dangling)));
}

#[test]
fn string_functions() {
    assert_eq!(text(&string::trim::<Num>(Value::String(" a b ".to_string())).unwrap()), "a b");
    assert_eq!(text(&string::upper::<Num>(Value::String("straße".to_string())).unwrap()), "STRASSE");
    assert_eq!(text(&string::lower::<Num>(Value::String("ÀB".to_string())).unwrap()), "àb");
    assert!(boolean(&string::contains::<Num>(Value::String("abc".to_string()), Value::String("".to_string())).unwrap()));
    assert!(!boolean(&string::ends_with::<Num>(Value::String("abc".to_string()), Value::String("b".to_string())).unwrap()));
    assert!(boolean(&string::starts_with::<Num>(Value::String("abc".to_string()), Value::String("abc".to_string())).unwrap()));
    assert_eq!(
        text(&string::replace::<Num>(Value::String("aaa".to_string()), Value::String("aa".to_string()), Value::String("b".to_string())).unwrap()),
        "ba"
    );
    assert!(matches!(
        string::replace::<Num>(Value::String("a".to_string()), Value::Null, Value::String("b".to_string())),
        Err(RuntimeError::WrongArgument(Builtin::Replace))
    ));
}

#[test]
fn split_makes_a_new_array() {
    let mut heap: Heap<Num> = Heap::new();
    let r = string::split(&mut heap, Value::String("a--b--".to_string()), Value::String("--".to_string())).unwrap();
    let parts: Vec<String> = heap.arrays[handle(&r)].iter().map(text).collect();
    assert_eq!(parts, vec!["a", "b", ""]);
}

#[test]
fn equality_of_values() {
    let mut heap: Heap<Num> = Heap::new();
    assert!(equals(&mut heap, &Value::Number(Num(2.0)), &Value::Number(Num(2.0))));
    assert!(equals(&mut heap, &Value::String("x".to_string()), &Value::String("x".to_string())));
    assert!(!equals(&mut heap, &Value::Boolean(true), &Value::Boolean(false)));
    assert!(equals(&mut heap, &Value::Null, &Value::Null));
    assert!(!equals(&mut heap, &Value::Array(0), &Value::Array(0)));
    assert!(!equals(&mut heap, &Value::Number(Num(1.0)), &Value::String("1".to_string())));
}

#[test]
fn string_searches_at_the_edges() {
    let s = |x: &str| Value::<Num>::String(x.to_string());
    assert!(boolean(&string::contains::<Num>(s("abc"), s("c")).unwrap()));
    assert!(!boolean(&string::contains::<Num>(s("ab"), s("abc")).unwrap()));
    assert!(!boolean(&string::contains::<Num>(s("abcab"), s("ca b")).unwrap()));
    assert!(boolean(&string::contains::<Num>(s(""), s("")).unwrap()));
    assert!(boolean(&string::ends_with::<Num>(s("héllo"), s("llo")).unwrap()));
    assert!(boolean(&string::ends_with::<Num>(s("x"), s("")).unwrap()));
    assert!(!boolean(&string::starts_with::<Num>(s("x"), s("xy")).unwrap()));
}

#[test]
fn replace_and_split_with_empty_patterns() {
    let s = |x: &str| Value::<Num>::String(x.to_string());
    assert_eq!(text(&string::replace::<Num>(s("abc"), s(""), s("-")).unwrap()), "-a-b-c-");
    assert_eq!(text(&string::replace::<Num>(s(""), s(""), s("x")).unwrap()), "x");
    assert_eq!(text(&string::replace::<Num>(s("abab"), s("ab"), s("")).unwrap()), "");
    let mut heap: Heap<Num> = Heap::new();
    let r = string::split(&mut heap, s("ab"), s("")).unwrap();
    let parts: Vec<String> = heap.arrays[handle(&r)].iter().map(text).collect();
    assert_eq!(parts, vec!["", "a", "b", ""]);
    let r = string::split(&mut heap, s(""), s(",")).unwrap();
    let parts: Vec<String> = heap.arrays[handle(&r)].iter().map(text).collect();
    assert_eq!(parts, vec![""]);
    let r = string::split(&mut heap, s("a,,b,"), s(",")).unwrap();
    let parts: Vec<String> = heap.arrays[handle(&r)].iter().map(text).collect();
    assert_eq!(parts, vec!["a", "", "b", ""]);
}

#[test]
fn trim_removes_unicode_white_space_only() {
    let s = |x: &str| Value::<Num>::String(x.to_string());
    assert_eq!(text(&string::trim::<Num>(s("\u{3000}\u{85} x y\u{2029}\t")).unwrap()), "x y");
    assert_eq!(text(&string::trim::<Num>(s("\u{200B}x")).unwrap()), "\u{200B}x");
    assert_eq!(text(&string::trim::<Num>(s(" \n ")).unwrap()), "");
}
