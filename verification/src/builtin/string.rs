//! Builtins on strings.
use vstd::prelude::*;
use crate::value::{reply_view, Builtin, HView, Heap, Number, RuntimeError, SValue, Value, values_view};

verus! {

/// A character with the Unicode `White_Space` property, the white space
/// that `str::trim` removes.
pub open spec fn is_white_space(c: char) -> bool {
    let u = c as u32;
    ||| 0x9 <= u <= 0xD
    ||| u == 0x20
    ||| u == 0x85
    ||| u == 0xA0
    ||| u == 0x1680
    ||| 0x2000 <= u <= 0x200A
    ||| u == 0x2028
    ||| u == 0x2029
    ||| u == 0x202F
    ||| u == 0x205F
    ||| u == 0x3000
}

/// The text without its leading white space.
pub open spec fn trimmed_start(s: Seq<char>) -> Seq<char>
    decreases s.len(),
{
    if s.len() > 0 && is_white_space(s[0]) {
        trimmed_start(s.drop_first())
    } else {
        s
    }
}

/// The text without its trailing white space.
pub open spec fn trimmed_end(s: Seq<char>) -> Seq<char>
    decreases s.len(),
{
    if s.len() > 0 && is_white_space(s.last()) {
        trimmed_end(s.drop_last())
    } else {
        s
    }
}

/// What `str::trim` gives: the text without leading and trailing white space.
pub open spec fn trimmed(s: Seq<char>) -> Seq<char> {
    trimmed_end(trimmed_start(s))
}

/// What `str::to_uppercase` gives.
pub uninterp spec fn uppercased(s: Seq<char>) -> Seq<char>;

/// What `str::to_lowercase` gives.
pub uninterp spec fn lowercased(s: Seq<char>) -> Seq<char>;

/// `s` with every match of a non-empty `from`, found from the left and not
/// overlapping, replaced by `to`.
pub open spec fn replaced_matches(s: Seq<char>, from: Seq<char>, to: Seq<char>) -> Seq<char>
    decreases s.len(),
{
    if from.len() == 0 || s.len() < from.len() {
        s
    } else if s.subrange(0, from.len() as int) == from {
        to + replaced_matches(s.subrange(from.len() as int, s.len() as int), from, to)
    } else {
        seq![s[0]] + replaced_matches(s.drop_first(), from, to)
    }
}

/// `s` with `to` put at every character boundary: the empty pattern matches there.
pub open spec fn replaced_boundaries(s: Seq<char>, to: Seq<char>) -> Seq<char>
    decreases s.len(),
{
    if s.len() == 0 {
        to
    } else {
        to + seq![s[0]] + replaced_boundaries(s.drop_first(), to)
    }
}

/// What `str::replace` gives: every match of `from`, left to right and not
/// overlapping, replaced by `to`.
pub open spec fn replaced(s: Seq<char>, from: Seq<char>, to: Seq<char>) -> Seq<char> {
    if from.len() == 0 {
        replaced_boundaries(s, to)
    } else {
        replaced_matches(s, from, to)
    }
}

/// The pieces of `s` between the matches of a non-empty `sep`, found from the
/// left and not overlapping; `piece` is the start of the current piece.
pub open spec fn split_matches(s: Seq<char>, sep: Seq<char>, piece: Seq<char>) -> Seq<Seq<char>>
    decreases s.len(),
{
    if sep.len() == 0 || s.len() < sep.len() {
        seq![piece + s]
    } else if s.subrange(0, sep.len() as int) == sep {
        seq![piece] + split_matches(s.subrange(sep.len() as int, s.len() as int), sep, Seq::empty())
    } else {
        split_matches(s.drop_first(), sep, piece.push(s[0]))
    }
}

/// The pieces of `s` at every character boundary: one per character, with an
/// empty piece at each end.
pub open spec fn split_boundaries(s: Seq<char>) -> Seq<Seq<char>> {
    seq![Seq::<char>::empty()] + Seq::new(s.len(), |i: int| seq![s[i]]) + seq![Seq::<char>::empty()]
}

/// What `str::split` gives: the pieces between the matches of `sep`.
pub open spec fn split_parts(s: Seq<char>, sep: Seq<char>) -> Seq<Seq<char>> {
    if sep.len() == 0 {
        split_boundaries(s)
    } else {
        split_matches(s, sep, Seq::empty())
    }
}

/// `p` occurs somewhere in `s`.
pub open spec fn occurs_in(p: Seq<char>, s: Seq<char>) -> bool {
    exists|i: int| 0 <= i && i + p.len() <= s.len() && #[trigger] s.subrange(i, i + p.len()) == p
}

/// `s` begins with `p`.
pub open spec fn begins_with(s: Seq<char>, p: Seq<char>) -> bool {
    p.len() <= s.len() && s.subrange(0, p.len() as int) == p
}

/// `s` ends with `p`.
pub open spec fn finishes_with(s: Seq<char>, p: Seq<char>) -> bool {
    p.len() <= s.len() && s.subrange(s.len() - p.len(), s.len() as int) == p
}

/// `str::trim`, as an owned string: the contract states the result as the
/// documentation defines it, white space being the Unicode `White_Space` property.
#[verifier::external_body]
fn std_trim(s: &str) -> (r: String)
    ensures
        r@ == trimmed(s@),
{
    s.trim().to_string()
}

/// `str::to_uppercase`.
#[verifier::external_body]
fn std_upper(s: &str) -> (r: String)
    ensures
        r@ == uppercased(s@),
{
    s.to_uppercase()
}

/// `str::to_lowercase`.
#[verifier::external_body]
fn std_lower(s: &str) -> (r: String)
    ensures
        r@ == lowercased(s@),
{
    s.to_lowercase()
}

/// Whether `p` occurs in `s` at position `start`.
fn matches_at(s: &str, p: &str, start: usize) -> (r: bool)
    requires
        start + p@.len() <= s@.len(),
    ensures
        r == (s@.subrange(start as int, start + p@.len()) == p@),
{
    let n = s.unicode_len();
    let m = p.unicode_len();
    let mut j: usize = 0;
    while j < m
        invariant
            n == s@.len(),
            m == p@.len(),
            start + m <= s@.len(),
            j <= m,
            forall|k: int| 0 <= k < j ==> s@[start + k] == p@[k],
        decreases m - j,
    {
        if s.get_char(start + j) != p.get_char(j) {
            assert(s@.subrange(start as int, start + m)[j as int] != p@[j as int]);
            return false;
        }
        j = j + 1;
    }
    assert(s@.subrange(start as int, start + m) =~= p@);
    true
}

/// Whether `p` occurs somewhere in `s`.
fn text_contains(s: &str, p: &str) -> (r: bool)
    ensures
        r == occurs_in(p@, s@),
{
    let n = s.unicode_len();
    let m = p.unicode_len();
    if m > n {
        return false;
    }
    let last = n - m;
    let mut i: usize = 0;
    loop
        invariant
            n == s@.len(),
            m == p@.len(),
            last == n - m,
            i <= last,
            forall|k: int| 0 <= k < i ==> #[trigger] s@.subrange(k, k + m) != p@,
        decreases last - i,
    {
        if matches_at(s, p, i) {
            return true;
        }
        if i == last {
            return false;
        }
        i = i + 1;
    }
}

/// Whether `s` begins with `p`.
fn text_starts_with(s: &str, p: &str) -> (r: bool)
    ensures
        r == begins_with(s@, p@),
{
    if p.unicode_len() > s.unicode_len() {
        return false;
    }
    matches_at(s, p, 0)
}

/// Whether `s` ends with `p`.
fn text_ends_with(s: &str, p: &str) -> (r: bool)
    ensures
        r == finishes_with(s@, p@),
{
    let n = s.unicode_len();
    let m = p.unicode_len();
    if m > n {
        return false;
    }
    matches_at(s, p, n - m)
}

/// `str::replace` with text patterns: the contract states the result as the
/// documentation describes it, matches taken from the left without overlap,
/// and an empty pattern matching at every character boundary.
#[verifier::external_body]
fn std_replace(s: &str, from: &str, to: &str) -> (r: String)
    ensures
        r@ == replaced(s@, from@, to@),
{
    s.replace(from, to)
}

/// `str::split` with a text separator, each piece as an owned string: the
/// contract states the pieces as the documentation describes them, an empty
/// separator matching at every character boundary.
#[verifier::external_body]
fn std_split(s: &str, sep: &str) -> (r: Vec<String>)
    ensures
        r@.len() == split_parts(s@, sep@).len(),
        forall|i: int| 0 <= i < r@.len() ==> #[trigger] r@[i]@ == split_parts(s@, sep@)[i],
{
    s.split(sep).map(String::from).collect()
}

/// The module's initialisation hook; there is nothing to set up.
pub fn init() {
}

/// `trim` on a string.
pub open spec fn spec_trim<N>(value: SValue<N>) -> Result<SValue<N>, RuntimeError> {
    match value {
        SValue::Str(s) => Ok(SValue::Str(trimmed(s))),
        _ => Err(RuntimeError::WrongArgument(Builtin::Trim)),
    }
}

/// A string without leading and trailing white space.
pub fn trim<N>(value: Value<N>) -> (r: Result<Value<N>, RuntimeError>)
    ensures
        reply_view(r) == spec_trim(value@),
{
    match value {
        Value::String(text) => Ok(Value::String(std_trim(text.as_str()))),
        _ => Err(RuntimeError::WrongArgument(Builtin::Trim)),
    }
}

/// `upper` on a string.
pub open spec fn spec_upper<N>(value: SValue<N>) -> Result<SValue<N>, RuntimeError> {
    match value {
        SValue::Str(s) => Ok(SValue::Str(uppercased(s))),
        _ => Err(RuntimeError::WrongArgument(Builtin::Upper)),
    }
}

/// A string in upper case.
pub fn upper<N>(value: Value<N>) -> (r: Result<Value<N>, RuntimeError>)
    ensures
        reply_view(r) == spec_upper(value@),
{
    match value {
        Value::String(text) => Ok(Value::String(std_upper(text.as_str()))),
        _ => Err(RuntimeError::WrongArgument(Builtin::Upper)),
    }
}

/// `lower` on a string.
pub open spec fn spec_lower<N>(value: SValue<N>) -> Result<SValue<N>, RuntimeError> {
    match value {
        SValue::Str(s) => Ok(SValue::Str(lowercased(s))),
        _ => Err(RuntimeError::WrongArgument(Builtin::Lower)),
    }
}

/// A string in lower case.
pub fn lower<N>(value: Value<N>) -> (r: Result<Value<N>, RuntimeError>)
    ensures
        reply_view(r) == spec_lower(value@),
{
    match value {
        Value::String(text) => Ok(Value::String(std_lower(text.as_str()))),
        _ => Err(RuntimeError::WrongArgument(Builtin::Lower)),
    }
}

/// `contains` on strings: whether the pattern occurs in the text.
pub open spec fn spec_contains<N>(text: SValue<N>, pattern: SValue<N>) -> Result<SValue<N>, RuntimeError> {
    match (text, pattern) {
        (SValue::Str(s), SValue::Str(p)) => Ok(SValue::Boolean(occurs_in(p, s))),
        _ => Err(RuntimeError::WrongArgument(Builtin::Contains)),
    }
}

/// Whether `pattern` occurs in `text`.
pub fn contains<N>(text: Value<N>, pattern: Value<N>) -> (r: Result<Value<N>, RuntimeError>)
    ensures
        reply_view(r) == spec_contains(text@, pattern@),
{
    match (text, pattern) {
        (Value::String(text), Value::String(pattern)) => Ok(
            Value::Boolean(text_contains(text.as_str(), pattern.as_str())),
        ),
        _ => Err(RuntimeError::WrongArgument(Builtin::Contains)),
    }
}

/// `starts_with` on strings.
pub open spec fn spec_starts_with<N>(text: SValue<N>, prefix: SValue<N>) -> Result<SValue<N>, RuntimeError> {
    match (text, prefix) {
        (SValue::Str(s), SValue::Str(p)) => Ok(SValue::Boolean(begins_with(s, p))),
        _ => Err(RuntimeError::WrongArgument(Builtin::StartsWith)),
    }
}

/// Whether `text` begins with `prefix`.
pub fn starts_with<N>(text: Value<N>, prefix: Value<N>) -> (r: Result<Value<N>, RuntimeError>)
    ensures
        reply_view(r) == spec_starts_with(text@, prefix@),
{
    match (text, prefix) {
        (Value::String(text), Value::String(prefix)) => Ok(
            Value::Boolean(text_starts_with(text.as_str(), prefix.as_str())),
        ),
        _ => Err(RuntimeError::WrongArgument(Builtin::StartsWith)),
    }
}

/// `ends_with` on strings.
pub open spec fn spec_ends_with<N>(text: SValue<N>, suffix: SValue<N>) -> Result<SValue<N>, RuntimeError> {
    match (text, suffix) {
        (SValue::Str(s), SValue::Str(p)) => Ok(SValue::Boolean(finishes_with(s, p))),
        _ => Err(RuntimeError::WrongArgument(Builtin::EndsWith)),
    }
}

/// Whether `text` ends with `suffix`.
pub fn ends_with<N>(text: Value<N>, suffix: Value<N>) -> (r: Result<Value<N>, RuntimeError>)
    ensures
        reply_view(r) == spec_ends_with(text@, suffix@),
{
    match (text, suffix) {
        (Value::String(text), Value::String(suffix)) => Ok(
            Value::Boolean(text_ends_with(text.as_str(), suffix.as_str())),
        ),
        _ => Err(RuntimeError::WrongArgument(Builtin::EndsWith)),
    }
}

/// `replace` on strings.
pub open spec fn spec_replace<N>(text: SValue<N>, from: SValue<N>, to: SValue<N>) -> Result<SValue<N>, RuntimeError> {
    match (text, from, to) {
        (SValue::Str(s), SValue::Str(f), SValue::Str(t)) => Ok(SValue::Str(replaced(s, f, t))),
        _ => Err(RuntimeError::WrongArgument(Builtin::Replace)),
    }
}

/// `text` with every match of `from` replaced by `to`.
pub fn replace<N>(text: Value<N>, from: Value<N>, to: Value<N>) -> (r: Result<Value<N>, RuntimeError>)
    ensures
        reply_view(r) == spec_replace(text@, from@, to@),
{
    match (text, from, to) {
        (Value::String(text), Value::String(from), Value::String(to)) => Ok(
            Value::String(std_replace(text.as_str(), from.as_str(), to.as_str())),
        ),
        _ => Err(RuntimeError::WrongArgument(Builtin::Replace)),
    }
}

/// The pieces of a split, as string values.
pub open spec fn piece_values<N>(parts: Seq<Seq<char>>) -> Seq<SValue<N>> {
    Seq::new(parts.len(), |i: int| SValue::<N>::Str(parts[i]))
}

/// `split`: a new array of the pieces of the text.
pub open spec fn spec_split<N>(h: HView<N>, text: SValue<N>, separator: SValue<N>) -> (HView<N>, Result<SValue<N>, RuntimeError>) {
    match (text, separator) {
        (SValue::Str(s), SValue::Str(sep)) => (
            HView { arrays: h.arrays.push(piece_values(split_parts(s, sep))), ..h },
            Ok(SValue::Array(h.arrays.len())),
        ),
        _ => (h, Err(RuntimeError::WrongArgument(Builtin::Split))),
    }
}

/// A new array of the pieces of `text` between the matches of `separator`.
pub fn split<N: Number>(heap: &mut Heap<N>, text: Value<N>, separator: Value<N>) -> (r: Result<Value<N>, RuntimeError>)
    ensures
        spec_split(old(heap)@, text@, separator@) == (final(heap)@, reply_view(r)),
{
    match (text, separator) {
        (Value::String(text), Value::String(separator)) => {
            let ghost h0 = heap@;
            let parts = std_split(text.as_str(), separator.as_str());
            let ghost expected = piece_values::<N>(split_parts(text@, separator@));
            let mut values: Vec<Value<N>> = Vec::new();
            let mut i: usize = 0;
            while i < parts.len()
                invariant
                    expected == piece_values::<N>(split_parts(text@, separator@)),
                    parts@.len() == expected.len(),
                    forall|j: int| 0 <= j < parts@.len() ==> #[trigger] parts@[j]@ == split_parts(text@, separator@)[j],
                    i <= parts@.len(),
                    values@.len() == i,
                    forall|j: int| 0 <= j < i ==> #[trigger] values@[j]@ == expected[j],
                decreases parts@.len() - i,
            {
                let piece = parts[i].clone();
                assert(piece@ == split_parts(text@, separator@)[i as int]);
                values.push(Value::String(piece));
                i = i + 1;
            }
            let id = heap.arrays.len();
            heap.arrays.push(values);
            proof {
                assert(values_view(values@) =~= expected);
                assert(heap@.arrays =~= h0.arrays.push(expected));
            }
            Ok(Value::Array(id))
        },
        _ => Err(RuntimeError::WrongArgument(Builtin::Split)),
    }
}

} // verus!
