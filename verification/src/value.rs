//! Runtime values, the heap that arrays, dictionaries, scopes and functions
//! live in, and the errors that evaluation can end with.
use vstd::prelude::*;
use std::rc::Rc;
use crate::ast::{SStmt, Stmt, names_view, stmts_view};

verus! {

/// The arithmetic that numbers of the language follow. The interpreter only
/// moves numbers around; every computation on them is asked of this trait,
/// and each answer is recorded in the heap's log (see [`Outcome`]). Each
/// operation is a function of its arguments, named by a spec function of the
/// trait: the method gives that function's value.
pub trait Number: Copy + Sized {
    /// The number that a literal's digits denote.
    spec fn literal_value(digits: &str) -> Self;

    /// A count as a number.
    spec fn count_value(n: usize) -> Self;

    spec fn sum(self, other: Self) -> Self;

    spec fn difference(self, other: Self) -> Self;

    spec fn product(self, other: Self) -> Self;

    spec fn quotient(self, other: Self) -> Self;

    spec fn modulo(self, other: Self) -> Self;

    spec fn negation(self) -> Self;

    spec fn same_as(self, other: Self) -> bool;

    spec fn below(self, other: Self) -> bool;

    spec fn not_above(self, other: Self) -> bool;

    spec fn above(self, other: Self) -> bool;

    spec fn not_below(self, other: Self) -> bool;

    spec fn zero_test(self) -> bool;

    spec fn position(self) -> usize;

    /// The number that a literal's digits denote.
    fn from_literal(digits: &str) -> (r: Self)
        ensures
            r == Self::literal_value(digits);

    /// A count (a length) as a number.
    fn from_count(n: usize) -> (r: Self)
        ensures
            r == Self::count_value(n);

    fn plus(self, other: Self) -> (r: Self)
        ensures
            r == self.sum(other);

    fn minus(self, other: Self) -> (r: Self)
        ensures
            r == self.difference(other);

    fn times(self, other: Self) -> (r: Self)
        ensures
            r == self.product(other);

    fn divided_by(self, other: Self) -> (r: Self)
        ensures
            r == self.quotient(other);

    fn remainder(self, other: Self) -> (r: Self)
        ensures
            r == self.modulo(other);

    fn negated(self) -> (r: Self)
        ensures
            r == self.negation();

    fn equal_to(self, other: Self) -> (r: bool)
        ensures
            r == self.same_as(other);

    fn less_than(self, other: Self) -> (r: bool)
        ensures
            r == self.below(other);

    fn at_most(self, other: Self) -> (r: bool)
        ensures
            r == self.not_above(other);

    fn greater_than(self, other: Self) -> (r: bool)
        ensures
            r == self.above(other);

    fn at_least(self, other: Self) -> (r: bool)
        ensures
            r == self.not_below(other);

    fn is_zero(self) -> (r: bool)
        ensures
            r == self.zero_test();

    /// The number as a position in an array (saturating at both ends).
    fn to_index(self) -> (r: usize)
        ensures
            r == self.position();
}

/// The number that an arithmetic operation gives.
pub open spec fn arith_of<N: Number>(op: ArithOp, a: N, b: N) -> N {
    match op {
        ArithOp::Plus => a.sum(b),
        ArithOp::Minus => a.difference(b),
        ArithOp::Times => a.product(b),
        ArithOp::Divide => a.quotient(b),
        ArithOp::Remainder => a.modulo(b),
    }
}

/// The truth that a comparison gives.
pub open spec fn compare_of<N: Number>(op: CmpOp, a: N, b: N) -> bool {
    match op {
        CmpOp::Equal => a.same_as(b),
        CmpOp::Less => a.below(b),
        CmpOp::AtMost => a.not_above(b),
        CmpOp::Greater => a.above(b),
        CmpOp::AtLeast => a.not_below(b),
    }
}

/// The answer recorded is the one the arithmetic gives for the question.
pub open spec fn honest<N: Number>(o: Outcome<N>) -> bool {
    match o {
        Outcome::Literal(d, r) => exists|s: &str| s@ == d && r == #[trigger] N::literal_value(s),
        Outcome::Count(n, r) => r == N::count_value(n),
        Outcome::Arith(op, a, b, r) => r == arith_of(op, a, b),
        Outcome::Negate(a, r) => r == a.negation(),
        Outcome::Compare(op, a, b, r) => r == compare_of(op, a, b),
        Outcome::Zero(a, r) => r == a.zero_test(),
        Outcome::Index(a, r) => r == a.position(),
    }
}

/// The arithmetic operations on numbers.
#[derive(Debug, Clone, Copy, PartialEq, Eq, Structural)]
pub enum ArithOp {
    Plus,
    Minus,
    Times,
    Divide,
    Remainder,
}

/// The comparisons of numbers.
#[derive(Debug, Clone, Copy, PartialEq, Eq, Structural)]
pub enum CmpOp {
    Equal,
    Less,
    AtMost,
    Greater,
    AtLeast,
}

/// One question put to the number arithmetic, with its answer, in the order
/// the interpreter asked.
pub enum Outcome<N> {
    Literal(Seq<char>, N),
    Count(usize, N),
    Arith(ArithOp, N, N, N),
    Negate(N, N),
    Compare(CmpOp, N, N, bool),
    Zero(N, bool),
    Index(N, usize),
}

/// The number that an answer gives.
pub open spec fn answer_num<N>(o: Outcome<N>) -> N {
    match o {
        Outcome::Literal(_, r) => r,
        Outcome::Count(_, r) => r,
        Outcome::Arith(_, _, _, r) => r,
        Outcome::Negate(_, r) => r,
        _ => arbitrary(),
    }
}

/// The yes or no that an answer gives.
pub open spec fn answer_flag<N>(o: Outcome<N>) -> bool {
    match o {
        Outcome::Compare(_, _, _, r) => r,
        Outcome::Zero(_, r) => r,
        _ => false,
    }
}

/// The position that an answer gives.
pub open spec fn answer_index<N>(o: Outcome<N>) -> usize {
    match o {
        Outcome::Index(_, r) => r,
        _ => 0,
    }
}

/// A runtime value. Arrays, dictionaries and functions are handles into the
/// [`Heap`], so that every copy of a handle sees the same contents.
pub enum Value<N> {
    Number(N),
    String(String),
    Boolean(bool),
    Null,
    Array(usize),
    Dictionary(usize),
    Function(usize),
}

/// The mathematical model of a value.
pub enum SValue<N> {
    Number(N),
    Str(Seq<char>),
    Boolean(bool),
    Null,
    Array(nat),
    Dictionary(nat),
    Function(nat),
}

impl<N> View for Value<N> {
    type V = SValue<N>;

    open spec fn view(&self) -> SValue<N> {
        match self {
            Value::Number(n) => SValue::Number(*n),
            Value::String(s) => SValue::Str(s@),
            Value::Boolean(b) => SValue::Boolean(*b),
            Value::Null => SValue::Null,
            Value::Array(i) => SValue::Array(*i as nat),
            Value::Dictionary(i) => SValue::Dictionary(*i as nat),
            Value::Function(i) => SValue::Function(*i as nat),
        }
    }
}

impl<N: Copy> Value<N> {
    /// A copy of the value; handles are copied, not what they point to.
    pub fn duplicate(&self) -> (r: Self)
        ensures
            r@ == self@,
    {
        match self {
            Value::Number(n) => Value::Number(*n),
            Value::String(s) => Value::String(s.clone()),
            Value::Boolean(b) => Value::Boolean(*b),
            Value::Null => Value::Null,
            Value::Array(i) => Value::Array(*i),
            Value::Dictionary(i) => Value::Dictionary(*i),
            Value::Function(i) => Value::Function(*i),
        }
    }
}

/// The builtin functions, as named in error reports.
#[derive(Debug, Clone, Copy, PartialEq, Eq, Structural)]
pub enum Builtin {
    Len,
    Push,
    Pop,
    Insert,
    Remove,
    Clear,
    Contains,
    Reverse,
    First,
    Last,
    IsEmpty,
    Trim,
    Upper,
    Lower,
    StartsWith,
    EndsWith,
    Replace,
    Split,
    Keys,
    Values,
    HasKey,
    RemoveKey,
}

/// Why evaluation stopped.
#[derive(Debug, Clone, Copy, PartialEq, Eq, Structural)]
pub enum RuntimeError {
    /// A builtin got an argument of a kind it does not take.
    WrongArgument(Builtin),
    /// `clear` or `contains` got something that is neither of the kinds it works on.
    UnsupportedTarget(Builtin),
    /// A dictionary builtin got a key that is not a string.
    KeyNotString(Builtin),
    /// `insert` or `remove` got a position past the end of the array.
    IndexOutOfRange(Builtin),
    /// A builtin was called with the wrong number of arguments.
    WrongArgumentCount(Builtin),
    /// `&&` or `||` (`and` tells which) met an operand that is not a boolean.
    LogicalOperands { and: bool },
    /// A function was called with `got` arguments but declares `expected` parameters.
    ArgumentCount { expected: usize, got: usize },
    /// Something that is not a function was called.
    NotCallable,
    /// The index operator was used on something other than an array with a
    /// number or a dictionary with a string.
    NotIndexable,
    /// Unary `+` or `-` (`minus` tells which) on something that is not a number.
    UnaryOperand { minus: bool },
    /// A unary operator other than `+`, `-` or `!`.
    UnknownUnary,
    /// `break`, `continue` or `return` where nothing catches it.
    UnexpectedSignal,
    /// A value to print contains itself.
    CyclicValue,
    /// The step budget given to the run was used up.
    StepLimit,
    /// A handle that points at nothing.
    Dangling,
}

/// A piece of printed output. Numbers and quoted strings are written in the
/// language's debug notation by whoever shows the output.
pub enum Piece<N> {
    Text(String),
    Number(N),
    Quoted(String),
}

/// The model of a piece of output.
pub enum SPiece<N> {
    Text(Seq<char>),
    Number(N),
    Quoted(Seq<char>),
}

impl<N> View for Piece<N> {
    type V = SPiece<N>;

    open spec fn view(&self) -> SPiece<N> {
        match self {
            Piece::Text(s) => SPiece::Text(s@),
            Piece::Number(n) => SPiece::Number(*n),
            Piece::Quoted(s) => SPiece::Quoted(s@),
        }
    }
}

/// The models of a line of pieces.
pub open spec fn pieces_view<N>(s: Seq<Piece<N>>) -> Seq<SPiece<N>> {
    Seq::new(s.len(), |i: int| s[i]@)
}

/// How the execution of a statement ended early.
pub enum RuntimeSignal<N> {
    Break,
    Continue,
    Return(Value<N>),
    Failure(RuntimeError),
}

/// The mathematical model of a [`RuntimeSignal`].
pub enum SSignal<N> {
    Break,
    Continue,
    Return(SValue<N>),
    Failure(RuntimeError),
}

impl<N> View for RuntimeSignal<N> {
    type V = SSignal<N>;

    open spec fn view(&self) -> SSignal<N> {
        match self {
            RuntimeSignal::Break => SSignal::Break,
            RuntimeSignal::Continue => SSignal::Continue,
            RuntimeSignal::Return(v) => SSignal::Return(v@),
            RuntimeSignal::Failure(e) => SSignal::Failure(*e),
        }
    }
}

/// One scope: its bindings in the order they were made, and the scope it sits in.
pub struct Frame<N> {
    pub vars: Vec<(String, Value<N>)>,
    pub parent: Option<usize>,
}

/// A function value: its parameters, its body, and the scope it was defined in.
pub struct Closure {
    pub params: Vec<String>,
    pub body: Rc<Vec<Stmt>>,
    pub env: usize,
}

/// Where the contents of arrays, dictionaries, scopes and functions live, and
/// the log of the answers the number arithmetic gave.
pub struct Heap<N> {
    pub arrays: Vec<Vec<Value<N>>>,
    pub dicts: Vec<Vec<(String, Value<N>)>>,
    pub frames: Vec<Frame<N>>,
    pub closures: Vec<Closure>,
    pub log: Ghost<Seq<Outcome<N>>>,
}

/// The model of a scope.
pub struct SFrame<N> {
    pub vars: Seq<(Seq<char>, SValue<N>)>,
    pub parent: Option<nat>,
}

/// The model of a function value.
pub struct SClosure {
    pub params: Seq<Seq<char>>,
    pub body: Seq<SStmt>,
    pub env: nat,
}

/// The model of the heap.
pub struct HView<N> {
    pub arrays: Seq<Seq<SValue<N>>>,
    pub dicts: Seq<Seq<(Seq<char>, SValue<N>)>>,
    pub frames: Seq<SFrame<N>>,
    pub closures: Seq<SClosure>,
    pub log: Seq<Outcome<N>>,
}

/// The models of a list of values.
pub open spec fn values_view<N>(s: Seq<Value<N>>) -> Seq<SValue<N>> {
    Seq::new(s.len(), |i: int| s[i]@)
}

/// The models of a list of named values.
pub open spec fn entries_view<N>(s: Seq<(String, Value<N>)>) -> Seq<(Seq<char>, SValue<N>)> {
    Seq::new(s.len(), |i: int| (s[i].0@, s[i].1@))
}

/// The model of a scope.
pub open spec fn frame_view<N>(f: Frame<N>) -> SFrame<N> {
    SFrame {
        vars: entries_view(f.vars@),
        parent: match f.parent {
            Some(p) => Some(p as nat),
            None => None,
        },
    }
}

/// The model of a function value.
pub open spec fn closure_view(c: Closure) -> SClosure {
    SClosure { params: names_view(c.params@), body: stmts_view((*c.body)@), env: c.env as nat }
}

impl<N> View for Heap<N> {
    type V = HView<N>;

    open spec fn view(&self) -> HView<N> {
        HView {
            arrays: Seq::new(self.arrays@.len(), |i: int| values_view(self.arrays@[i]@)),
            dicts: Seq::new(self.dicts@.len(), |i: int| entries_view(self.dicts@[i]@)),
            frames: Seq::new(self.frames@.len(), |i: int| frame_view(self.frames@[i])),
            closures: Seq::new(self.closures@.len(), |i: int| closure_view(self.closures@[i])),
            log: self.log@,
        }
    }
}

/// `orc` begins with `log`: what was recorded so far is part of every
/// continuation of the record.
pub open spec fn extends<N>(orc: Seq<Outcome<N>>, log: Seq<Outcome<N>>) -> bool {
    log.len() <= orc.len() && orc.subrange(0, log.len() as int) == log
}

/// The answer that `orc` holds at the next position of `h`'s log.
pub open spec fn ask<N>(h: HView<N>, orc: Seq<Outcome<N>>) -> Outcome<N> {
    orc[h.log.len() as int]
}

/// The two heaps hold the same arrays, dictionaries, scopes and functions.
pub open spec fn same_store<N>(a: HView<N>, b: HView<N>) -> bool {
    &&& a.arrays == b.arrays
    &&& a.dicts == b.dicts
    &&& a.frames == b.frames
    &&& a.closures == b.closures
}

/// `h` with one more answer recorded.
pub open spec fn logged<N>(h: HView<N>, o: Outcome<N>) -> HView<N> {
    HView { log: h.log.push(o), ..h }
}

impl<N: Number> Heap<N> {
    /// An empty heap with nothing recorded.
    pub fn new() -> (r: Self)
        ensures
            r@.arrays == Seq::<Seq<SValue<N>>>::empty(),
            r@.dicts == Seq::<Seq<(Seq<char>, SValue<N>)>>::empty(),
            r@.frames == Seq::<SFrame<N>>::empty(),
            r@.closures == Seq::<SClosure>::empty(),
            r@.log == Seq::<Outcome<N>>::empty(),
    {
        let r = Heap {
            arrays: Vec::new(),
            dicts: Vec::new(),
            frames: Vec::new(),
            closures: Vec::new(),
            log: Ghost(Seq::empty()),
        };
        proof {
            assert(r@.arrays =~= Seq::<Seq<SValue<N>>>::empty());
            assert(r@.dicts =~= Seq::<Seq<(Seq<char>, SValue<N>)>>::empty());
            assert(r@.frames =~= Seq::<SFrame<N>>::empty());
            assert(r@.closures =~= Seq::<SClosure>::empty());
        }
        r
    }

    /// Asks for the number that a literal's digits denote, and records it.
    pub fn literal(&mut self, digits: &str) -> (r: N)
        ensures
            final(self)@ == logged(old(self)@, Outcome::Literal(digits@, r)),
            r == N::literal_value(digits),
            honest_growth(old(self)@.log, final(self)@.log),
    {
        let r = N::from_literal(digits);
        proof {
            self.log@ = self.log@.push(Outcome::Literal(digits@, r));
        }
        assert(self@ =~= logged(old(self)@, Outcome::Literal(digits@, r)));
        r
    }

    /// Asks for a count as a number, and records it.
    pub fn count(&mut self, n: usize) -> (r: N)
        ensures
            final(self)@ == logged(old(self)@, Outcome::Count(n, r)),
            r == N::count_value(n),
            honest_growth(old(self)@.log, final(self)@.log),
    {
        let r = N::from_count(n);
        proof {
            self.log@ = self.log@.push(Outcome::Count(n, r));
        }
        assert(self@ =~= logged(old(self)@, Outcome::Count(n, r)));
        r
    }

    /// Asks for an arithmetic operation, and records it.
    pub fn arith(&mut self, op: ArithOp, a: N, b: N) -> (r: N)
        ensures
            final(self)@ == logged(old(self)@, Outcome::Arith(op, a, b, r)),
            r == arith_of(op, a, b),
            honest_growth(old(self)@.log, final(self)@.log),
    {
        let r = match op {
            ArithOp::Plus => a.plus(b),
            ArithOp::Minus => a.minus(b),
            ArithOp::Times => a.times(b),
            ArithOp::Divide => a.divided_by(b),
            ArithOp::Remainder => a.remainder(b),
        };
        proof {
            self.log@ = self.log@.push(Outcome::Arith(op, a, b, r));
        }
        assert(self@ =~= logged(old(self)@, Outcome::Arith(op, a, b, r)));
        r
    }

    /// Asks for the negation of a number, and records it.
    pub fn negate(&mut self, a: N) -> (r: N)
        ensures
            final(self)@ == logged(old(self)@, Outcome::Negate(a, r)),
            r == a.negation(),
            honest_growth(old(self)@.log, final(self)@.log),
    {
        let r = a.negated();
        proof {
            self.log@ = self.log@.push(Outcome::Negate(a, r));
        }
        assert(self@ =~= logged(old(self)@, Outcome::Negate(a, r)));
        r
    }

    /// Asks for a comparison, and records it.
    pub fn compare(&mut self, op: CmpOp, a: N, b: N) -> (r: bool)
        ensures
            final(self)@ == logged(old(self)@, Outcome::Compare(op, a, b, r)),
            r == compare_of(op, a, b),
            honest_growth(old(self)@.log, final(self)@.log),
    {
        let r = match op {
            CmpOp::Equal => a.equal_to(b),
            CmpOp::Less => a.less_than(b),
            CmpOp::AtMost => a.at_most(b),
            CmpOp::Greater => a.greater_than(b),
            CmpOp::AtLeast => a.at_least(b),
        };
        proof {
            self.log@ = self.log@.push(Outcome::Compare(op, a, b, r));
        }
        assert(self@ =~= logged(old(self)@, Outcome::Compare(op, a, b, r)));
        r
    }

    /// Asks whether a number is zero, and records it.
    pub fn zero(&mut self, a: N) -> (r: bool)
        ensures
            final(self)@ == logged(old(self)@, Outcome::Zero(a, r)),
            r == a.zero_test(),
            honest_growth(old(self)@.log, final(self)@.log),
    {
        let r = a.is_zero();
        proof {
            self.log@ = self.log@.push(Outcome::Zero(a, r));
        }
        assert(self@ =~= logged(old(self)@, Outcome::Zero(a, r)));
        r
    }

    /// Asks for a number as an array position, and records it.
    pub fn index(&mut self, a: N) -> (r: usize)
        ensures
            final(self)@ == logged(old(self)@, Outcome::Index(a, r)),
            r == a.position(),
            honest_growth(old(self)@.log, final(self)@.log),
    {
        let r = a.to_index();
        proof {
            self.log@ = self.log@.push(Outcome::Index(a, r));
        }
        assert(self@ =~= logged(old(self)@, Outcome::Index(a, r)));
        r
    }
}

/// What a builtin or an evaluation gives back.
pub open spec fn reply_view<N>(r: Result<Value<N>, RuntimeError>) -> Result<SValue<N>, RuntimeError> {
    match r {
        Ok(v) => Ok(v@),
        Err(e) => Err(e),
    }
}

/// A record continues itself.
pub proof fn lemma_extends_refl<N>(a: Seq<Outcome<N>>)
    ensures
        extends(a, a),
{
    assert(a.subrange(0, a.len() as int) =~= a);
}

/// Recording one more answer continues the record, and every continuation of
/// the longer record holds that answer at the next position of the shorter one.
pub proof fn lemma_logged<N>(h: HView<N>, o: Outcome<N>)
    ensures
        extends(logged(h, o).log, h.log),
        forall|orc: Seq<Outcome<N>>| extends(orc, logged(h, o).log) ==> #[trigger] ask(h, orc) == o,
{
    assert(logged(h, o).log.subrange(0, h.log.len() as int) =~= h.log);
    assert forall|orc: Seq<Outcome<N>>| extends(orc, logged(h, o).log) implies #[trigger] ask(h, orc) == o by {
        assert(orc.subrange(0, h.log.len() + 1int)[h.log.len() as int] == orc[h.log.len() as int]);
    }
}

/// Recording more answers keeps every continuation of the longer record a
/// continuation of the shorter one.
pub broadcast proof fn lemma_extends_trans<N>(a: Seq<Outcome<N>>, b: Seq<Outcome<N>>, c: Seq<Outcome<N>>)
    requires
        #[trigger] extends(a, b),
        #[trigger] extends(b, c),
    ensures
        extends(a, c),
{
    assert(a.subrange(0, c.len() as int) =~= b.subrange(0, c.len() as int));
}

/// Every answer recorded after the first `old.len()` of `new` is the one the
/// arithmetic gives for its question.
pub open spec fn honest_growth<N: Number>(old: Seq<Outcome<N>>, new: Seq<Outcome<N>>) -> bool {
    forall|i: int| old.len() <= i < new.len() ==> honest(#[trigger] new[i])
}

/// Honest growth in two steps is honest growth.
pub broadcast proof fn lemma_honest_trans<N: Number>(a: Seq<Outcome<N>>, b: Seq<Outcome<N>>, c: Seq<Outcome<N>>)
    requires
        #[trigger] honest_growth(a, b),
        #[trigger] honest_growth(b, c),
        extends(b, a),
        extends(c, b),
    ensures
        honest_growth(a, c),
{
    assert forall|i: int| a.len() <= i < c.len() implies honest(#[trigger] c[i]) by {
        if i < b.len() {
            assert(c.subrange(0, b.len() as int)[i] == c[i]);
            assert(honest(b[i]));
        }
    }
}

} // verus!
