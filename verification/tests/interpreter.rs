use gnc::interpreter::Interpreter;
use gnc::runner::{run_source, run_source_with_path};
use gnc::value::{Builtin, Number, Piece, RuntimeError};

#[derive(Clone, Copy, Debug, PartialEq)]
struct Num(f64);

impl Number for Num {
    fn literal_value(digits: &str) -> Self {
        Self::from_literal(digits)
    }
    fn count_value(n: usize) -> Self {
        Self::from_count(n)
    }
    fn sum(self, other: Self) -> Self {
        self.plus(other)
    }
    fn difference(self, other: Self) -> Self {
        self.minus(other)
    }
    fn product(self, other: Self) -> Self {
        self.times(other)
    }
    fn quotient(self, other: Self) -> Self {
        self.divided_by(other)
    }
    fn modulo(self, other: Self) -> Self {
        self.remainder(other)
    }
    fn negation(self) -> Self {
        self.negated()
    }
    fn same_as(self, other: Self) -> bool {
        self.equal_to(other)
    }
    fn below(self, other: Self) -> bool {
        self.less_than(other)
    }
    fn not_above(self, other: Self) -> bool {
        self.at_most(other)
    }
    fn above(self, other: Self) -> bool {
        self.greater_than(other)
    }
    fn not_below(self, other: Self) -> bool {
        self.at_least(other)
    }
    fn zero_test(self) -> bool {
        self.is_zero()
    }
    fn position(self) -> usize {
        self.to_index()
    }
    fn from_literal(digits: &str) -> Self {
        Num(digits.parse().unwrap_or(0.0))
    }
    fn from_count(n: usize) -> Self {
        Num(n as f64)
    }
    fn plus(self, other: Self) -> Self {
        Num(self.0 + other.0)
    }
    fn minus(self, other: Self) -> Self {
        Num(self.0 - other.0)
    }
    fn times(self, other: Self) -> Self {
        Num(self.0 * other.0)
    }
    fn divided_by(self, other: Self) -> Self {
        Num(self.0 / other.0)
    }
    fn remainder(self, other: Self) -> Self {
        Num(self.0 % other.0)
    }
    fn negated(self) -> Self {
        Num(-self.0)
    }
    fn equal_to(self, other: Self) -> bool {
        self.0 == other.0
    }
    fn less_than(self, other: Self) -> bool {
        self.0 < other.0
    }
    fn at_most(self, other: Self) -> bool {
        self.0 <= other.0
    }
    fn greater_than(self, other: Self) -> bool {
        self.0 > other.0
    }
    fn at_least(self, other: Self) -> bool {
        self.0 >= other.0
    }
    fn is_zero(self) -> bool {
        self.0 == 0.0
    }
    fn to_index(self) -> usize {
        self.0 as usize
    }
}

fn show(line: &[Piece<Num>]) -> String {
    let mut s = String::new();
    for p in line {
        match p {
            Piece::Text(t) => s.push_str(t),
            Piece::Number(n) => s.push_str(&format!("{:?}", n.0)),
            Piece::Quoted(t) => s.push_str(&format!("{:?}", t)),
        }
    }
    s
}

fn run_with(interp: &mut Interpreter<Num>, src: &str) -> (Vec<String>, Result<(), RuntimeError>) {
    let r = run_source(src.to_string(), interp);
    let lines = interp.output().iter().map(|l| show(l)).collect();
    (lines, r)
}

fn run(src: &str) -> (Vec<String>, Result<(), RuntimeError>) {
    let mut interp = Interpreter::new();
    run_with(&mut interp, src)
}

#[test]
fn arithmetic_follows_precedence() {
    let (out, r) = run("print(1 + 2 * 3); print(2 * 3 - 4 / 8); print(7 % 4 - 10 / 4); print(1 - 2 - 3);");
    assert_eq!(r, Ok(()));
    assert_eq!(out, vec!["Number(7.0)", "Number(5.5)", "Number(0.5)", "Number(-4.0)"]);
}

#[test]
fn comparisons_and_equality() {
    let (out, r) = run("print(1 < 2); print(2 <= 1); print(3 == 3); print(\"a\" != \"b\"); print(null == null); print(true == 1);");
    assert_eq!(r, Ok(()));
    assert_eq!(
        out,
        vec!["Boolean(true)", "Boolean(false)", "Boolean(true)", "Boolean(true)", "Boolean(true)", "Null"]
    );
}

#[test]
fn let_then_read_gives_the_value() {
    let (out, r) = run("let x = 5; print(x); let x = 6; print(x);");
    assert_eq!(r, Ok(()));
    assert_eq!(out, vec!["Number(5.0)", "Number(6.0)"]);
}

#[test]
fn assignment_reaches_the_enclosing_scope() {
    let src = "let count = 0; fn bump() { count = count + 1; } bump(); bump(); print(count);";
    let (out, r) = run(src);
    assert_eq!(r, Ok(()));
    assert_eq!(out, vec!["Number(2.0)"]);
}

#[test]
fn assignment_to_a_new_name_binds_it_locally() {
    let src = "fn f() { fresh = 3; return fresh; } print(f()); print(fresh);";
    let (out, r) = run(src);
    assert_eq!(r, Ok(()));
    assert_eq!(out, vec!["Number(3.0)", "Null"]);
}

#[test]
fn unknown_name_reads_as_null() {
    let (out, r) = run("print(nothing);");
    assert_eq!(r, Ok(()));
    assert_eq!(out, vec!["Null"]);
}

#[test]
fn unary_operators() {
    let (out, r) = run("print(-3); print(+4); print(!true); print(!0); print(!\"\"); print(![]);");
    assert_eq!(r, Ok(()));
    assert_eq!(
        out,
        vec!["Number(-3.0)", "Number(4.0)", "Boolean(false)", "Boolean(true)", "Boolean(true)", "Boolean(true)"]
    );
}

#[test]
fn unary_minus_on_a_string_fails() {
    let (_, r) = run("print(-\"a\");");
    assert_eq!(r, Err(RuntimeError::UnaryOperand { minus: true }));
}

#[test]
fn if_else_picks_a_branch() {
    let (out, r) = run("if (1 > 2) { print(1); } else { print(2); } if (\"x\") { print(3); }");
    assert_eq!(r, Ok(()));
    assert_eq!(out, vec!["Number(2.0)", "Number(3.0)"]);
}

#[test]
fn while_loop_with_break_and_continue() {
    let src = "let i = 0; let s = 0; while (i < 10) { i = i + 1; if (i == 3) { continue; } if (i == 6) { break; } s = s + i; } print(s);";
    let (out, r) = run(src);
    assert_eq!(r, Ok(()));
    assert_eq!(out, vec!["Number(12.0)"]);
}

#[test]
fn for_loop_counts() {
    let src = "for (let i = 0; i < 3; i = i + 1) { print(i); }";
    let (out, r) = run(src);
    assert_eq!(r, Ok(()));
    assert_eq!(out, vec!["Number(0.0)", "Number(1.0)", "Number(2.0)"]);
}

#[test]
fn recursive_function() {
    let src = "fn fib(n) { if (n < 2) { return n; } return fib(n - 1) + fib(n - 2); } print(fib(10));";
    let (out, r) = run(src);
    assert_eq!(r, Ok(()));
    assert_eq!(out, vec!["Number(55.0)"]);
}

#[test]
fn closures_see_their_defining_scope() {
    let src = "fn outer() { let secret = 41; fn inner() { return secret + 1; } return inner; } let g = outer(); print(g());";
    let (out, r) = run(src);
    assert_eq!(r, Ok(()));
    assert_eq!(out, vec!["Number(42.0)"]);
}

#[test]
fn function_without_return_gives_null() {
    let (out, r) = run("fn f() { let a = 1; } print(f());");
    assert_eq!(r, Ok(()));
    assert_eq!(out, vec!["Null"]);
}

#[test]
fn printing_a_function_shows_its_parameters() {
    let (out, r) = run("fn add(a, b) { return a + b; } print(add);");
    assert_eq!(r, Ok(()));
    assert_eq!(out, vec!["Function { params: [\"a\", \"b\"], .. }"]);
}

#[test]
fn wrong_number_of_arguments_fails() {
    let (_, r) = run("fn f(a) { return a; } f(1, 2);");
    assert_eq!(r, Err(RuntimeError::ArgumentCount { expected: 1, got: 2 }));
}

#[test]
fn calling_a_number_fails() {
    let (_, r) = run("let x = 1; x();");
    assert_eq!(r, Err(RuntimeError::NotCallable));
}

#[test]
fn break_outside_a_loop_is_unexpected() {
    let (_, r) = run("break;");
    assert_eq!(r, Err(RuntimeError::UnexpectedSignal));
}

#[test]
fn return_outside_a_function_is_unexpected() {
    let (out, r) = run("print(1); return 2; print(3);");
    assert_eq!(r, Err(RuntimeError::UnexpectedSignal));
    assert_eq!(out, vec!["Number(1.0)"]);
}

#[test]
fn endless_loop_stops_at_the_budget() {
    let mut interp: Interpreter<Num> = Interpreter::with_budget(50);
    let (_, r) = run_with(&mut interp, "while (true) { }");
    assert_eq!(r, Err(RuntimeError::StepLimit));
}

#[test]
fn endless_recursion_stops_at_the_budget() {
    let mut interp: Interpreter<Num> = Interpreter::with_budget(20);
    let (_, r) = run_with(&mut interp, "fn f() { return f(); } f();");
    assert_eq!(r, Err(RuntimeError::StepLimit));
}

#[test]
fn arrays_print_and_index() {
    let (out, r) = run("let a = [1, \"two\", true]; print(a); print(a[1]); print(a[7]);");
    assert_eq!(r, Ok(()));
    assert_eq!(
        out,
        vec![
            "Array(RefCell { value: [Number(1.0), String(\"two\"), Boolean(true)] })",
            "String(\"two\")",
            "Null",
        ]
    );
}

#[test]
fn arrays_are_shared_between_names() {
    let (out, r) = run("let a = [1]; let b = a; push(b, 2); print(len(a));");
    assert_eq!(r, Ok(()));
    assert_eq!(out, vec!["Number(2.0)"]);
}

#[test]
fn indexing_a_number_fails() {
    let (_, r) = run("let n = 3; print(n[0]);");
    assert_eq!(r, Err(RuntimeError::NotIndexable));
}

#[test]
fn a_value_that_contains_itself_cannot_be_printed() {
    let (_, r) = run("let a = [1]; push(a, a); print(a);");
    assert_eq!(r, Err(RuntimeError::CyclicValue));
}

#[test]
fn nested_arrays_print() {
    let (out, r) = run("let a = [[1], []]; print(a);");
    assert_eq!(r, Ok(()));
    assert_eq!(out, vec!["Array(RefCell { value: [Array(RefCell { value: [Number(1.0)] }), Array(RefCell { value: [] })] })"]);
}

#[test]
fn array_builtins() {
    let src = "let a = [3, 1]; push(a, 2); print(len(a)); print(pop(a)); insert(a, 0, 9); print(a); print(remove(a, 1)); \
               print(contains(a, 1)); print(contains(a, 5)); reverse(a); print(a); print(first(a)); print(last(a)); \
               clear(a); print(is_empty(a)); print(first(a)); print(pop(a));";
    let (out, r) = run(src);
    assert_eq!(r, Ok(()));
    assert_eq!(
        out,
        vec![
            "Number(3.0)",
            "Number(2.0)",
            "Array(RefCell { value: [Number(9.0), Number(3.0), Number(1.0)] })",
            "Number(3.0)",
            "Boolean(true)",
            "Boolean(false)",
            "Array(RefCell { value: [Number(1.0), Number(9.0)] })",
            "Number(1.0)",
            "Number(9.0)",
            "Boolean(true)",
            "Null",
            "Null",
        ]
    );
}

#[test]
fn push_then_pop_gives_the_value_back() {
    let (out, r) = run("let a = [1, 2]; push(a, 7); print(pop(a)); print(a);");
    assert_eq!(r, Ok(()));
    assert_eq!(out, vec!["Number(7.0)", "Array(RefCell { value: [Number(1.0), Number(2.0)] })"]);
}

#[test]
fn reverse_twice_restores_the_array() {
    let (out, r) = run("let a = [1, 2, 3]; reverse(a); reverse(a); print(a);");
    assert_eq!(r, Ok(()));
    assert_eq!(out, vec!["Array(RefCell { value: [Number(1.0), Number(2.0), Number(3.0)] })"]);
}

#[test]
fn insert_past_the_end_fails() {
    let (_, r) = run("let a = [1]; insert(a, 5, 0);");
    assert_eq!(r, Err(RuntimeError::IndexOutOfRange(Builtin::Insert)));
}

#[test]
fn remove_past_the_end_fails() {
    let (_, r) = run("let a = [1]; remove(a, 1);");
    assert_eq!(r, Err(RuntimeError::IndexOutOfRange(Builtin::Remove)));
}

#[test]
fn builtin_with_wrong_argument_count_fails() {
    let (_, r) = run("push([1]);");
    assert_eq!(r, Err(RuntimeError::WrongArgumentCount(Builtin::Push)));
}

#[test]
fn builtin_with_wrong_argument_kind_fails() {
    let (_, r) = run("pop(3);");
    assert_eq!(r, Err(RuntimeError::WrongArgument(Builtin::Pop)));
}

#[test]
fn clear_on_a_number_is_unsupported() {
    let (_, r) = run("clear(3);");
    assert_eq!(r, Err(RuntimeError::UnsupportedTarget(Builtin::Clear)));
}

#[test]
fn contains_on_a_boolean_is_unsupported() {
    let (_, r) = run("contains(true, 1);");
    assert_eq!(r, Err(RuntimeError::UnsupportedTarget(Builtin::Contains)));
}

#[test]
fn string_builtins() {
    let src = "print(len(\"héllo\")); print(upper(\"abc\")); print(lower(\"ABC\")); print(trim(\"  x  \")); \
               print(contains(\"hello\", \"ell\")); print(starts_with(\"hello\", \"he\")); print(ends_with(\"hello\", \"lo\")); \
               print(replace(\"a-b-c\", \"-\", \"+\")); print(split(\"a,b\", \",\"));";
    let (out, r) = run(src);
    assert_eq!(r, Ok(()));
    assert_eq!(
        out,
        vec![
            "Number(6.0)",
            "String(\"ABC\")",
            "String(\"abc\")",
            "String(\"x\")",
            "Boolean(true)",
            "Boolean(true)",
            "Boolean(true)",
            "String(\"a+b+c\")",
            "Array(RefCell { value: [String(\"a\"), String(\"b\")] })",
        ]
    );
}

#[test]
fn upper_of_a_number_fails() {
    let (_, r) = run("upper(1);");
    assert_eq!(r, Err(RuntimeError::WrongArgument(Builtin::Upper)));
}

#[test]
fn dictionary_builtins_reject_other_values() {
    let (_, r) = run("keys([1]);");
    assert_eq!(r, Err(RuntimeError::WrongArgument(Builtin::Keys)));
    let (_, r) = run("has_key(1, \"a\");");
    assert_eq!(r, Err(RuntimeError::WrongArgument(Builtin::HasKey)));
}

#[test]
fn output_before_a_failure_is_kept() {
    let (out, r) = run("print(1); pop(1); print(2);");
    assert_eq!(out, vec!["Number(1.0)"]);
    assert_eq!(r, Err(RuntimeError::WrongArgument(Builtin::Pop)));
}

#[test]
fn grouping_parentheses_are_not_part_of_the_language() {
    let (out, r) = run("print(1); print((1 + 2) * 3); print(2);");
    assert_eq!(r, Ok(()));
    assert_eq!(out, vec!["Number(1.0)"]);
}

#[test]
fn increment_is_not_part_of_the_language() {
    let (out, r) = run("let i = 1; i++; print(i);");
    assert_eq!(r, Ok(()));
    assert!(out.is_empty());
}

#[test]
fn parsing_stops_at_the_first_bad_statement() {
    let (out, r) = run("print(1); let = 3; print(2);");
    assert_eq!(r, Ok(()));
    assert_eq!(out, vec!["Number(1.0)"]);
}

#[test]
fn run_source_records_an_empty_file_name() {
    let mut interp: Interpreter<Num> = Interpreter::new();
    let _ = run_source("print(1);".to_string(), &mut interp);
    assert_eq!(interp.current_file(), Some(&String::new()));
    assert_eq!(interp.current_directory(), None);
}

#[test]
fn run_source_with_path_records_the_file_and_its_directory() {
    let mut interp: Interpreter<Num> = Interpreter::new();
    let r = run_source_with_path("print(1);".to_string(), "scripts/main.gn".to_string(), &mut interp);
    assert_eq!(r, Ok(()));
    assert_eq!(interp.current_file(), Some(&"scripts/main.gn".to_string()));
    assert_eq!(interp.current_directory(), Some(&"scripts".to_string()));
}

#[test]
fn new_interpreter_has_no_file() {
    let interp: Interpreter<Num> = Interpreter::new();
    assert_eq!(interp.current_file(), None);
    assert_eq!(interp.current_directory(), None);
    assert!(interp.output().is_empty());
}

#[test]
fn set_current_file_without_directory() {
    let mut interp: Interpreter<Num> = Interpreter::new();
    interp.set_current_file("main.gn".to_string());
    assert_eq!(interp.current_file(), Some(&"main.gn".to_string()));
    assert_eq!(interp.current_directory(), Some(&String::new()));
}

#[test]
fn state_carries_over_between_runs() {
    let mut interp: Interpreter<Num> = Interpreter::new();
    let (_, r1) = run_with(&mut interp, "let x = 10;");
    assert_eq!(r1, Ok(()));
    let (out, r2) = run_with(&mut interp, "print(x + 1);");
    assert_eq!(r2, Ok(()));
    assert_eq!(out, vec!["Number(11.0)"]);
}

#[test]
fn a_call_returns_to_the_callers_scope() {
    let (out, r) = run("let x = 1; fn f() { let x = 2; print(x); } f(); print(x);");
    assert_eq!(r, Ok(()));
    assert_eq!(out, vec!["Number(2.0)", "Number(1.0)"]);
}

#[test]
fn assigning_one_name_leaves_the_others() {
    let (out, r) = run("let a = 1; let b = 2; a = 5; print(a); print(b);");
    assert_eq!(r, Ok(()));
    assert_eq!(out, vec!["Number(5.0)", "Number(2.0)"]);
}

#[test]
fn push_then_last_gives_the_value() {
    let (out, r) = run("let a = []; push(a, \"z\"); print(last(a));");
    assert_eq!(r, Ok(()));
    assert_eq!(out, vec!["String(\"z\")"]);
}

#[test]
fn clear_then_is_empty() {
    let (out, r) = run("let a = [1, 2]; clear(a); print(is_empty(a)); print(len(a));");
    assert_eq!(r, Ok(()));
    assert_eq!(out, vec!["Boolean(true)", "Number(0.0)"]);
}

#[test]
fn running_in_parts_is_running_as_one() {
    let first = "let x = 1; print(x);";
    let second = "x = x + 1; print(x);";
    let mut parts: Interpreter<Num> = Interpreter::new();
    let (_, r1) = run_with(&mut parts, first);
    let (out_parts, r2) = run_with(&mut parts, second);
    let (out_whole, r) = run(&format!("{} {}", first, second));
    assert_eq!(r1, Ok(()));
    assert_eq!(r2, Ok(()));
    assert_eq!(r, Ok(()));
    assert_eq!(out_parts, out_whole);
    assert_eq!(out_whole, vec!["Number(1.0)", "Number(2.0)"]);
}

#[test]
fn no_run_meets_a_dangling_handle() {
    let programs = [
        "let a = [1, [2]]; print(a[1]); fn f(x) { return [x, x]; } print(f(a));",
        "let s = split(\"a,b\", \",\"); push(s, s); print(len(s));",
        "fn mk() { let inner = 5; fn get() { return inner; } return get; } let g = mk(); print(g());",
        "let a = [3]; print(remove(a, 0)); print(pop(a)); print(first(a));",
    ];
    for src in programs {
        let (_, r) = run(src);
        assert_ne!(r, Err(RuntimeError::Dangling));
        assert_eq!(r, Ok(()));
    }
}

#[test]
fn insert_then_remove_gives_the_value_back() {
    let (out, r) = run("let a = [1, 2]; insert(a, 1, 9); print(remove(a, 1)); print(a);");
    assert_eq!(r, Ok(()));
    assert_eq!(out, vec!["Number(9.0)", "Array(RefCell { value: [Number(1.0), Number(2.0)] })"]);
}

#[test]
fn number_truth_follows_the_zero_test() {
    let (out, r) = run("if (0) { print(1); } else { print(2); } if (3) { print(4); } print(!5);");
    assert_eq!(r, Ok(()));
    assert_eq!(out, vec!["Number(2.0)", "Number(4.0)", "Boolean(false)"]);
}
