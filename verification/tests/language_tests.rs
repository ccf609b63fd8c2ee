//! End-to-end checks of the language against both execution paths,
//! the documented edge cases, and the textual forms.

use monkey::compiler::Compiler;
use monkey::env::Environment;
use monkey::eval::eval_program;
use monkey::lexer::Lexer;
use monkey::object::{object_eq, Object};
use monkey::parser::Parser;
use monkey::vm::Vm;

const FUEL: u64 = 1_000_000;

fn parse(inp: &str) -> monkey::ast::Program {
    let lexer = Lexer::new(inp.to_string());
    let mut parser = Parser::new(lexer);
    parser.parse().expect("parse failed")
}

fn run_eval(inp: &str) -> Result<Object, monkey::object::RunError> {
    let prog = parse(inp);
    let mut env = Environment::new();
    eval_program(FUEL, &prog, &mut env)
}

fn run_vm(inp: &str) -> Result<Object, String> {
    let mut compiler = Compiler::default();
    compiler.compile(parse(inp)).map_err(|e| e.message())?;
    let mut vm = Vm::new(compiler.bytecode());
    vm.run(FUEL).map_err(|e| e.message())?;
    Ok(vm.last_popped())
}

fn both_give(inp: &str, expected: Object) {
    let e = run_eval(inp).unwrap_or_else(|x| panic!("eval: {}", x.message()));
    assert!(object_eq(&e, &expected), "eval of {:?} gave {:?}", inp, e);
    let v = run_vm(inp).unwrap_or_else(|x| panic!("vm: {}", x));
    assert!(object_eq(&v, &expected), "vm of {:?} gave {:?}", inp, v);
}

#[test]
fn arithmetic_scenario() {
    both_give("(5 + 10 * 2 + 15 / 3) * 2 + -10", Object::Integer(50));
}

#[test]
fn identity_function_scenario() {
    both_give("let id = fn(x){x}; id(5)", Object::Integer(5));
}

#[test]
fn factorial_scenario() {
    // the compiler binds a let name only after compiling its value,
    // so a self-recursive function runs on the evaluator
    let r = run_eval("let fact = fn(n){ if (n==0){1} else {n*fact(n-1)} }; fact(5)").unwrap();
    assert!(object_eq(&r, &Object::Integer(120)));
}

#[test]
fn array_sum_scenario() {
    both_give("let a = [1,2,3]; a[0]+a[1]+a[2]", Object::Integer(6));
}

#[test]
fn hash_lookup_scenario() {
    both_give(r#"{"one":1,"two":2}["two"]"#, Object::Integer(2));
}

#[test]
fn string_length_scenario() {
    both_give(r#"len("hello world")"#, Object::Integer(11));
}

#[test]
fn closure_scenario() {
    // closures over enclosing locals run on the evaluator; the
    // machine path captures only globals and builtins
    let r = run_eval("let c = fn(x){ fn(y){ x+y } }; c(3)(4)").unwrap();
    assert!(object_eq(&r, &Object::Integer(7)));
}

#[test]
fn capturing_a_local_is_a_compile_error() {
    // without closure support the compiler must refuse a resolution
    // that crosses a function boundary into a local
    let mut compiler = Compiler::default();
    let err = compiler
        .compile(parse("let c = fn(x){ fn(y){ x+y } }; c(3)(4)"))
        .unwrap_err();
    assert_eq!(
        err.message(),
        "cannot capture local variable of an enclosing function: x"
    );
}

#[test]
fn only_false_null_and_zero_are_falsy() {
    both_give(r#"if ("x") { 1 } else { 2 }"#, Object::Integer(1));
    both_give("if ([]) { 1 } else { 2 }", Object::Integer(1));
    both_give("if ({}) { 1 } else { 2 }", Object::Integer(1));
    both_give("!\"\"", Object::Bool(false));
    both_give("!0", Object::Bool(true));
}

#[test]
fn string_length_counts_bytes() {
    // a two-byte character counts twice: len is the UTF-8 byte count
    let r = run_eval("len(\"h\u{e9}llo\")").unwrap();
    assert!(object_eq(&r, &Object::Integer(6)));
}

#[test]
fn string_concat_scenario() {
    both_give(r#""hello" + " " + "world""#, Object::String("hello world".into()));
}

#[test]
fn if_without_else_scenario() {
    both_give("if (false) { 10 }", Object::Null);
}

#[test]
fn wrong_arity_scenario() {
    let err = run_vm("fn(a,b){a+b}(1)").unwrap_err();
    assert_eq!(err, "wrong number of arguments. expected 2, got 1");
    let err = run_eval("fn(a,b){a+b}(1)").unwrap_err();
    assert_eq!(err.message(), "function expects 2 arguments but 1 were given");
}

#[test]
fn division_by_zero_is_an_error() {
    assert_eq!(run_eval("1 / 0").unwrap_err().message(), "division by zero");
    assert_eq!(run_vm("1 / 0").unwrap_err(), "division by zero");
}

#[test]
fn division_truncates_toward_zero() {
    both_give("-7 / 2", Object::Integer(-3));
    both_give("7 / -2", Object::Integer(-3));
    both_give("-7 / -2", Object::Integer(3));
}

#[test]
fn number_overflow_is_a_lex_failure() {
    // a literal beyond the signed 64-bit range becomes an illegal
    // token, which the parser has no parselet for
    let lexer = Lexer::new("9223372036854775808".to_string());
    let mut parser = Parser::new(lexer);
    assert!(parser.parse().is_err());
    // the largest value still fits
    let r = run_eval("9223372036854775807").unwrap();
    assert!(object_eq(&r, &Object::Integer(i64::MAX)));
}

#[test]
fn unterminated_string_is_a_lex_failure() {
    let lexer = Lexer::new(r#""abc"#.to_string());
    let mut parser = Parser::new(lexer);
    assert!(parser.parse().is_err());
}

#[test]
fn undefined_symbol_is_a_compile_error() {
    let mut compiler = Compiler::default();
    let err = compiler.compile(parse("foobar")).unwrap_err();
    assert_eq!(err.message(), "undefined symbol: foobar");
}

#[test]
fn empty_program_evaluates_to_null() {
    both_give("", Object::Null);
}

#[test]
fn hash_later_entry_wins() {
    both_give(r#"{1: 2, 1: 3}[1]"#, Object::Integer(3));
}

#[test]
fn value_text_forms() {
    assert_eq!(run_eval("[1, 2, 3]").unwrap().to_text(), "[1, 2, 3]");
    assert_eq!(run_eval(r#"{"a": 1}"#).unwrap().to_text(), "{a: 1}");
    assert_eq!(run_eval("if (false) { 1 }").unwrap().to_text(), "null");
    assert_eq!(run_eval("true").unwrap().to_text(), "true");
    assert_eq!(run_eval(r#""raw text""#).unwrap().to_text(), "raw text");
    assert_eq!(run_eval("-42").unwrap().to_text(), "-42");
}

#[test]
fn push_grows_length_by_one() {
    both_give("len(push([1, 2], 9))", Object::Integer(3));
    both_give("len(push([], 1))", Object::Integer(1));
}

#[test]
fn first_and_rest() {
    both_give("first([7, 8, 9])", Object::Integer(7));
    both_give("len(rest([7, 8, 9]))", Object::Integer(2));
    both_give("rest([7, 8, 9])[0]", Object::Integer(8));
    both_give("rest([7, 8, 9])[1]", Object::Integer(9));
}

#[test]
fn out_of_bounds_indexing_yields_null() {
    both_give("[1][5]", Object::Null);
    both_give("[1][-2]", Object::Null);
    both_give("{}[true]", Object::Null);
}

#[test]
fn if_with_else_yields_branch_value() {
    both_give("if (1) { 1; 2 } else { 3 }", Object::Integer(2));
    both_give("if (0) { 1 } else { 3; 4 }", Object::Integer(4));
}

#[test]
fn equality_is_structural() {
    both_give("[1, 2] == [1, 2]", Object::Bool(true));
    both_give("[1, 2] == [1, 3]", Object::Bool(false));
    both_give("{1: 2} == {1: 2}", Object::Bool(true));
    both_give("{1: 2} != {1: 3}", Object::Bool(true));
}

#[test]
fn mixed_kind_operands_are_a_type_mismatch() {
    assert_eq!(run_eval("5 == true").unwrap_err().message(), "type mismatch: INTEGER == BOOL");
    assert_eq!(run_eval(r#"1 + "a""#).unwrap_err().message(), "type mismatch: INTEGER + STRING");
}

#[test]
fn global_state_carries_between_runs() {
    // the interactive loop threads compiler and machine state from
    // one line to the next
    let mut compiler = Compiler::default();
    compiler.compile(parse("let a = 40;")).unwrap();
    let (syms, consts) = compiler.state();
    let mut vm = Vm::new(compiler.bytecode());
    vm.run(FUEL).unwrap();
    let globals = vm.state();

    let mut compiler2 = Compiler::new_with_state(syms, consts);
    compiler2.compile(parse("a + 2")).unwrap();
    let mut vm2 = Vm::new_with_state(compiler2.bytecode(), globals);
    vm2.run(FUEL).unwrap();
    assert!(object_eq(&vm2.last_popped(), &Object::Integer(42)));
}

#[test]
fn pretty_print_round_trip_is_idempotent() {
    // printing a parsed program and parsing the print again gives a
    // tree with the same printed form
    let inputs = [
        "let x = 1 + 2 * 3;",
        "-a * b",
        "a + add(b * c) + d",
        "let a = [1, 2, fn(x) { x; }];",
        "if (x < y) { x } else { y }",
        r#"{"one": 1, "two": 2}["two"]"#,
    ];
    for inp in inputs {
        let once = parse(inp).to_text();
        let twice = parse(&once).to_text();
        assert_eq!(once, twice, "printing {:?} is not idempotent", inp);
    }
}
