use monkey::env::Environment;
use monkey::eval::eval_program;
use monkey::lexer::Lexer;
use monkey::object::{object_eq, ArrayObj, HashObj, Object};
use monkey::parser::Parser;

const FUEL: u64 = 100_000;

fn run(inp: &str) -> Result<Object, monkey::object::RunError> {
    let lexer = Lexer::new(inp.to_string());
    let mut parser = Parser::new(lexer);
    let prog = parser.parse().expect("Skill issue");
    let mut env = Environment::new();
    eval_program(FUEL, &prog, &mut env)
}

fn check_ok(inp: &str, expected: Object) {
    let res = run(inp).unwrap_or_else(|e| panic!("eval of {:?} failed: {}", inp, e.message()));
    assert!(
        object_eq(&res, &expected),
        "eval of {:?} gave {:?}, expected {:?}",
        inp,
        res,
        expected
    );
}

fn check_err(inp: &str, expected: &str) {
    match run(inp) {
        Ok(v) => panic!("eval of {:?} gave {:?}, expected error {:?}", inp, v, expected),
        Err(e) => assert_eq!(e.message(), expected, "wrong error for {:?}", inp),
    }
}

fn arr(items: Vec<Object>) -> Object {
    Object::Array(ArrayObj { elements: items })
}

#[test]
fn eval_int() {
    check_ok("5", Object::Integer(5));
    check_ok("20", Object::Integer(20));
    check_ok("-5", Object::Integer(-5));
    check_ok("-20", Object::Integer(-20));
}

#[test]
fn eval_bool() {
    check_ok("true", Object::Bool(true));
    check_ok("false", Object::Bool(false));
}

#[test]
fn eval_string() {
    check_ok("\"foobar\"", Object::String("foobar".into()));
    check_ok(r#""hello" + " " + "world" "#, Object::String("hello world".into()));
}

#[test]
fn eval_bang() {
    check_ok("!true", Object::Bool(false));
    check_ok("!false", Object::Bool(true));
    check_ok("!5", Object::Bool(false));
    check_ok("!!true", Object::Bool(true));
    check_ok("!!false", Object::Bool(false));
    check_ok("!!5", Object::Bool(true));
}

#[test]
fn eval_math() {
    check_ok("5 + 5 + 5 + 5 - 10", Object::Integer(10));
    check_ok("2 * 2 * 2 * 2 * 2", Object::Integer(32));
    check_ok("-50 + 100 + -50", Object::Integer(0));
    check_ok("5 * 2 + 10", Object::Integer(20));
    check_ok("5 + 2 * 10", Object::Integer(25));
    check_ok("20 + 2 * -10", Object::Integer(0));
    check_ok("50 / 2 * 2 + 10", Object::Integer(60));
    check_ok("2 * (5 + 10)", Object::Integer(30));
    check_ok("3 * 3 * 3 + 10", Object::Integer(37));
    check_ok("3 * (3 * 3) + 10", Object::Integer(37));
    check_ok("(5 + 10 * 2 + 15 / 3) * 2 + -10", Object::Integer(50));
}

#[test]
fn eval_comare() {
    check_ok("1 < 2", Object::Bool(true));
    check_ok("1 > 2", Object::Bool(false));
    check_ok("1 < 1", Object::Bool(false));
    check_ok("1 > 1", Object::Bool(false));
    check_ok("1 == 1", Object::Bool(true));
    check_ok("1 != 1", Object::Bool(false));
    check_ok("1 == 2", Object::Bool(false));
    check_ok("1 != 2", Object::Bool(true));
    check_ok("true == true", Object::Bool(true));
    check_ok("false == false", Object::Bool(true));
    check_ok("true == false", Object::Bool(false));
    check_ok("true != false", Object::Bool(true));
    check_ok("false != true", Object::Bool(true));
    check_ok("(1 < 2) == true", Object::Bool(true));
    check_ok("(1 < 2) == false", Object::Bool(false));
    check_ok("(1 > 2) == true", Object::Bool(false));
    check_ok("(1 > 2) == false", Object::Bool(true));
    check_ok(r#" "hello" == "hello" "#, Object::Bool(true));
    check_ok(r#" "lorem ipsum" == "good placeholder" "#, Object::Bool(false));
    check_ok(r#" "lorem ipsum" != "good placeholder" "#, Object::Bool(true));
}

#[test]
fn eval_if() {
    check_ok("if (true) { 10 }", Object::Integer(10));
    check_ok("if (false) { 10 }", Object::Null);
    check_ok("if (1) { 10 }", Object::Integer(10));
    check_ok("if (1 < 2) { 10 }", Object::Integer(10));
    check_ok("if (1 > 2) { 10 }", Object::Null);
    check_ok("if (1 > 2) { 10 } else { 20 }", Object::Integer(20));
    check_ok("if (1 < 2) { 10 } else { 20 }", Object::Integer(10));
    check_ok("if (0) { 10 } else { 20 }", Object::Integer(20));
}

#[test]
fn eval_return() {
    check_ok("return 10;", Object::Integer(10));
    check_ok("return 10; 9;", Object::Integer(10));
    check_ok("return 2 * 5; 9;", Object::Integer(10));
    check_ok("9; return 2 * 5; 9;", Object::Integer(10));
    check_ok(
        r#"if (10 > 1) {
                if (10 > 1) {
                 return 10;
                }
                return 1;
            }"#,
        Object::Integer(10),
    );
}

#[test]
fn error_handling() {
    check_err("5 + true;", "type mismatch: INTEGER + BOOL");
    check_err("5 + true; 5;", "type mismatch: INTEGER + BOOL");
    check_err("-true", "unknown operator: -BOOL");
    check_err("true + false;", "unknown operator: BOOL + BOOL");
    check_err("5; true + false; 5", "unknown operator: BOOL + BOOL");
    check_err("if (10 > 1) { true + false; }", "unknown operator: BOOL + BOOL");
    check_err(
        r#"if (10 > 1) {
                if (10 > 1) {
                 return true + false;
                }
                return 1;
            }"#,
        "unknown operator: BOOL + BOOL",
    );
    check_err("baz", "identifier not found: baz");
    check_err(r#" "hello" - "world" "#, "unknown operator: STRING - STRING");
    check_err(
        r#"{"name": "Monkey"}[fn(x) { x }];"#,
        "unusable as hash key: FUNCTION",
    );
}

#[test]
fn eval_let() {
    check_ok("let a = 5; a;", Object::Integer(5));
    check_ok("let a = 5 * 5; a;", Object::Integer(25));
    check_ok("let a = 5; let b = a; b;", Object::Integer(5));
    check_ok("let a = 5; let b = a; let c = a + b + 5; c;", Object::Integer(15));
}

#[test]
fn eval_func() {
    check_ok("let identity = fn(x) { x; }; identity(5);", Object::Integer(5));
    check_ok("let identity = fn(x) { return x; }; identity(5);", Object::Integer(5));
    check_ok("let double = fn(x) { x * 2; }; double(5);", Object::Integer(10));
    check_ok("let add = fn(x, y) { x + y; }; add(5, 5);", Object::Integer(10));
    check_ok(
        "let add = fn(x, y) { x + y; }; add(5 + 5, add(5, 5));",
        Object::Integer(20),
    );
    check_ok("fn(x) { x; }(5)", Object::Integer(5));
    check_ok(
        "let fact = fn(n) { if (n == 0) { 1 } else { n * fact(n - 1)} }; fact(5)",
        Object::Integer(120),
    );
}

#[test]
fn array_literal() {
    check_ok(
        "[1, 2 * 2, 3 + 3]",
        arr(vec![Object::Integer(1), Object::Integer(4), Object::Integer(6)]),
    );
}

#[test]
fn index_arr() {
    check_ok("[1, 2, 3][0]", Object::Integer(1));
    check_ok("[1, 2, 3][1]", Object::Integer(2));
    check_ok("[1, 2, 3][2]", Object::Integer(3));
    check_ok("let i = 0; [1][i];", Object::Integer(1));
    check_ok("[1, 2, 3][1 + 1];", Object::Integer(3));
    check_ok("let myArray = [1, 2, 3]; myArray[2];", Object::Integer(3));
    check_ok(
        "let myArray = [1, 2, 3]; myArray[0] + myArray[1] + myArray[2];",
        Object::Integer(6),
    );
    check_ok(
        "let myArray = [1, 2, 3]; let i = myArray[0]; myArray[i]",
        Object::Integer(2),
    );
    check_ok("[1, 2, 3][3]", Object::Null);
    check_ok("[1, 2, 3][-1]", Object::Null);
}

#[test]
fn hash_literal() {
    let mut expected = HashObj::new();
    expected.insert(Object::String("one".into()), Object::Integer(1));
    expected.insert(Object::String("two".into()), Object::Integer(2));
    expected.insert(Object::String("three".into()), Object::Integer(3));
    expected.insert(Object::Integer(4), Object::Integer(4));
    expected.insert(Object::Bool(true), Object::Integer(5));
    expected.insert(Object::Bool(false), Object::Integer(6));
    check_ok(
        r#"
    let two = "two";
    {
        "one": 10 - 9,
        two: 1 + 1,
        "thr" + "ee": 6 / 2,
        4: 4,
        true: 5,
        false: 6
    }
    "#,
        Object::Hash(expected),
    );
}

#[test]
fn index_hash() {
    check_ok(r#"{"foo": 5}["foo"]"#, Object::Integer(5));
    check_ok(r#"{"foo": 5}["bar"]"#, Object::Null);
    check_ok(r#"let key = "foo"; {"foo": 5}[key]"#, Object::Integer(5));
    check_ok(r#"{}["foo"]"#, Object::Null);
    check_ok(r#"{5: 5}[5]"#, Object::Integer(5));
    check_ok(r#"{true: 5}[true]"#, Object::Integer(5));
    check_ok(r#"{false: 5}[false]"#, Object::Integer(5));
}

#[test]
fn builtin_len() {
    check_ok(r#"len("")"#, Object::Integer(0));
    check_ok(r#"len("four")"#, Object::Integer(4));
    check_ok(r#"len("hello world")"#, Object::Integer(11));
    check_err(r#"len(1)"#, "argument to `len` not supported, got INTEGER");
    check_err(
        r#"len("one", "two")"#,
        "wrong number of arguments. expected 1, got 2",
    );
    check_ok(r#"len([1, 2, 3, 4])"#, Object::Integer(4));
}

#[test]
fn builtin_first() {
    check_ok(r#"first(["a", "b"])"#, Object::String("a".into()));
    check_ok(r#"first([])"#, Object::Null);
    check_err(r#"first(1)"#, "argument to `first` not supported, got INTEGER");
    check_err(
        r#"first("one", "two")"#,
        "wrong number of arguments. expected 1, got 2",
    );
}

#[test]
fn builtin_last() {
    check_ok(r#"last(["a", "b"])"#, Object::String("b".into()));
    check_ok(r#"last([])"#, Object::Null);
    check_err(r#"last(1)"#, "argument to `last` not supported, got INTEGER");
    check_err(
        r#"last("one", "two")"#,
        "wrong number of arguments. expected 1, got 2",
    );
}

#[test]
fn builtin_rest() {
    check_ok(
        r#"rest(["a", "b", "c"])"#,
        arr(vec![Object::String("b".into()), Object::String("c".into())]),
    );
    check_ok(r#"rest(["a"])"#, arr(vec![]));
    check_ok(r#"rest([])"#, arr(vec![]));
    check_err(r#"rest(1)"#, "argument to `rest` not supported, got INTEGER");
    check_err(
        r#"rest("one", "two")"#,
        "wrong number of arguments. expected 1, got 2",
    );
}

#[test]
fn builtin_push() {
    check_ok(
        r#"push(["a", "b"], "c")"#,
        arr(vec![
            Object::String("a".into()),
            Object::String("b".into()),
            Object::String("c".into()),
        ]),
    );
    check_ok(
        r#"push(["a"], 1)"#,
        arr(vec![Object::String("a".into()), Object::Integer(1)]),
    );
    check_ok(
        r#"push(["a"], [1])"#,
        arr(vec![Object::String("a".into()), arr(vec![Object::Integer(1)])]),
    );
    check_ok(r#"push([], "bar")"#, arr(vec![Object::String("bar".into())]));
    check_err(r#"push(1, 2)"#, "argument to `push` not supported, got INTEGER");
    check_err(r#"push([])"#, "wrong number of arguments. expected 2, got 1");
}
