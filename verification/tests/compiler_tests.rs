use monkey::code::{Bytes, Instruction, OpCode};
use monkey::compiler::Compiler;
use monkey::lexer::Lexer;
use monkey::object::{object_eq, CompiledFuncObj, Object};
use monkey::parser::Parser;
use monkey::symbol_table::{Scope, Symbol, SymbolTable};

fn assemble(instrs: Vec<Instruction>) -> Bytes {
    let mut b = Bytes::new();
    for i in &instrs {
        b.push(i);
    }
    b
}

fn check(cases: Vec<(&str, Vec<Object>, Vec<Instruction>)>) {
    for (input, consts, instrs) in cases {
        let lexer = Lexer::new(input.to_string());
        let mut parser = Parser::new(lexer);
        let program = parser.parse().expect("Skill issue");

        let mut compiler = Compiler::default();
        compiler.compile(program).unwrap_or_else(|e| panic!("{}", e.message()));
        let bytecode = compiler.bytecode();

        let expected_bytes = assemble(instrs);
        assert!(
            bytecode.instructions == expected_bytes,
            "Wrong instructions for \n{}\nExpected:\n{}got:\n{}",
            input,
            expected_bytes.to_text(),
            bytecode.instructions.to_text(),
        );

        assert_eq!(
            bytecode.constants.len(),
            consts.len() + 1,
            "Wrong constant count for {}",
            input
        );
        for (i, c) in consts.iter().enumerate() {
            assert!(
                object_eq(&bytecode.constants[i + 1], c),
                "Wrong constant {} for {}: {:?}",
                i,
                input,
                bytecode.constants[i + 1],
            );
        }
    }
}

#[test]
fn test_integer_math() {
    check(vec![
        (
            "1 + 2",
            vec![Object::Integer(1), Object::Integer(2)],
            vec![
                Instruction::new(OpCode::Constant, vec![1]),
                Instruction::new(OpCode::Constant, vec![2]),
                Instruction::new(OpCode::Add, vec![]),
                Instruction::new(OpCode::Pop, vec![]),
            ],
        ),
        (
            "1 - 2",
            vec![Object::Integer(1), Object::Integer(2)],
            vec![
                Instruction::new(OpCode::Constant, vec![1]),
                Instruction::new(OpCode::Constant, vec![2]),
                Instruction::new(OpCode::Sub, vec![]),
                Instruction::new(OpCode::Pop, vec![]),
            ],
        ),
        (
            "1 / 2",
            vec![Object::Integer(1), Object::Integer(2)],
            vec![
                Instruction::new(OpCode::Constant, vec![1]),
                Instruction::new(OpCode::Constant, vec![2]),
                Instruction::new(OpCode::Div, vec![]),
                Instruction::new(OpCode::Pop, vec![]),
            ],
        ),
        (
            "1 * 2",
            vec![Object::Integer(1), Object::Integer(2)],
            vec![
                Instruction::new(OpCode::Constant, vec![1]),
                Instruction::new(OpCode::Constant, vec![2]),
                Instruction::new(OpCode::Mul, vec![]),
                Instruction::new(OpCode::Pop, vec![]),
            ],
        ),
        (
            "-1",
            vec![Object::Integer(1)],
            vec![
                Instruction::new(OpCode::Constant, vec![1]),
                Instruction::new(OpCode::Minus, vec![]),
                Instruction::new(OpCode::Pop, vec![]),
            ],
        ),
    ])
}

#[test]
fn test_bool_expressions() {
    check(vec![
        (
            "true",
            vec![],
            vec![
                Instruction::new(OpCode::True, vec![]),
                Instruction::new(OpCode::Pop, vec![]),
            ],
        ),
        (
            "false",
            vec![],
            vec![
                Instruction::new(OpCode::False, vec![]),
                Instruction::new(OpCode::Pop, vec![]),
            ],
        ),
        (
            "1 > 2",
            vec![Object::Integer(1), Object::Integer(2)],
            vec![
                Instruction::new(OpCode::Constant, vec![1]),
                Instruction::new(OpCode::Constant, vec![2]),
                Instruction::new(OpCode::Greater, vec![]),
                Instruction::new(OpCode::Pop, vec![]),
            ],
        ),
        (
            "1 < 2",
            vec![Object::Integer(2), Object::Integer(1)],
            vec![
                Instruction::new(OpCode::Constant, vec![1]),
                Instruction::new(OpCode::Constant, vec![2]),
                Instruction::new(OpCode::Greater, vec![]),
                Instruction::new(OpCode::Pop, vec![]),
            ],
        ),
        (
            "1 == 2",
            vec![Object::Integer(1), Object::Integer(2)],
            vec![
                Instruction::new(OpCode::Constant, vec![1]),
                Instruction::new(OpCode::Constant, vec![2]),
                Instruction::new(OpCode::Eq, vec![]),
                Instruction::new(OpCode::Pop, vec![]),
            ],
        ),
        (
            "1 != 2",
            vec![Object::Integer(1), Object::Integer(2)],
            vec![
                Instruction::new(OpCode::Constant, vec![1]),
                Instruction::new(OpCode::Constant, vec![2]),
                Instruction::new(OpCode::NotEq, vec![]),
                Instruction::new(OpCode::Pop, vec![]),
            ],
        ),
        (
            "!false",
            vec![],
            vec![
                Instruction::new(OpCode::False, vec![]),
                Instruction::new(OpCode::Bang, vec![]),
                Instruction::new(OpCode::Pop, vec![]),
            ],
        ),
    ])
}

#[test]
fn test_conditionals() {
    check(vec![
        (
            "if (true) { 10; }; 3333;",
            vec![Object::Integer(10), Object::Integer(3333)],
            vec![
                Instruction::new(OpCode::True, vec![]),          // 0
                Instruction::new(OpCode::JumpNotTrue, vec![10]), // 1
                Instruction::new(OpCode::Constant, vec![1]),     // 4
                Instruction::new(OpCode::Jump, vec![13]),        // 7
                Instruction::null(),                             // 10
                Instruction::new(OpCode::Pop, vec![]),           // 13
                Instruction::new(OpCode::Constant, vec![2]),     // 14
                Instruction::new(OpCode::Pop, vec![]),           // 17
            ],
        ),
        (
            "if (true) { 10; } else { 20; }; 3333;",
            vec![Object::Integer(10), Object::Integer(20), Object::Integer(3333)],
            vec![
                Instruction::new(OpCode::True, vec![]),          // 0
                Instruction::new(OpCode::JumpNotTrue, vec![10]), // 1
                Instruction::new(OpCode::Constant, vec![1]),     // 4
                Instruction::new(OpCode::Jump, vec![13]),        // 7
                Instruction::new(OpCode::Constant, vec![2]),     // 10
                Instruction::new(OpCode::Pop, vec![]),           // 13
                Instruction::new(OpCode::Constant, vec![3]),     // 14
                Instruction::new(OpCode::Pop, vec![]),           // 17
            ],
        ),
    ])
}

#[test]
fn test_global_let() {
    check(vec![
        (
            r#" let one = 1;
            let two = 2;"#,
            vec![Object::Integer(1), Object::Integer(2)],
            vec![
                Instruction::new(OpCode::Constant, vec![1]),
                Instruction::new(OpCode::SetGlobal, vec![0]),
                Instruction::new(OpCode::Constant, vec![2]),
                Instruction::new(OpCode::SetGlobal, vec![1]),
            ],
        ),
        (
            r#" let one = 1;
            one;"#,
            vec![Object::Integer(1)],
            vec![
                Instruction::new(OpCode::Constant, vec![1]),
                Instruction::new(OpCode::SetGlobal, vec![0]),
                Instruction::new(OpCode::GetGlobal, vec![0]),
                Instruction::new(OpCode::Pop, vec![]),
            ],
        ),
        (
            r#" let one = 1;
            let two = one;
            two;"#,
            vec![Object::Integer(1)],
            vec![
                Instruction::new(OpCode::Constant, vec![1]),
                Instruction::new(OpCode::SetGlobal, vec![0]),
                Instruction::new(OpCode::GetGlobal, vec![0]),
                Instruction::new(OpCode::SetGlobal, vec![1]),
                Instruction::new(OpCode::GetGlobal, vec![1]),
                Instruction::new(OpCode::Pop, vec![]),
            ],
        ),
    ])
}

#[test]
fn test_strings() {
    check(vec![
        (
            r#""monkey""#,
            vec![Object::String("monkey".into())],
            vec![
                Instruction::new(OpCode::Constant, vec![1]),
                Instruction::new(OpCode::Pop, vec![]),
            ],
        ),
        (
            r#""mon" + "key""#,
            vec![Object::String("mon".into()), Object::String("key".into())],
            vec![
                Instruction::new(OpCode::Constant, vec![1]),
                Instruction::new(OpCode::Constant, vec![2]),
                Instruction::new(OpCode::Add, vec![]),
                Instruction::new(OpCode::Pop, vec![]),
            ],
        ),
    ])
}

#[test]
fn test_arrays() {
    check(vec![
        (
            "[]",
            vec![],
            vec![
                Instruction::new(OpCode::Array, vec![0]),
                Instruction::new(OpCode::Pop, vec![]),
            ],
        ),
        (
            "[1, 2, 3]",
            vec![Object::Integer(1), Object::Integer(2), Object::Integer(3)],
            vec![
                Instruction::new(OpCode::Constant, vec![1]),
                Instruction::new(OpCode::Constant, vec![2]),
                Instruction::new(OpCode::Constant, vec![3]),
                Instruction::new(OpCode::Array, vec![3]),
                Instruction::new(OpCode::Pop, vec![]),
            ],
        ),
        (
            "[1 + 2, 3 - 4, 5 * 6]",
            vec![
                Object::Integer(1),
                Object::Integer(2),
                Object::Integer(3),
                Object::Integer(4),
                Object::Integer(5),
                Object::Integer(6),
            ],
            vec![
                Instruction::new(OpCode::Constant, vec![1]),
                Instruction::new(OpCode::Constant, vec![2]),
                Instruction::new(OpCode::Add, vec![]),
                Instruction::new(OpCode::Constant, vec![3]),
                Instruction::new(OpCode::Constant, vec![4]),
                Instruction::new(OpCode::Sub, vec![]),
                Instruction::new(OpCode::Constant, vec![5]),
                Instruction::new(OpCode::Constant, vec![6]),
                Instruction::new(OpCode::Mul, vec![]),
                Instruction::new(OpCode::Array, vec![3]),
                Instruction::new(OpCode::Pop, vec![]),
            ],
        ),
    ])
}

#[test]
fn test_hashes() {
    check(vec![
        (
            "{}",
            vec![],
            vec![
                Instruction::new(OpCode::Hash, vec![0]),
                Instruction::new(OpCode::Pop, vec![]),
            ],
        ),
        (
            "{1: 2, 3: 4, 5: 6}",
            vec![
                Object::Integer(1),
                Object::Integer(2),
                Object::Integer(3),
                Object::Integer(4),
                Object::Integer(5),
                Object::Integer(6),
            ],
            vec![
                Instruction::new(OpCode::Constant, vec![1]),
                Instruction::new(OpCode::Constant, vec![2]),
                Instruction::new(OpCode::Constant, vec![3]),
                Instruction::new(OpCode::Constant, vec![4]),
                Instruction::new(OpCode::Constant, vec![5]),
                Instruction::new(OpCode::Constant, vec![6]),
                Instruction::new(OpCode::Hash, vec![3]),
                Instruction::new(OpCode::Pop, vec![]),
            ],
        ),
        (
            "{1: 2 + 3, 4: 5 * 6}",
            vec![
                Object::Integer(1),
                Object::Integer(2),
                Object::Integer(3),
                Object::Integer(4),
                Object::Integer(5),
                Object::Integer(6),
            ],
            vec![
                Instruction::new(OpCode::Constant, vec![1]),
                Instruction::new(OpCode::Constant, vec![2]),
                Instruction::new(OpCode::Constant, vec![3]),
                Instruction::new(OpCode::Add, vec![]),
                Instruction::new(OpCode::Constant, vec![4]),
                Instruction::new(OpCode::Constant, vec![5]),
                Instruction::new(OpCode::Constant, vec![6]),
                Instruction::new(OpCode::Mul, vec![]),
                Instruction::new(OpCode::Hash, vec![2]),
                Instruction::new(OpCode::Pop, vec![]),
            ],
        ),
    ])
}

#[test]
fn test_index() {
    check(vec![
        (
            "[1, 2, 3][1 + 1]",
            vec![
                Object::Integer(1),
                Object::Integer(2),
                Object::Integer(3),
                Object::Integer(1),
                Object::Integer(1),
            ],
            vec![
                Instruction::new(OpCode::Constant, vec![1]),
                Instruction::new(OpCode::Constant, vec![2]),
                Instruction::new(OpCode::Constant, vec![3]),
                Instruction::new(OpCode::Array, vec![3]),
                Instruction::new(OpCode::Constant, vec![4]),
                Instruction::new(OpCode::Constant, vec![5]),
                Instruction::new(OpCode::Add, vec![]),
                Instruction::new(OpCode::Index, vec![]),
                Instruction::new(OpCode::Pop, vec![]),
            ],
        ),
        (
            "{1: 2}[2 - 1]",
            vec![
                Object::Integer(1),
                Object::Integer(2),
                Object::Integer(2),
                Object::Integer(1),
            ],
            vec![
                Instruction::new(OpCode::Constant, vec![1]),
                Instruction::new(OpCode::Constant, vec![2]),
                Instruction::new(OpCode::Hash, vec![1]),
                Instruction::new(OpCode::Constant, vec![3]),
                Instruction::new(OpCode::Constant, vec![4]),
                Instruction::new(OpCode::Sub, vec![]),
                Instruction::new(OpCode::Index, vec![]),
                Instruction::new(OpCode::Pop, vec![]),
            ],
        ),
    ])
}

fn func_const(instrs: Vec<Instruction>, locals: usize, params: usize) -> Object {
    Object::CompiledFunc(CompiledFuncObj::new(assemble(instrs), locals, params))
}

#[test]
fn test_functions() {
    check(vec![
        (
            "fn() { return 10 + 5 }",
            vec![
                Object::Integer(10),
                Object::Integer(5),
                func_const(
                    vec![
                        Instruction::new(OpCode::Constant, vec![1]),
                        Instruction::new(OpCode::Constant, vec![2]),
                        Instruction::new(OpCode::Add, vec![]),
                        Instruction::new(OpCode::ReturnValue, vec![]),
                    ],
                    0,
                    0,
                ),
            ],
            vec![
                Instruction::new(OpCode::Constant, vec![3]),
                Instruction::new(OpCode::Pop, vec![]),
            ],
        ),
        (
            "fn() { 10 + 5 }",
            vec![
                Object::Integer(10),
                Object::Integer(5),
                func_const(
                    vec![
                        Instruction::new(OpCode::Constant, vec![1]),
                        Instruction::new(OpCode::Constant, vec![2]),
                        Instruction::new(OpCode::Add, vec![]),
                        Instruction::new(OpCode::ReturnValue, vec![]),
                    ],
                    0,
                    0,
                ),
            ],
            vec![
                Instruction::new(OpCode::Constant, vec![3]),
                Instruction::new(OpCode::Pop, vec![]),
            ],
        ),
        (
            "fn() {10; 5}",
            vec![
                Object::Integer(10),
                Object::Integer(5),
                func_const(
                    vec![
                        Instruction::new(OpCode::Constant, vec![1]),
                        Instruction::new(OpCode::Pop, vec![]),
                        Instruction::new(OpCode::Constant, vec![2]),
                        Instruction::new(OpCode::ReturnValue, vec![]),
                    ],
                    0,
                    0,
                ),
            ],
            vec![
                Instruction::new(OpCode::Constant, vec![3]),
                Instruction::new(OpCode::Pop, vec![]),
            ],
        ),
        (
            "fn() {}",
            vec![func_const(vec![Instruction::new(OpCode::Return, vec![])], 0, 0)],
            vec![
                Instruction::new(OpCode::Constant, vec![1]),
                Instruction::new(OpCode::Pop, vec![]),
            ],
        ),
    ])
}

#[test]
fn function_calls() {
    check(vec![
        (
            "fn() { 10 + 5 }()",
            vec![
                Object::Integer(10),
                Object::Integer(5),
                func_const(
                    vec![
                        Instruction::new(OpCode::Constant, vec![1]),
                        Instruction::new(OpCode::Constant, vec![2]),
                        Instruction::new(OpCode::Add, vec![]),
                        Instruction::new(OpCode::ReturnValue, vec![]),
                    ],
                    0,
                    0,
                ),
            ],
            vec![
                Instruction::new(OpCode::Constant, vec![3]),
                Instruction::new(OpCode::Call, vec![0]),
                Instruction::new(OpCode::Pop, vec![]),
            ],
        ),
        (
            r#"
            let noArg = fn() { 24 };
            noArg();
            "#,
            vec![
                Object::Integer(24),
                func_const(
                    vec![
                        Instruction::new(OpCode::Constant, vec![1]),
                        Instruction::new(OpCode::ReturnValue, vec![]),
                    ],
                    0,
                    0,
                ),
            ],
            vec![
                Instruction::new(OpCode::Constant, vec![2]),
                Instruction::new(OpCode::SetGlobal, vec![0]),
                Instruction::new(OpCode::GetGlobal, vec![0]),
                Instruction::new(OpCode::Call, vec![0]),
                Instruction::new(OpCode::Pop, vec![]),
            ],
        ),
        (
            r#"
            let oneArg = fn(a) { a; };
            oneArg(24); "#,
            vec![
                func_const(
                    vec![
                        Instruction::new(OpCode::GetLocal, vec![0]),
                        Instruction::new(OpCode::ReturnValue, vec![]),
                    ],
                    1,
                    1,
                ),
                Object::Integer(24),
            ],
            vec![
                Instruction::new(OpCode::Constant, vec![1]),
                Instruction::new(OpCode::SetGlobal, vec![0]),
                Instruction::new(OpCode::GetGlobal, vec![0]),
                Instruction::new(OpCode::Constant, vec![2]),
                Instruction::new(OpCode::Call, vec![1]),
                Instruction::new(OpCode::Pop, vec![]),
            ],
        ),
        (
            r#"
            let manyArg = fn(a, b, c) { a; b; c; };
            manyArg(24, 25, 26); "#,
            vec![
                func_const(
                    vec![
                        Instruction::new(OpCode::GetLocal, vec![0]),
                        Instruction::new(OpCode::Pop, vec![]),
                        Instruction::new(OpCode::GetLocal, vec![1]),
                        Instruction::new(OpCode::Pop, vec![]),
                        Instruction::new(OpCode::GetLocal, vec![2]),
                        Instruction::new(OpCode::ReturnValue, vec![]),
                    ],
                    3,
                    3,
                ),
                Object::Integer(24),
                Object::Integer(25),
                Object::Integer(26),
            ],
            vec![
                Instruction::new(OpCode::Constant, vec![1]),
                Instruction::new(OpCode::SetGlobal, vec![0]),
                Instruction::new(OpCode::GetGlobal, vec![0]),
                Instruction::new(OpCode::Constant, vec![2]),
                Instruction::new(OpCode::Constant, vec![3]),
                Instruction::new(OpCode::Constant, vec![4]),
                Instruction::new(OpCode::Call, vec![3]),
                Instruction::new(OpCode::Pop, vec![]),
            ],
        ),
    ])
}

#[test]
fn function_scopes() {
    check(vec![
        (
            r#"
            let num = 55;
            fn() { num } "#,
            vec![
                Object::Integer(55),
                func_const(
                    vec![
                        Instruction::new(OpCode::GetGlobal, vec![0]),
                        Instruction::new(OpCode::ReturnValue, vec![]),
                    ],
                    0,
                    0,
                ),
            ],
            vec![
                Instruction::new(OpCode::Constant, vec![1]),
                Instruction::new(OpCode::SetGlobal, vec![0]),
                Instruction::new(OpCode::Constant, vec![2]),
                Instruction::new(OpCode::Pop, vec![]),
            ],
        ),
        (
            r#"
            fn() {
                let num = 55;
                num
            } "#,
            vec![
                Object::Integer(55),
                func_const(
                    vec![
                        Instruction::new(OpCode::Constant, vec![1]),
                        Instruction::new(OpCode::SetLocal, vec![0]),
                        Instruction::new(OpCode::GetLocal, vec![0]),
                        Instruction::new(OpCode::ReturnValue, vec![]),
                    ],
                    1,
                    0,
                ),
            ],
            vec![
                Instruction::new(OpCode::Constant, vec![2]),
                Instruction::new(OpCode::Pop, vec![]),
            ],
        ),
    ])
}

#[test]
fn resolve_local() {
    let mut glob = SymbolTable::empty();
    glob.define(&"a".to_string());
    glob.define(&"b".to_string());

    let mut local1 = SymbolTable::new_enclosed(&glob);
    local1.define(&"c".to_string());
    local1.define(&"d".to_string());

    let mut local2 = SymbolTable::new_enclosed(&glob);
    local2.define(&"e".to_string());
    local2.define(&"f".to_string());

    let expected: Vec<(&SymbolTable, Vec<(&'static str, Scope, u16)>)> = vec![
        (
            &local1,
            vec![
                ("a", Scope::Global, 0),
                ("b", Scope::Global, 1),
                ("c", Scope::Local, 0),
                ("d", Scope::Local, 1),
            ],
        ),
        (
            &local2,
            vec![
                ("a", Scope::Global, 0),
                ("b", Scope::Global, 1),
                ("e", Scope::Local, 0),
                ("f", Scope::Local, 1),
            ],
        ),
    ];

    for (l, e) in expected {
        for e in e {
            let r = l
                .resolve(&e.0.to_string())
                .unwrap_or_else(|| panic!("Symbol {} not found", e.0));
            assert_eq!(
                r,
                Symbol { scope: e.1, index: e.2 },
                "Symbol {} is wrong",
                e.0
            );
        }
    }
}

#[test]
fn bytes_string() {
    let instrs = vec![
        Instruction::new(OpCode::Add, vec![]),
        Instruction::new(OpCode::Constant, vec![2]),
        Instruction::new(OpCode::Constant, vec![65534]),
    ];

    let bytes = assemble(instrs);

    let expected = r#"0000 OpAdd
0001 OpConstant 2
0004 OpConstant 65534
"#;

    assert_eq!(expected, bytes.to_text());
}

#[test]
fn make() {
    let instr = Instruction::new(OpCode::Constant, vec![65534]);
    let made = instr.make();

    assert_eq!(made.len(), 3);
    assert_eq!(made.read(0), 0);
    assert_eq!(made.read(1), 255);
    assert_eq!(made.read(2), 254);
}
