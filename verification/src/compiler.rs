//! The bytecode compiler: lowers a syntax tree to instructions and a
//! constant pool. It keeps a stack of compilation scopes, one per
//! function literal being compiled, each with its own instruction
//! buffer and a record of the last two emitted opcodes (to strip or
//! replace a trailing `Pop`); jumps are emitted with a placeholder
//! target and patched in place once the target is known. The null
//! constant sits first in every pool.

use vstd::prelude::*;
use vstd::string::StringExecFns;

use crate::ast::{
    Program, Statement, Expression, Ident, IfExpr, FuncExpr, ExprV, StmtV, stmts_view,
    exprs_view, pairs_view, params_view,
};
use crate::code::{Bytes, Instruction, OpCode, InstrV, instr_bytes, op_width};
use crate::object::{Object, ObjV, CompiledFuncObj, objs_view, clone_objs, lemma_objs_view_len};
use crate::symbol_table::{
    SymbolTable, Symbol, Scope, TableFrameV, sym_lookup, sym_insert, resolve_from,
};
use crate::token::{TokenType, token_type_text};

verus! {

/// A compile failure, and on which construct it arose.
#[derive(Debug)]
pub enum CompileError {
    UndefinedSymbol { name: String },
    CapturedLocal { name: String },
    ConstantPoolOverflow,
    CodeTooLarge,
    TooManyArguments,
    UnknownOperator { op: TokenType },
}

/// The mathematical mirror of a compile failure.
pub enum CErrV {
    UndefinedSymbol { name: Seq<char> },
    CapturedLocal { name: Seq<char> },
    ConstantPoolOverflow,
    CodeTooLarge,
    TooManyArguments,
    UnknownOperator { op: TokenType },
}

impl View for CompileError {
    type V = CErrV;

    open spec fn view(&self) -> CErrV {
        match *self {
            CompileError::UndefinedSymbol { ref name } => CErrV::UndefinedSymbol { name: name@ },
            CompileError::CapturedLocal { ref name } => CErrV::CapturedLocal { name: name@ },
            CompileError::ConstantPoolOverflow => CErrV::ConstantPoolOverflow,
            CompileError::CodeTooLarge => CErrV::CodeTooLarge,
            CompileError::TooManyArguments => CErrV::TooManyArguments,
            CompileError::UnknownOperator { op } => CErrV::UnknownOperator { op },
        }
    }
}

/// The message text of a compile failure.
pub open spec fn compile_err_text(e: CErrV) -> Seq<char> {
    match e {
        CErrV::UndefinedSymbol { name } => "undefined symbol: "@ + name,
        CErrV::CapturedLocal { name } => "cannot capture local variable of an enclosing function: "@
            + name,
        CErrV::ConstantPoolOverflow => "constant pool overflow"@,
        CErrV::CodeTooLarge => "compiled code too large"@,
        CErrV::TooManyArguments => "too many call arguments"@,
        CErrV::UnknownOperator { op } => "unknown operator: "@ + token_type_text(op),
    }
}

impl CompileError {
    /// The message text of this failure.
    pub fn message(&self) -> (r: String)
        ensures
            r@ == compile_err_text(self@),
    {
        let mut out = String::new();
        match self {
            CompileError::UndefinedSymbol { name } => {
                out.append("undefined symbol: ");
                out.append(name.as_str());
            }
            CompileError::CapturedLocal { name } => {
                out.append("cannot capture local variable of an enclosing function: ");
                out.append(name.as_str());
            }
            CompileError::ConstantPoolOverflow => {
                out.append("constant pool overflow");
            }
            CompileError::CodeTooLarge => {
                out.append("compiled code too large");
            }
            CompileError::TooManyArguments => {
                out.append("too many call arguments");
            }
            CompileError::UnknownOperator { op } => {
                out.append("unknown operator: ");
                out.append(op.text());
            }
        }
        proof {
            assert(out@ =~= compile_err_text(self@));
        }
        out
    }
}

/// Enter the builtin table's names into a root symbol table, each
/// under its fixed index.
fn define_builtins(table: &mut SymbolTable)
    requires
        old(table)@.len() == 1,
    ensures
        final(table)@.len() == 1,
{
    table.define_builtin(&"len".to_owned(), 0);
    table.define_builtin(&"first".to_owned(), 1);
    table.define_builtin(&"last".to_owned(), 2);
    table.define_builtin(&"rest".to_owned(), 3);
    table.define_builtin(&"push".to_owned(), 4);
    table.define_builtin(&"puts".to_owned(), 5);
}

/// The opcode and position of an emitted instruction.
#[derive(Debug, Clone, Copy, PartialEq, Eq, Structural)]
pub struct Emitted {
    pub opcode: OpCode,
    pub pos: usize,
}

/// One compilation scope: its instruction buffer and the last two
/// emitted instructions.
#[derive(Debug)]
struct CompScope {
    instructions: Bytes,
    last: Option<Emitted>,
    prev: Option<Emitted>,
}

impl View for CompScope {
    type V = ScopeV;

    closed spec fn view(&self) -> ScopeV {
        ScopeV {
            code: self.instructions@,
            last: match self.last {
                Some(e) => Some(EmittedV { opcode: e.opcode, pos: e.pos as int }),
                None => None,
            },
            prev: match self.prev {
                Some(e) => Some(EmittedV { opcode: e.opcode, pos: e.pos as int }),
                None => None,
            },
        }
    }
}

/// The compiler: the stack of compilation scopes (the innermost
/// last), the constant pool shared across them, and the symbol
/// table, one lexical scope per compilation scope.
#[derive(Debug)]
pub struct Compiler {
    scopes: Vec<CompScope>,
    constants: Vec<Object>,
    symbol_table: SymbolTable,
}

/// Compiled output: the main instruction buffer and the constant
/// pool.
#[derive(Debug)]
pub struct Bytecode {
    pub instructions: Bytes,
    pub constants: Vec<Object>,
}

/// The mathematical mirror of an emitted-instruction record.
pub struct EmittedV {
    pub opcode: OpCode,
    pub pos: int,
}

/// The mathematical mirror of one compilation scope.
#[verifier::ext_equal]
pub struct ScopeV {
    pub code: Seq<u8>,
    pub last: Option<EmittedV>,
    pub prev: Option<EmittedV>,
}

/// The mathematical mirror of the whole compiler.
#[verifier::ext_equal]
pub struct CompV {
    pub scopes: Seq<ScopeV>,
    pub consts: Seq<ObjV>,
    pub syms: Seq<TableFrameV>,
}

/// Append an instruction to the innermost scope, recording it as the
/// last emitted.
pub open spec fn emit_spec(c: CompV, iv: InstrV) -> CompV {
    let sc = c.scopes.last();
    CompV {
        scopes: c.scopes.update(
            c.scopes.len() - 1,
            ScopeV {
                code: sc.code + instr_bytes(iv),
                last: Some(EmittedV { opcode: iv.op, pos: sc.code.len() as int }),
                prev: sc.last,
            },
        ),
        ..c
    }
}

/// Whether the innermost scope's last emitted instruction has an
/// opcode.
pub open spec fn last_is_spec(c: CompV, op: OpCode) -> bool {
    c.scopes.last().last matches Some(e) && e.opcode == op
}

/// Drop the innermost scope's last emitted instruction.
pub open spec fn remove_last_spec(c: CompV) -> CompV {
    let sc = c.scopes.last();
    match sc.last {
        Some(e) => CompV {
            scopes: c.scopes.update(
                c.scopes.len() - 1,
                ScopeV {
                    code: sc.code.take(
                        if e.pos <= sc.code.len() {
                            e.pos
                        } else {
                            sc.code.len() as int
                        },
                    ),
                    last: sc.prev,
                    prev: None,
                },
            ),
            ..c
        },
        None => c,
    }
}

/// Overwrite the instruction at a position in the innermost scope,
/// when it fits.
pub open spec fn patch_spec(c: CompV, pos: int, iv: InstrV) -> CompV {
    let sc = c.scopes.last();
    if pos >= 0 && pos + 1 + op_width(iv.op) <= sc.code.len() {
        CompV {
            scopes: c.scopes.update(
                c.scopes.len() - 1,
                ScopeV {
                    code: sc.code.take(pos) + instr_bytes(iv) + sc.code.skip(
                        pos + 1 + op_width(iv.op),
                    ),
                    ..sc
                },
            ),
            ..c
        }
    } else {
        c
    }
}

/// Append a value to the constant pool.
pub open spec fn add_const_spec(c: CompV, v: ObjV) -> CompV {
    CompV { consts: c.consts.push(v), ..c }
}

/// Emit a `Constant` instruction for a pool index, when the index
/// fits the operand's width.
pub open spec fn emit_constant_spec(c: CompV, idx: int) -> (Result<(), CErrV>, CompV) {
    if idx > 0xFFFF {
        (Err(CErrV::ConstantPoolOverflow), c)
    } else {
        (
            Ok(()),
            emit_spec(c, InstrV { op: OpCode::Constant, operands: seq![idx as u32] }),
        )
    }
}

/// Define a name in the innermost lexical scope: `Global` numbered
/// by the root scope's counter, `Local` by an enclosed scope's.
pub open spec fn define_spec(syms: Seq<TableFrameV>, name: Seq<char>) -> (
    Seq<TableFrameV>,
    Symbol,
) {
    let last = syms.last();
    let scope = if syms.len() > 1 {
        Scope::Local
    } else {
        Scope::Global
    };
    let sym = Symbol { scope, index: (last.stored % 0x10000) as u16 };
    (
        syms.update(
            syms.len() - 1,
            TableFrameV {
                store: sym_insert(last.store, name, sym),
                stored: if last.stored < usize::MAX {
                    (last.stored + 1) as nat
                } else {
                    last.stored
                },
            },
        ),
        sym,
    )
}

/// Define each parameter in order.
pub open spec fn define_params_spec(params: Seq<Seq<char>>, syms: Seq<TableFrameV>) -> Seq<
    TableFrameV,
>
    decreases params,
{
    if params.len() == 0 {
        syms
    } else {
        define_params_spec(params.drop_first(), define_spec(syms, params[0]).0)
    }
}

/// Resolve a name for compilation: the innermost scope first, then
/// outward; a hit on an enclosing function's local is refused, and
/// an unresolved name is undefined.
pub open spec fn resolve_symbol_spec(syms: Seq<TableFrameV>, name: Seq<char>) -> Result<
    Symbol,
    CErrV,
> {
    match sym_lookup(syms.last().store, name) {
        Some(s) => Ok(s),
        None => match resolve_from(syms, syms.len() - 2, name) {
            Some(s) => if s.scope == Scope::Local {
                Err(CErrV::CapturedLocal { name })
            } else {
                Ok(s)
            },
            None => Err(CErrV::UndefinedSymbol { name }),
        },
    }
}

/// The opcode that reads a resolved symbol at run time.
pub open spec fn get_op_spec(scope: Scope) -> OpCode {
    match scope {
        Scope::Global => OpCode::GetGlobal,
        Scope::Local => OpCode::GetLocal,
        Scope::Builtin => OpCode::GetBuiltin,
    }
}

/// Open a fresh compilation scope and lexical scope.
pub open spec fn enter_scope_spec(c: CompV) -> CompV {
    CompV {
        scopes: c.scopes.push(ScopeV { code: Seq::empty(), last: None, prev: None }),
        syms: c.syms.push(TableFrameV { store: Seq::empty(), stored: 0 }),
        ..c
    }
}

/// What compiling one expression does to the compiler, per §the
/// lowering rules: on success the emitted code and pool are fixed
/// exactly; a failure fixes the error and leaves the state open.
#[verifier::opaque]
pub open spec fn compile_expr_spec(e: ExprV, c: CompV) -> (Result<(), CErrV>, CompV)
    decreases e, 0int,
{
    match e {
        ExprV::Ident(name) => match resolve_symbol_spec(c.syms, name) {
            Ok(sym) => (
                Ok(()),
                emit_spec(
                    c,
                    InstrV { op: get_op_spec(sym.scope), operands: seq![sym.index as u32] },
                ),
            ),
            Err(e0) => (Err(e0), c),
        },
        ExprV::Number(x) => emit_constant_spec(
            add_const_spec(c, ObjV::Int(x)),
            c.consts.len() as int,
        ),
        ExprV::Str(t) => emit_constant_spec(
            add_const_spec(c, ObjV::Str(t)),
            c.consts.len() as int,
        ),
        ExprV::Bool(b) => (
            Ok(()),
            emit_spec(
                c,
                InstrV {
                    op: if b {
                        OpCode::True
                    } else {
                        OpCode::False
                    },
                    operands: Seq::empty(),
                },
            ),
        ),
        ExprV::Prefix(op, right) => {
            let (r1, c1) = compile_expr_spec(*right, c);
            if r1 is Err {
                (r1, c1)
            } else if op == TokenType::Minus {
                (Ok(()), emit_spec(c1, InstrV { op: OpCode::Minus, operands: Seq::empty() }))
            } else if op == TokenType::Bang {
                (Ok(()), emit_spec(c1, InstrV { op: OpCode::Bang, operands: Seq::empty() }))
            } else {
                (Err(CErrV::UnknownOperator { op }), c1)
            }
        },
        ExprV::Infix(left, op, right) => {
            if op == TokenType::Lt {
                let (r1, c1) = compile_expr_spec(*right, c);
                if r1 is Err {
                    (r1, c1)
                } else {
                    let (r2, c2) = compile_expr_spec(*left, c1);
                    if r2 is Err {
                        (r2, c2)
                    } else {
                        (
                            Ok(()),
                            emit_spec(
                                c2,
                                InstrV { op: OpCode::Greater, operands: Seq::empty() },
                            ),
                        )
                    }
                }
            } else {
                let (r1, c1) = compile_expr_spec(*left, c);
                if r1 is Err {
                    (r1, c1)
                } else {
                    let (r2, c2) = compile_expr_spec(*right, c1);
                    if r2 is Err {
                        (r2, c2)
                    } else if op == TokenType::Plus {
                        (Ok(()), emit_spec(c2, InstrV { op: OpCode::Add, operands: Seq::empty() }))
                    } else if op == TokenType::Minus {
                        (Ok(()), emit_spec(c2, InstrV { op: OpCode::Sub, operands: Seq::empty() }))
                    } else if op == TokenType::Star {
                        (Ok(()), emit_spec(c2, InstrV { op: OpCode::Mul, operands: Seq::empty() }))
                    } else if op == TokenType::Slash {
                        (Ok(()), emit_spec(c2, InstrV { op: OpCode::Div, operands: Seq::empty() }))
                    } else if op == TokenType::Gt {
                        (
                            Ok(()),
                            emit_spec(c2, InstrV { op: OpCode::Greater, operands: Seq::empty() }),
                        )
                    } else if op == TokenType::Eq {
                        (Ok(()), emit_spec(c2, InstrV { op: OpCode::Eq, operands: Seq::empty() }))
                    } else if op == TokenType::NotEq {
                        (
                            Ok(()),
                            emit_spec(c2, InstrV { op: OpCode::NotEq, operands: Seq::empty() }),
                        )
                    } else {
                        (Err(CErrV::UnknownOperator { op }), c2)
                    }
                }
            }
        },
        ExprV::If(cond, thn, els) => {
            let (rc, c1) = compile_expr_spec(*cond, c);
            if rc is Err {
                (rc, c1)
            } else {
                let jmp_if = c1.scopes.last().code.len() as int;
                let c2 = emit_spec(
                    c1,
                    InstrV { op: OpCode::JumpNotTrue, operands: seq![9999u32] },
                );
                let (rt, c3) = compile_block_spec(thn, c2);
                if rt is Err {
                    (rt, c3)
                } else {
                    let c4 = if last_is_spec(c3, OpCode::Pop) {
                        remove_last_spec(c3)
                    } else {
                        c3
                    };
                    let jmp_else = c4.scopes.last().code.len() as int;
                    let c5 = emit_spec(c4, InstrV { op: OpCode::Jump, operands: seq![9999u32] });
                    let here = c5.scopes.last().code.len() as int;
                    if here > 0xFFFF {
                        (Err(CErrV::CodeTooLarge), c5)
                    } else {
                        let c6 = patch_spec(
                            c5,
                            jmp_if,
                            InstrV { op: OpCode::JumpNotTrue, operands: seq![here as u32] },
                        );
                        let (re, c7) = match els {
                            Some(b) => {
                                let (rb, cb) = compile_block_spec(b, c6);
                                if rb is Err {
                                    (rb, cb)
                                } else {
                                    (
                                        Ok(()),
                                        if last_is_spec(cb, OpCode::Pop) {
                                            remove_last_spec(cb)
                                        } else {
                                            cb
                                        },
                                    )
                                }
                            },
                            None => (
                                Ok(()),
                                emit_spec(
                                    c6,
                                    InstrV { op: OpCode::Constant, operands: seq![0u32] },
                                ),
                            ),
                        };
                        if re is Err {
                            (re, c7)
                        } else {
                            let after = c7.scopes.last().code.len() as int;
                            if after > 0xFFFF {
                                (Err(CErrV::CodeTooLarge), c7)
                            } else {
                                (
                                    Ok(()),
                                    patch_spec(
                                        c7,
                                        jmp_else,
                                        InstrV {
                                            op: OpCode::Jump,
                                            operands: seq![after as u32],
                                        },
                                    ),
                                )
                            }
                        }
                    }
                }
            }
        },
        ExprV::Func(params, body) => {
            let c1 = enter_scope_spec(c);
            let c2 = CompV { syms: define_params_spec(params, c1.syms), ..c1 };
            let (rb, c3) = compile_block_spec(body, c2);
            if rb is Err {
                (rb, c3)
            } else {
                let c4 = if last_is_spec(c3, OpCode::Pop) {
                    emit_spec(
                        remove_last_spec(c3),
                        InstrV { op: OpCode::ReturnValue, operands: Seq::empty() },
                    )
                } else if !last_is_spec(c3, OpCode::ReturnValue) {
                    emit_spec(c3, InstrV { op: OpCode::Return, operands: Seq::empty() })
                } else {
                    c3
                };
                let code = c4.scopes.last().code;
                let locals = c4.syms.last().stored;
                let c5 = CompV {
                    scopes: c4.scopes.drop_last(),
                    consts: c4.consts,
                    syms: c4.syms.drop_last(),
                };
                emit_constant_spec(
                    add_const_spec(c5, ObjV::CompiledFunc(code, locals, params.len())),
                    c5.consts.len() as int,
                )
            }
        },
        ExprV::Call(func, args) => {
            let (rf, c1) = compile_expr_spec(*func, c);
            if rf is Err {
                (rf, c1)
            } else {
                let (ra, c2) = compile_exprs_spec(args, c1);
                if ra is Err {
                    (ra, c2)
                } else if args.len() > 255 {
                    (Err(CErrV::TooManyArguments), c2)
                } else {
                    (
                        Ok(()),
                        emit_spec(
                            c2,
                            InstrV { op: OpCode::Call, operands: seq![args.len() as u32] },
                        ),
                    )
                }
            }
        },
        ExprV::Array(es) => {
            let (ra, c1) = compile_exprs_spec(es, c);
            if ra is Err {
                (ra, c1)
            } else if es.len() > 0xFFFF {
                (Err(CErrV::CodeTooLarge), c1)
            } else {
                (
                    Ok(()),
                    emit_spec(
                        c1,
                        InstrV { op: OpCode::Array, operands: seq![es.len() as u32] },
                    ),
                )
            }
        },
        ExprV::Index(left, index) => {
            let (r1, c1) = compile_expr_spec(*left, c);
            if r1 is Err {
                (r1, c1)
            } else {
                let (r2, c2) = compile_expr_spec(*index, c1);
                if r2 is Err {
                    (r2, c2)
                } else {
                    (Ok(()), emit_spec(c2, InstrV { op: OpCode::Index, operands: Seq::empty() }))
                }
            }
        },
        ExprV::Hash(ps) => {
            let (rp, c1) = compile_pairs_spec(ps, c);
            if rp is Err {
                (rp, c1)
            } else if ps.len() > 0xFFFF {
                (Err(CErrV::CodeTooLarge), c1)
            } else {
                (
                    Ok(()),
                    emit_spec(c1, InstrV { op: OpCode::Hash, operands: seq![ps.len() as u32] }),
                )
            }
        },
    }
}

/// What compiling one statement does to the compiler.
#[verifier::opaque]
pub open spec fn compile_stmt_spec(s: StmtV, c: CompV) -> (Result<(), CErrV>, CompV)
    decreases s, 0int,
{
    match s {
        StmtV::Let(name, e) => {
            let (r1, c1) = compile_expr_spec(e, c);
            if r1 is Err {
                (r1, c1)
            } else {
                let (syms2, sym) = define_spec(c1.syms, name);
                let c2 = CompV { syms: syms2, ..c1 };
                let op = if sym.scope == Scope::Global {
                    OpCode::SetGlobal
                } else {
                    OpCode::SetLocal
                };
                (Ok(()), emit_spec(c2, InstrV { op, operands: seq![sym.index as u32] }))
            }
        },
        StmtV::Return(e) => {
            let (r1, c1) = compile_expr_spec(e, c);
            if r1 is Err {
                (r1, c1)
            } else {
                (
                    Ok(()),
                    emit_spec(c1, InstrV { op: OpCode::ReturnValue, operands: Seq::empty() }),
                )
            }
        },
        StmtV::Expr(e) => {
            let (r1, c1) = compile_expr_spec(e, c);
            if r1 is Err {
                (r1, c1)
            } else {
                (Ok(()), emit_spec(c1, InstrV { op: OpCode::Pop, operands: Seq::empty() }))
            }
        },
    }
}

/// What compiling a statement list does, in order.
#[verifier::opaque]
pub open spec fn compile_block_spec(ss: Seq<StmtV>, c: CompV) -> (Result<(), CErrV>, CompV)
    decreases ss, 1int,
{
    if ss.len() == 0 {
        (Ok(()), c)
    } else {
        let (r1, c1) = compile_stmt_spec(ss[0], c);
        if r1 is Err {
            (r1, c1)
        } else {
            compile_block_spec(ss.drop_first(), c1)
        }
    }
}

/// What compiling an expression list does, in order.
pub open spec fn compile_exprs_spec(es: Seq<ExprV>, c: CompV) -> (Result<(), CErrV>, CompV)
    decreases es, 1int,
{
    if es.len() == 0 {
        (Ok(()), c)
    } else {
        let (r1, c1) = compile_expr_spec(es[0], c);
        if r1 is Err {
            (r1, c1)
        } else {
            compile_exprs_spec(es.drop_first(), c1)
        }
    }
}

/// What compiling a key-value pair list does: each key then its
/// value, in order.
pub open spec fn compile_pairs_spec(ps: Seq<(ExprV, ExprV)>, c: CompV) -> (
    Result<(), CErrV>,
    CompV,
)
    decreases ps, 1int,
{
    if ps.len() == 0 {
        (Ok(()), c)
    } else {
        let (r1, c1) = compile_expr_spec(ps[0].0, c);
        if r1 is Err {
            (r1, c1)
        } else {
            let (r2, c2) = compile_expr_spec(ps[0].1, c1);
            if r2 is Err {
                (r2, c2)
            } else {
                compile_pairs_spec(ps.drop_first(), c2)
            }
        }
    }
}

/// The mirror of an `if` node.
pub open spec fn if_view(i: IfExpr) -> ExprV {
    ExprV::If(
        Box::new(crate::ast::expr_view(*i.condition)),
        stmts_view(i.if_branch@),
        match i.else_branch {
            Some(b) => Some(stmts_view(b@)),
            None => None,
        },
    )
}

/// An instruction without an operand.
fn instr0(op: OpCode) -> (i: Instruction)
    ensures
        i@ == (InstrV { op, operands: Seq::empty() }),
{
    let v: Vec<u32> = Vec::new();
    proof {
        assert(v@ =~= Seq::<u32>::empty());
    }
    Instruction::new(op, v)
}

/// An instruction with one operand.
fn instr1(op: OpCode, x: u32) -> (i: Instruction)
    ensures
        i@ == (InstrV { op, operands: seq![x] }),
{
    let v: Vec<u32> = vec![x];
    proof {
        assert(v@ =~= seq![x]);
    }
    Instruction::new(op, v)
}

impl Compiler {
    /// One compilation scope per lexical scope, at least one of
    /// each.
    pub closed spec fn wf(&self) -> bool {
        &&& self.scopes@.len() >= 1
        &&& self.symbol_table@.len() == self.scopes@.len()
    }

    /// The instruction bytes of the innermost compilation scope.
    pub closed spec fn cur_code(&self) -> Seq<u8> {
        self.scopes@.last().instructions@
    }

    /// The views of the constant pool.
    pub closed spec fn consts(&self) -> Seq<ObjV> {
        objs_view(self.constants@)
    }

    /// The mathematical mirror of the whole compiler.
    pub closed spec fn comp_view(&self) -> CompV {
        CompV {
            scopes: Seq::new(self.scopes@.len(), |i: int| self.scopes@[i]@),
            consts: objs_view(self.constants@),
            syms: self.symbol_table@,
        }
    }

    /// A fresh compiler: one scope, a constant pool holding the null
    /// constant, an empty root symbol table.
    pub fn new() -> (r: Compiler)
        ensures
            r.wf(),
            r.cur_code() == Seq::<u8>::empty(),
            r.consts() =~= seq![ObjV::Null],
    {
        let mut scopes: Vec<CompScope> = Vec::new();
        scopes.push(CompScope { instructions: Bytes::new(), last: None, prev: None });
        let mut constants: Vec<Object> = Vec::new();
        constants.push(Object::Null);
        proof {
            lemma_objs_view_len(constants@);
            assert(objs_view(constants@) =~= seq![ObjV::Null]);
        }
        let mut symbol_table = SymbolTable::empty();
        define_builtins(&mut symbol_table);
        Compiler { scopes, constants, symbol_table }
    }

    /// A compiler that continues with an earlier run's symbol table
    /// and constant pool, as the interactive loop does.
    pub fn new_with_state(symbol_table: SymbolTable, constants: Vec<Object>) -> (r: Compiler)
        requires
            symbol_table@.len() == 1,
        ensures
            r.wf(),
            r.cur_code() == Seq::<u8>::empty(),
            r.consts() == objs_view(constants@),
            r.symbols_view() == symbol_table@,
    {
        let mut scopes: Vec<CompScope> = Vec::new();
        scopes.push(CompScope { instructions: Bytes::new(), last: None, prev: None });
        Compiler { scopes, constants, symbol_table }
    }

    /// A copy of the symbol table and the constant pool, to carry
    /// into a later run.
    pub fn state(&self) -> (r: (SymbolTable, Vec<Object>))
        ensures
            r.0@ == self.symbols_view(),
            objs_view(r.1@) == self.consts(),
    {
        (self.symbol_table.duplicate(), clone_objs(&self.constants))
    }

    /// The view of the symbol table.
    pub closed spec fn symbols_view(&self) -> Seq<crate::symbol_table::TableFrameV> {
        self.symbol_table@
    }

    /// Compile a whole program into the current scope.
    pub fn compile(&mut self, program: Program) -> (r: Result<(), CompileError>)
        requires
            old(self).wf(),
        ensures
            final(self).wf(),
            final(self).scope_count() == old(self).scope_count(),
            ({
                let (r2, c2) = compile_block_spec(program@, old(self).comp_view());
                match r2 {
                    Ok(_) => r is Ok && final(self).comp_view() == c2,
                    Err(e) => r matches Err(x) && x@ == e,
                }
            }),
    {
        self.compile_block(&program.statements)
    }

    /// The number of open compilation scopes.
    pub closed spec fn scope_count(&self) -> nat {
        self.scopes@.len()
    }

    /// The compiled output: the current scope's instructions and the
    /// constant pool.
    pub fn bytecode(self) -> (r: Bytecode)
        requires
            self.wf(),
        ensures
            r.instructions@ == self.cur_code(),
            r.instructions@ == self.comp_view().scopes.last().code,
            objs_view(r.constants@) == self.consts(),
            objs_view(r.constants@) == self.comp_view().consts,
    {
        let mut scopes = self.scopes;
        let scope = scopes.pop().unwrap();
        Bytecode { instructions: scope.instructions, constants: self.constants }
    }

    /// Append an instruction to the current scope, recording it as
    /// the last emitted; its position is returned.
    fn emit(&mut self, i: Instruction) -> (pos: usize)
        requires
            old(self).wf(),
        ensures
            final(self).wf(),
            final(self).scope_count() == old(self).scope_count(),
            final(self).cur_code() == old(self).cur_code() + instr_bytes(i@),
            final(self).consts() == old(self).consts(),
            final(self).symbols_view() == old(self).symbols_view(),
            pos == old(self).cur_code().len(),
            final(self).comp_view() == emit_spec(old(self).comp_view(), i@),
    {
        let n = self.scopes.len();
        let scope = &mut self.scopes[n - 1];
        let pos = scope.instructions.len();
        scope.prev = scope.last;
        scope.last = Some(Emitted { opcode: i.op, pos });
        scope.instructions.push(&i);
        proof {
            assert(self.comp_view() =~= emit_spec(old(self).comp_view(), i@));
        }
        pos
    }

    /// Append a value to the constant pool; its index is returned.
    fn add_constant(&mut self, obj: Object) -> (idx: usize)
        requires
            old(self).wf(),
        ensures
            final(self).wf(),
            final(self).scope_count() == old(self).scope_count(),
            final(self).cur_code() == old(self).cur_code(),
            final(self).consts() == old(self).consts().push(obj@),
            final(self).symbols_view() == old(self).symbols_view(),
            idx == old(self).consts().len(),
            final(self).comp_view() == add_const_spec(old(self).comp_view(), obj@),
    {
        proof {
            lemma_objs_view_len(self.constants@);
        }
        let ghost pre = self.constants@;
        let idx = self.constants.len();
        self.constants.push(obj);
        proof {
            crate::object::lemma_objs_view_push(pre, self.constants@[pre.len() as int]);
            assert(self.comp_view() =~= add_const_spec(old(self).comp_view(), obj@));
        }
        idx
    }

    /// Whether the last emitted instruction in the current scope has
    /// an opcode.
    fn last_is(&self, op: OpCode) -> (r: bool)
        requires
            self.wf(),
        ensures
            r == last_is_spec(self.comp_view(), op),
    {
        let n = self.scopes.len();
        match &self.scopes[n - 1].last {
            Some(e) => e.opcode == op,
            None => false,
        }
    }

    /// Drop the last emitted instruction from the current scope.
    fn remove_last(&mut self)
        requires
            old(self).wf(),
        ensures
            final(self).wf(),
            final(self).scope_count() == old(self).scope_count(),
            final(self).consts() == old(self).consts(),
            final(self).symbols_view() == old(self).symbols_view(),
            final(self).comp_view() == remove_last_spec(old(self).comp_view()),
    {
        let n = self.scopes.len();
        let scope = &mut self.scopes[n - 1];
        match scope.last {
            Some(e) => {
                scope.instructions.truncate(e.pos);
                scope.last = scope.prev;
                scope.prev = None;
            }
            None => {}
        }
        proof {
            assert(self.comp_view() =~= remove_last_spec(old(self).comp_view()));
        }
    }

    /// Overwrite the instruction at a position in the current scope.
    fn patch(&mut self, pos: usize, i: Instruction)
        requires
            old(self).wf(),
        ensures
            final(self).wf(),
            final(self).scope_count() == old(self).scope_count(),
            final(self).consts() == old(self).consts(),
            final(self).symbols_view() == old(self).symbols_view(),
            final(self).comp_view() == patch_spec(old(self).comp_view(), pos as int, i@),
    {
        let n = self.scopes.len();
        let scope = &mut self.scopes[n - 1];
        scope.instructions.patch(pos, &i);
        proof {
            assert(self.comp_view() =~= patch_spec(old(self).comp_view(), pos as int, i@));
        }
    }

    /// The length of the current scope's instruction buffer.
    fn cur_len(&self) -> (n: usize)
        requires
            self.wf(),
        ensures
            n == self.cur_code().len(),
    {
        let k = self.scopes.len();
        self.scopes[k - 1].instructions.len()
    }

    /// Compile one statement: `let` compiles its value and binds the
    /// name (a global store in the root scope, a local store in a
    /// function scope); `return` compiles its value and returns it;
    /// an expression statement compiles its value and pops it.
    #[verifier::rlimit(100)]
    #[verifier::spinoff_prover]
    pub fn compile_stmt(&mut self, stmt: &Statement) -> (r: Result<(), CompileError>)
        requires
            old(self).wf(),
        ensures
            final(self).wf(),
            final(self).scope_count() == old(self).scope_count(),
            ({
                let (r2, c2) = compile_stmt_spec(stmt@, old(self).comp_view());
                match r2 {
                    Ok(_) => r is Ok && final(self).comp_view() == c2,
                    Err(e) => r matches Err(x) && x@ == e,
                }
            }),
        decreases *stmt, 0int,
    {
        proof {
            reveal(compile_stmt_spec);
        }
        match stmt {
            Statement::Let(l) => {
                match self.compile_expr(&l.expr) {
                    Ok(_) => {}
                    Err(e) => {
                        return Err(e);
                    }
                }
                let sym = self.define_symbol(&l.ident);
                let op = if sym.scope == Scope::Global {
                    OpCode::SetGlobal
                } else {
                    OpCode::SetLocal
                };
                self.emit(instr1(op, sym.index as u32));
                Ok(())
            }
            Statement::Return(r0) => {
                match self.compile_expr(&r0.expr) {
                    Ok(_) => {}
                    Err(e) => {
                        return Err(e);
                    }
                }
                self.emit(instr0(OpCode::ReturnValue));
                Ok(())
            }
            Statement::Expression(e) => {
                match self.compile_expr(e) {
                    Ok(_) => {}
                    Err(e0) => {
                        return Err(e0);
                    }
                }
                self.emit(instr0(OpCode::Pop));
                Ok(())
            }
        }
    }

    /// Define a name in the innermost lexical scope.
    fn define_symbol(&mut self, name: &Ident) -> (s: Symbol)
        requires
            old(self).wf(),
        ensures
            final(self).wf(),
            final(self).scope_count() == old(self).scope_count(),
            final(self).cur_code() == old(self).cur_code(),
            final(self).consts() == old(self).consts(),
            s.scope == (if old(self).scope_count() > 1 {
                Scope::Local
            } else {
                Scope::Global
            }),
            ({
                let (syms2, sym2) = define_spec(old(self).comp_view().syms, name@);
                final(self).comp_view() == (CompV { syms: syms2, ..old(self).comp_view() })
                    && s == sym2
            }),
    {
        let s = self.symbol_table.define(name);
        proof {
            let (syms2, sym2) = define_spec(old(self).comp_view().syms, name@);
            assert(self.comp_view() =~= (CompV { syms: syms2, ..old(self).comp_view() }));
        }
        s
    }

    /// Resolve a name for compilation: the innermost scope first,
    /// then outward. A hit on an enclosing function's local is
    /// refused — the machine has no closure support to carry it —
    /// and an unresolved name is undefined.
    fn resolve_symbol(&self, name: &Ident) -> (r: Result<Symbol, CompileError>)
        requires
            self.wf(),
        ensures
            match resolve_symbol_spec(self.comp_view().syms, name@) {
                Ok(s2) => r matches Ok(s) && s == s2,
                Err(e2) => r matches Err(e) && e@ == e2,
            },
    {
        match self.symbol_table.resolve_innermost(name) {
            Some(s) => Ok(s),
            None => match self.symbol_table.resolve_outer(name) {
                Some(s) => {
                    if s.scope == Scope::Local {
                        Err(CompileError::CapturedLocal { name: name.clone() })
                    } else {
                        Ok(s)
                    }
                }
                None => Err(CompileError::UndefinedSymbol { name: name.clone() }),
            },
        }
    }

    /// Compile a statement list in order.
    #[verifier::loop_isolation(false)]
    #[verifier::rlimit(100)]
    #[verifier::spinoff_prover]
    pub fn compile_block(&mut self, block: &Vec<Statement>) -> (r: Result<(), CompileError>)
        requires
            old(self).wf(),
        ensures
            final(self).wf(),
            final(self).scope_count() == old(self).scope_count(),
            ({
                let (r2, c2) = compile_block_spec(stmts_view(block@), old(self).comp_view());
                match r2 {
                    Ok(_) => r is Ok && final(self).comp_view() == c2,
                    Err(e) => r matches Err(x) && x@ == e,
                }
            }),
        decreases *block, 1int,
    {
        proof {
            reveal(compile_block_spec);
            crate::ast::lemma_stmts_view_len(block@);
            assert(block@.skip(0) =~= block@);
        }
        let mut i: usize = 0;
        while i < block.len()
            invariant
                self.wf(),
                self.scope_count() == old(self).scope_count(),
                i <= block@.len(),
                ({
                    let (ra, ca) = compile_block_spec(stmts_view(block@), old(self).comp_view());
                    let (rb, cb) = compile_block_spec(
                        stmts_view(block@.skip(i as int)),
                        self.comp_view(),
                    );
                    ra == rb && (rb is Ok ==> ca == cb)
                }),
            decreases block@.len() - i,
        {
            proof {
                reveal(compile_block_spec);
                crate::ast::lemma_stmts_view_skip(block@, i as int);
                let cons = stmts_view(block@.skip(i as int));
                assert(cons[0] == crate::ast::stmt_view(block@[i as int]));
                assert(cons.drop_first() =~= stmts_view(block@.skip(i + 1)));
            }
            match self.compile_stmt(&block[i]) {
                Ok(_) => {}
                Err(e) => {
                    return Err(e);
                }
            }
            i = i + 1;
        }
        proof {
            assert(stmts_view(block@.skip(block@.len() as int)) =~= Seq::<StmtV>::empty());
        }
        Ok(())
    }

    /// Compile one expression so that running it leaves exactly its
    /// value on the stack; what it emits is fixed by the lowering
    /// rules (`compile_expr_spec`).
    #[verifier::loop_isolation(false)]
    #[verifier::rlimit(100)]
    #[verifier::spinoff_prover]
    pub fn compile_expr(&mut self, expr: &Expression) -> (r: Result<(), CompileError>)
        requires
            old(self).wf(),
        ensures
            final(self).wf(),
            final(self).scope_count() == old(self).scope_count(),
            ({
                let (r2, c2) = compile_expr_spec(expr@, old(self).comp_view());
                match r2 {
                    Ok(_) => r is Ok && final(self).comp_view() == c2,
                    Err(e) => r matches Err(x) && x@ == e,
                }
            }),
        decreases *expr, 0int,
    {
        proof {
            reveal(compile_expr_spec);
        }
        match expr {
            Expression::Ident(name) => {
                // the machine has no closure support: a local of an
                // enclosing function cannot be captured, so resolving
                // one across a function boundary is a compile failure
                let sym = match self.resolve_symbol(name) {
                    Ok(s) => s,
                    Err(e) => {
                        return Err(e);
                    }
                };
                let op = match sym.scope {
                    Scope::Global => OpCode::GetGlobal,
                    Scope::Local => OpCode::GetLocal,
                    Scope::Builtin => OpCode::GetBuiltin,
                };
                self.emit(instr1(op, sym.index as u32));
                Ok(())
            }
            Expression::Number(x) => {
                let idx = self.add_constant(Object::Integer(*x));
                self.emit_constant(idx)
            }
            Expression::String(t) => {
                let idx = self.add_constant(Object::String(t.clone()));
                self.emit_constant(idx)
            }
            Expression::Bool(b) => {
                if *b {
                    self.emit(instr0(OpCode::True));
                } else {
                    self.emit(instr0(OpCode::False));
                }
                Ok(())
            }
            Expression::Prefix(p) => {
                match self.compile_expr(&p.right) {
                    Ok(_) => {}
                    Err(e) => {
                        return Err(e);
                    }
                }
                if p.operator == TokenType::Minus {
                    self.emit(instr0(OpCode::Minus));
                    Ok(())
                } else if p.operator == TokenType::Bang {
                    self.emit(instr0(OpCode::Bang));
                    Ok(())
                } else {
                    Err(CompileError::UnknownOperator { op: p.operator })
                }
            }
            Expression::Infix(ix) => {
                if ix.operator == TokenType::Lt {
                    // the machine has no dedicated less-than opcode:
                    // compile right then left and compare greater
                    match self.compile_expr(&ix.right) {
                        Ok(_) => {}
                        Err(e) => {
                            return Err(e);
                        }
                    }
                    match self.compile_expr(&ix.left) {
                        Ok(_) => {}
                        Err(e) => {
                            return Err(e);
                        }
                    }
                    self.emit(instr0(OpCode::Greater));
                    return Ok(());
                }
                match self.compile_expr(&ix.left) {
                    Ok(_) => {}
                    Err(e) => {
                        return Err(e);
                    }
                }
                match self.compile_expr(&ix.right) {
                    Ok(_) => {}
                    Err(e) => {
                        return Err(e);
                    }
                }
                let op = if ix.operator == TokenType::Plus {
                    OpCode::Add
                } else if ix.operator == TokenType::Minus {
                    OpCode::Sub
                } else if ix.operator == TokenType::Star {
                    OpCode::Mul
                } else if ix.operator == TokenType::Slash {
                    OpCode::Div
                } else if ix.operator == TokenType::Gt {
                    OpCode::Greater
                } else if ix.operator == TokenType::Eq {
                    OpCode::Eq
                } else if ix.operator == TokenType::NotEq {
                    OpCode::NotEq
                } else {
                    return Err(CompileError::UnknownOperator { op: ix.operator });
                };
                self.emit(instr0(op));
                Ok(())
            }
            Expression::If(i) => {
                proof {
                    assert(expr@ == if_view(*i));
                }
                self.compile_if(i)
            }
            Expression::Func(f) => {
                proof {
                    assert(expr@ == (ExprV::Func(params_view(f.params@), stmts_view(f.body@))));
                }
                self.compile_func(f)
            }
            Expression::Call(c) => {
                match self.compile_expr(&c.func) {
                    Ok(_) => {}
                    Err(e) => {
                        return Err(e);
                    }
                }
                let ghost mid = self.comp_view();
                proof {
                    crate::ast::lemma_exprs_view_len(c.arguments@);
                    assert(c.arguments@.skip(0) =~= c.arguments@);
                }
                let mut ai: usize = 0;
                while ai < c.arguments.len()
                    invariant
                        self.wf(),
                        self.scope_count() == old(self).scope_count(),
                        ai <= c.arguments@.len(),
                        ({
                            let (ra, ca) = compile_exprs_spec(exprs_view(c.arguments@), mid);
                            let (rb, cb) = compile_exprs_spec(
                                exprs_view(c.arguments@.skip(ai as int)),
                                self.comp_view(),
                            );
                            ra == rb && (rb is Ok ==> ca == cb)
                        }),
                    decreases c.arguments@.len() - ai,
                {
                    proof {
                        crate::ast::lemma_exprs_view_skip(c.arguments@, ai as int);
                        let cons = exprs_view(c.arguments@.skip(ai as int));
                        assert(cons[0] == crate::ast::expr_view(c.arguments@[ai as int]));
                        assert(cons.drop_first() =~= exprs_view(c.arguments@.skip(ai + 1)));
                    }
                    match self.compile_expr(&c.arguments[ai]) {
                        Ok(_) => {}
                        Err(e) => {
                            return Err(e);
                        }
                    }
                    ai = ai + 1;
                }
                proof {
                    assert(exprs_view(c.arguments@.skip(c.arguments@.len() as int)) =~= Seq::<
                        ExprV,
                    >::empty());
                }
                if c.arguments.len() > 255 {
                    return Err(CompileError::TooManyArguments);
                }
                self.emit(instr1(OpCode::Call, c.arguments.len() as u32));
                Ok(())
            }
            Expression::Array(a) => {
                let ghost mid = self.comp_view();
                proof {
                    crate::ast::lemma_exprs_view_len(a.elements@);
                    assert(a.elements@.skip(0) =~= a.elements@);
                }
                let mut ai: usize = 0;
                while ai < a.elements.len()
                    invariant
                        self.wf(),
                        self.scope_count() == old(self).scope_count(),
                        ai <= a.elements@.len(),
                        ({
                            let (ra, ca) = compile_exprs_spec(exprs_view(a.elements@), mid);
                            let (rb, cb) = compile_exprs_spec(
                                exprs_view(a.elements@.skip(ai as int)),
                                self.comp_view(),
                            );
                            ra == rb && (rb is Ok ==> ca == cb)
                        }),
                    decreases a.elements@.len() - ai,
                {
                    proof {
                        crate::ast::lemma_exprs_view_skip(a.elements@, ai as int);
                        let cons = exprs_view(a.elements@.skip(ai as int));
                        assert(cons[0] == crate::ast::expr_view(a.elements@[ai as int]));
                        assert(cons.drop_first() =~= exprs_view(a.elements@.skip(ai + 1)));
                    }
                    match self.compile_expr(&a.elements[ai]) {
                        Ok(_) => {}
                        Err(e) => {
                            return Err(e);
                        }
                    }
                    ai = ai + 1;
                }
                proof {
                    assert(exprs_view(a.elements@.skip(a.elements@.len() as int)) =~= Seq::<
                        ExprV,
                    >::empty());
                }
                if a.elements.len() > 0xFFFF {
                    return Err(CompileError::CodeTooLarge);
                }
                self.emit(instr1(OpCode::Array, a.elements.len() as u32));
                Ok(())
            }
            Expression::Index(ix) => {
                match self.compile_expr(&ix.left) {
                    Ok(_) => {}
                    Err(e) => {
                        return Err(e);
                    }
                }
                match self.compile_expr(&ix.index) {
                    Ok(_) => {}
                    Err(e) => {
                        return Err(e);
                    }
                }
                self.emit(instr0(OpCode::Index));
                Ok(())
            }
            Expression::Hash(h) => {
                let ghost mid = self.comp_view();
                proof {
                    crate::ast::lemma_pairs_view_len(h.pairs@);
                    assert(h.pairs@.skip(0) =~= h.pairs@);
                }
                let mut hi: usize = 0;
                while hi < h.pairs.len()
                    invariant
                        self.wf(),
                        self.scope_count() == old(self).scope_count(),
                        hi <= h.pairs@.len(),
                        ({
                            let (ra, ca) = compile_pairs_spec(pairs_view(h.pairs@), mid);
                            let (rb, cb) = compile_pairs_spec(
                                pairs_view(h.pairs@.skip(hi as int)),
                                self.comp_view(),
                            );
                            ra == rb && (rb is Ok ==> ca == cb)
                        }),
                    decreases h.pairs@.len() - hi,
                {
                    proof {
                        crate::ast::lemma_pairs_view_skip(h.pairs@, hi as int);
                        let cons = pairs_view(h.pairs@.skip(hi as int));
                        assert(cons[0] == (
                            crate::ast::expr_view(h.pairs@[hi as int].0),
                            crate::ast::expr_view(h.pairs@[hi as int].1),
                        ));
                        assert(cons.drop_first() =~= pairs_view(h.pairs@.skip(hi + 1)));
                    }
                    match self.compile_expr(&h.pairs[hi].0) {
                        Ok(_) => {}
                        Err(e) => {
                            return Err(e);
                        }
                    }
                    match self.compile_expr(&h.pairs[hi].1) {
                        Ok(_) => {}
                        Err(e) => {
                            return Err(e);
                        }
                    }
                    hi = hi + 1;
                }
                proof {
                    assert(pairs_view(h.pairs@.skip(h.pairs@.len() as int)) =~= Seq::<
                        (ExprV, ExprV),
                    >::empty());
                }
                if h.pairs.len() > 0xFFFF {
                    return Err(CompileError::CodeTooLarge);
                }
                self.emit(instr1(OpCode::Hash, h.pairs.len() as u32));
                Ok(())
            }
        }
    }

    /// Compile an `if` expression: the condition, a conditional jump
    /// over the then-block, the then-block with a trailing `Pop`
    /// stripped, a jump over the else-block, the else-block (or the
    /// pooled null) with a trailing `Pop` stripped, both jumps
    /// patched to their targets.
    #[verifier::loop_isolation(false)]
    #[verifier::rlimit(100)]
    #[verifier::spinoff_prover]
    fn compile_if(&mut self, i: &IfExpr) -> (r: Result<(), CompileError>)
        requires
            old(self).wf(),
        ensures
            final(self).wf(),
            final(self).scope_count() == old(self).scope_count(),
            ({
                let (r2, c2) = compile_expr_spec(if_view(*i), old(self).comp_view());
                match r2 {
                    Ok(_) => r is Ok && final(self).comp_view() == c2,
                    Err(e) => r matches Err(x) && x@ == e,
                }
            }),
        decreases *i, 2int,
    {
        proof {
            reveal(compile_expr_spec);
        }
        match self.compile_expr(&i.condition) {
            Ok(_) => {}
            Err(e) => {
                return Err(e);
            }
        }
        let jmp_if = self.emit(instr1(OpCode::JumpNotTrue, 9999));
        match self.compile_block(&i.if_branch) {
            Ok(_) => {}
            Err(e) => {
                return Err(e);
            }
        }
        if self.last_is(OpCode::Pop) {
            self.remove_last();
        }
        let jmp_else = self.emit(instr1(OpCode::Jump, 9999));
        let here = self.cur_len();
        if here > 0xFFFF {
            return Err(CompileError::CodeTooLarge);
        }
        self.patch(jmp_if, instr1(OpCode::JumpNotTrue, here as u32));
        match &i.else_branch {
            Some(els) => {
                match self.compile_block(els) {
                    Ok(_) => {}
                    Err(e) => {
                        return Err(e);
                    }
                }
                if self.last_is(OpCode::Pop) {
                    self.remove_last();
                }
            }
            None => {
                self.emit(instr1(OpCode::Constant, 0));
            }
        }
        let after = self.cur_len();
        if after > 0xFFFF {
            return Err(CompileError::CodeTooLarge);
        }
        self.patch(jmp_else, instr1(OpCode::Jump, after as u32));
        Ok(())
    }

    /// Compile a function literal: a fresh scope, the parameters as
    /// its first locals, the body with a trailing `Pop` replaced by
    /// `ReturnValue` (or a bare `Return` appended when nothing
    /// returns), the scope folded into a compiled-function constant.
    #[verifier::loop_isolation(false)]
    #[verifier::rlimit(100)]
    #[verifier::spinoff_prover]
    fn compile_func(&mut self, f: &FuncExpr) -> (r: Result<(), CompileError>)
        requires
            old(self).wf(),
        ensures
            final(self).wf(),
            final(self).scope_count() == old(self).scope_count(),
            ({
                let (r2, c2) = compile_expr_spec(
                    ExprV::Func(params_view(f.params@), stmts_view(f.body@)),
                    old(self).comp_view(),
                );
                match r2 {
                    Ok(_) => r is Ok && final(self).comp_view() == c2,
                    Err(e) => r matches Err(x) && x@ == e,
                }
            }),
        decreases *f, 2int,
    {
        proof {
            reveal(compile_expr_spec);
        }
        self.enter_scope();

                let ghost entered = self.comp_view();
                let ghost pv = params_view(f.params@);
                proof {
                    assert(pv.skip(0) =~= pv);
                }
                let mut pi: usize = 0;
                while pi < f.params.len()
                    invariant
                        self.wf(),
                        self.scope_count() == old(self).scope_count() + 1,
                        pi <= f.params@.len(),
                        self.comp_view().scopes == entered.scopes,
                        self.comp_view().consts == entered.consts,
                        define_params_spec(pv, entered.syms) == define_params_spec(
                            pv.skip(pi as int),
                            self.comp_view().syms,
                        ),
                    decreases f.params@.len() - pi,
                {
                    proof {
                        assert(pv.skip(pi as int)[0] == pv[pi as int]);
                        assert(pv.skip(pi as int).drop_first() =~= pv.skip(pi + 1));
                    }
                    self.define_symbol(&f.params[pi]);
                    pi = pi + 1;
                }
                proof {
                    assert(pv.skip(pv.len() as int) =~= Seq::<Seq<char>>::empty());
                }
                match self.compile_block(&f.body) {
                    Ok(_) => {}
                    Err(e) => {
                        // fold the scope away before reporting, so the
                        // compiler stays balanced
                        self.leave_scope_discard();
                        return Err(e);
                    }
                }
                if self.last_is(OpCode::Pop) {
                    self.remove_last();
                    self.emit(instr0(OpCode::ReturnValue));
                } else if !self.last_is(OpCode::ReturnValue) {
                    self.emit(instr0(OpCode::Return));
                }
                let (instructions, locals) = self.leave_scope();
                let idx = self.add_constant(
                    Object::CompiledFunc(
                        CompiledFuncObj { instructions, locals, params: f.params.len() },
                    ),
                );
                self.emit_constant(idx)
            }

    /// Emit a `Constant` instruction for a pool index; an index
    /// beyond the operand's width is a failure.
    fn emit_constant(&mut self, idx: usize) -> (r: Result<(), CompileError>)
        requires
            old(self).wf(),
        ensures
            final(self).wf(),
            final(self).scope_count() == old(self).scope_count(),
            ({
                let (r2, c2) = emit_constant_spec(old(self).comp_view(), idx as int);
                match r2 {
                    Ok(_) => r is Ok && final(self).comp_view() == c2,
                    Err(e) => r matches Err(x) && x@ == e && final(self).comp_view() == c2,
                }
            }),
    {
        if idx > 0xFFFF {
            return Err(CompileError::ConstantPoolOverflow);
        }
        let i = Instruction::new(OpCode::Constant, vec![idx as u32]);
        proof {
            assert(i@.operands =~= seq![idx as u32]);
        }
        self.emit(i);
        Ok(())
    }

    /// Open a fresh compilation scope and lexical scope for a
    /// function literal.
    fn enter_scope(&mut self)
        requires
            old(self).wf(),
        ensures
            final(self).wf(),
            final(self).scope_count() == old(self).scope_count() + 1,
            final(self).comp_view() == enter_scope_spec(old(self).comp_view()),
    {
        self.scopes.push(CompScope { instructions: Bytes::new(), last: None, prev: None });
        self.symbol_table.enter_scope();
        proof {
            assert(self.comp_view() =~= enter_scope_spec(old(self).comp_view()));
        }
    }

    /// Close the innermost compilation scope, yielding its
    /// instructions and the number of locals its lexical scope
    /// defined.
    fn leave_scope(&mut self) -> (r: (Bytes, usize))
        requires
            old(self).wf(),
            old(self).scope_count() > 1,
        ensures
            final(self).wf(),
            final(self).scope_count() == old(self).scope_count() - 1,
            r.0@ == old(self).comp_view().scopes.last().code,
            r.1 == old(self).comp_view().syms.last().stored,
            final(self).comp_view() == (CompV {
                scopes: old(self).comp_view().scopes.drop_last(),
                consts: old(self).comp_view().consts,
                syms: old(self).comp_view().syms.drop_last(),
            }),
    {
        let scope = self.scopes.pop().unwrap();
        let locals = self.symbol_table.leave_scope();
        proof {
            assert(self.comp_view() =~= (CompV {
                scopes: old(self).comp_view().scopes.drop_last(),
                consts: old(self).comp_view().consts,
                syms: old(self).comp_view().syms.drop_last(),
            }));
        }
        (scope.instructions, locals)
    }

    /// Close and discard the innermost compilation scope.
    fn leave_scope_discard(&mut self)
        requires
            old(self).wf(),
            old(self).scope_count() > 1,
        ensures
            final(self).wf(),
            final(self).scope_count() == old(self).scope_count() - 1,
    {
        let _ = self.scopes.pop();
        let _ = self.symbol_table.leave_scope();
    }
}

impl Default for Compiler {
    /// A fresh compiler.
    fn default() -> (r: Compiler)
        ensures
            r.wf(),
            r.cur_code() == Seq::<u8>::empty(),
            r.consts() =~= seq![ObjV::Null],
    {
        Compiler::new()
    }
}

} // verus!
