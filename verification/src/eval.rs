//! The tree-walking evaluator: the reference semantics of the
//! language. Expressions evaluate against an environment arena; a
//! `return` produces a `Return` marker that blocks propagate
//! unchanged and that program and call boundaries unwrap once.
//!
//! The whole semantics is stated as spec functions (`eval_*_spec`)
//! over the mathematical mirrors, with an explicit recursion budget:
//! every executable function here is proved to return exactly what
//! the corresponding spec function says. The operator semantics
//! (`prefix_eval`, `infix_eval`, `index_eval`) are shared with the
//! virtual machine.

use vstd::prelude::*;

use crate::ast::{
    Program, Statement, Expression, Ident, ExprV, StmtV, stmts_view, exprs_view, pairs_view,
    params_view, clone_func,
};
use crate::builtin::{Builtin, builtin_of_name, builtin_call_spec};
use crate::env::{Environment, FrameV, env_get, env_set, store_insert};
use crate::object::{
    Object, ObjV, ErrV, RunError, FuncObj, ArrayObj, HashObj, obj_view, objs_view, obj_eq,
    truthy, hashable, kind_text, hash_lookup, hash_insert, clone_obj, object_eq,
    lemma_objs_view_len,
};
use crate::token::TokenType;

verus! {

/// A signed 64-bit negation, wrapping at the minimum.
pub open spec fn neg_i64(x: i64) -> i64 {
    if x == i64::MIN {
        i64::MIN
    } else {
        (-x) as i64
    }
}

/// Signed 64-bit division, truncating toward zero and wrapping at
/// the minimum.
pub open spec fn div_trunc(a: i64, b: i64) -> i64 {
    let m: int = if a >= 0 {
        a as int
    } else {
        -(a as int)
    };
    let n: int = if b >= 0 {
        b as int
    } else {
        -(b as int)
    };
    if n == 0 {
        0
    } else {
        let q = m / n;
        if (a >= 0) == (b >= 0) {
            if q > i64::MAX {
                i64::MIN
            } else {
                q as i64
            }
        } else {
            (-q) as i64
        }
    }
}

/// Whether two values have the same kind tag.
pub open spec fn same_kind(a: ObjV, b: ObjV) -> bool {
    ||| (a is Int && b is Int)
    ||| (a is Bool && b is Bool)
    ||| (a is Str && b is Str)
    ||| (a is Null && b is Null)
    ||| (a is Return && b is Return)
    ||| (a is Func && b is Func)
    ||| (a is CompiledFunc && b is CompiledFunc)
    ||| (a is Builtin && b is Builtin)
    ||| (a is Arr && b is Arr)
    ||| (a is Hash && b is Hash)
}

/// What a prefix operator yields on a value: `!` negates truthiness;
/// `-` negates an integer and fails on every other kind.
pub open spec fn prefix_eval(op: TokenType, v: ObjV) -> Result<ObjV, ErrV> {
    if op == TokenType::Bang {
        Ok(ObjV::Bool(!truthy(v)))
    } else if op == TokenType::Minus {
        match v {
            ObjV::Int(x) => Ok(ObjV::Int(neg_i64(x))),
            _ => Err(ErrV::UnknownPrefixOperator { op, right: kind_text(v) }),
        }
    } else {
        Err(ErrV::UnknownPrefixOperator { op, right: kind_text(v) })
    }
}

/// What a binary operator yields on two values: integer arithmetic
/// (wrapping; division truncates toward zero and fails on a zero
/// divisor) and comparisons; string concatenation and comparisons;
/// structural equality on any two values of one kind; a type
/// mismatch when the kinds differ, an unknown operator otherwise.
pub open spec fn infix_eval(l: ObjV, op: TokenType, r: ObjV) -> Result<ObjV, ErrV> {
    match (l, r) {
        (ObjV::Int(x), ObjV::Int(y)) => {
            if op == TokenType::Plus {
                Ok(ObjV::Int(vstd::wrapping::i64_specs::wrapping_add(x, y)))
            } else if op == TokenType::Minus {
                Ok(ObjV::Int(vstd::wrapping::i64_specs::wrapping_sub(x, y)))
            } else if op == TokenType::Star {
                Ok(ObjV::Int(vstd::wrapping::i64_specs::wrapping_mul(x, y)))
            } else if op == TokenType::Slash {
                if y == 0 {
                    Err(ErrV::DivisionByZero)
                } else {
                    Ok(ObjV::Int(div_trunc(x, y)))
                }
            } else if op == TokenType::Lt {
                Ok(ObjV::Bool(x < y))
            } else if op == TokenType::Gt {
                Ok(ObjV::Bool(x > y))
            } else if op == TokenType::Eq {
                Ok(ObjV::Bool(x == y))
            } else if op == TokenType::NotEq {
                Ok(ObjV::Bool(x != y))
            } else {
                Err(ErrV::UnknownOperator { left: kind_text(l), op, right: kind_text(r) })
            }
        }
        (ObjV::Str(a), ObjV::Str(b)) => {
            if op == TokenType::Plus {
                Ok(ObjV::Str(a + b))
            } else if op == TokenType::Eq {
                Ok(ObjV::Bool(a == b))
            } else if op == TokenType::NotEq {
                Ok(ObjV::Bool(a != b))
            } else {
                Err(ErrV::UnknownOperator { left: kind_text(l), op, right: kind_text(r) })
            }
        }
        _ => {
            if same_kind(l, r) {
                if op == TokenType::Eq {
                    Ok(ObjV::Bool(obj_eq(l, r)))
                } else if op == TokenType::NotEq {
                    Ok(ObjV::Bool(!obj_eq(l, r)))
                } else {
                    Err(ErrV::UnknownOperator { left: kind_text(l), op, right: kind_text(r) })
                }
            } else {
                Err(ErrV::TypeMismatch { left: kind_text(l), op, right: kind_text(r) })
            }
        }
    }
}

/// What indexing yields: an array indexed by an integer gives the
/// element, or `Null` out of bounds (negative included); a hash
/// indexed by a hashable key gives the mapping or `Null`, and fails
/// on a key that cannot hash; any other container fails.
pub open spec fn index_eval(l: ObjV, idx: ObjV) -> Result<ObjV, ErrV> {
    match (l, idx) {
        (ObjV::Arr(es), ObjV::Int(i)) => if 0 <= i < es.len() {
            Ok(es[i as int])
        } else {
            Ok(ObjV::Null)
        },
        (ObjV::Hash(ps), k) => if hashable(k) {
            match hash_lookup(ps, k) {
                Some(v) => Ok(v),
                None => Ok(ObjV::Null),
            }
        } else {
            Err(ErrV::UnusableHashKey { kind: kind_text(k) })
        },
        _ => Err(ErrV::IndexNotSupported { kind: kind_text(l) }),
    }
}

/// What an identifier resolves to: the environment chain, else a
/// builtin of that name, else an error.
pub open spec fn ident_eval(name: Seq<char>, envs: Seq<FrameV>, frame: int) -> Result<
    ObjV,
    ErrV,
> {
    match env_get(envs, frame, name) {
        Some(v) => Ok(v),
        None => match builtin_of_name(name) {
            Some(b) => Ok(ObjV::Builtin(b)),
            None => Err(ErrV::IdentNotFound { name }),
        },
    }
}

/// A call frame's bindings: each parameter bound to its argument,
/// left to right.
pub open spec fn bind_params(
    acc: Seq<(Seq<char>, ObjV)>,
    params: Seq<Seq<char>>,
    args: Seq<ObjV>,
) -> Seq<(Seq<char>, ObjV)>
    decreases params,
{
    if params.len() == 0 || args.len() == 0 {
        acc
    } else {
        bind_params(
            store_insert(acc, params[0], args[0]),
            params.drop_first(),
            args.drop_first(),
        )
    }
}

/// What evaluating an expression yields, and the arena it leaves
/// behind; the budget bounds the depth of function calls.
pub open spec fn eval_expr_spec(fuel: nat, e: ExprV, envs: Seq<FrameV>, frame: int) -> (
    Result<ObjV, ErrV>,
    Seq<FrameV>,
)
    decreases fuel, 1int, e,
{
    match e {
        ExprV::Ident(name) => (ident_eval(name, envs, frame), envs),
        ExprV::Number(x) => (Ok(ObjV::Int(x)), envs),
        ExprV::Str(s) => (Ok(ObjV::Str(s)), envs),
        ExprV::Bool(b) => (Ok(ObjV::Bool(b)), envs),
        ExprV::Prefix(op, right) => {
            let (r, envs1) = eval_expr_spec(fuel, *right, envs, frame);
            match r {
                Ok(v) => (prefix_eval(op, v), envs1),
                Err(e0) => (Err(e0), envs1),
            }
        }
        ExprV::Infix(left, op, right) => {
            let (rl, envs1) = eval_expr_spec(fuel, *left, envs, frame);
            match rl {
                Ok(lv) => {
                    let (rr, envs2) = eval_expr_spec(fuel, *right, envs1, frame);
                    match rr {
                        Ok(rv) => (infix_eval(lv, op, rv), envs2),
                        Err(e0) => (Err(e0), envs2),
                    }
                }
                Err(e0) => (Err(e0), envs1),
            }
        }
        ExprV::If(cond, thn, els) => {
            let (rc, envs1) = eval_expr_spec(fuel, *cond, envs, frame);
            match rc {
                Ok(c) => if truthy(c) {
                    eval_block_spec(fuel, thn, envs1, frame)
                } else {
                    match els {
                        Some(b) => eval_block_spec(fuel, b, envs1, frame),
                        None => (Ok(ObjV::Null), envs1),
                    }
                },
                Err(e0) => (Err(e0), envs1),
            }
        }
        ExprV::Func(params, body) => (Ok(ObjV::Func(params, body, frame)), envs),
        ExprV::Call(func, args) => {
            let (rf, envs1) = eval_expr_spec(fuel, *func, envs, frame);
            match rf {
                Ok(fv) => {
                    let (ra, envs2) = eval_exprs_spec(fuel, args, envs1, frame);
                    match ra {
                        Ok(avs) => apply_func_spec(fuel, fv, avs, envs2),
                        Err(e0) => (Err(e0), envs2),
                    }
                }
                Err(e0) => (Err(e0), envs1),
            }
        }
        ExprV::Array(es) => {
            let (r, envs1) = eval_exprs_spec(fuel, es, envs, frame);
            match r {
                Ok(vs) => (Ok(ObjV::Arr(vs)), envs1),
                Err(e0) => (Err(e0), envs1),
            }
        }
        ExprV::Index(l, ix) => {
            let (rl, envs1) = eval_expr_spec(fuel, *l, envs, frame);
            match rl {
                Ok(lv) => {
                    let (ri, envs2) = eval_expr_spec(fuel, *ix, envs1, frame);
                    match ri {
                        Ok(iv) => (index_eval(lv, iv), envs2),
                        Err(e0) => (Err(e0), envs2),
                    }
                }
                Err(e0) => (Err(e0), envs1),
            }
        }
        ExprV::Hash(ps) => {
            let (r, envs1) = eval_hash_spec(fuel, ps, envs, frame, Seq::empty());
            match r {
                Ok(pairs) => (Ok(ObjV::Hash(pairs)), envs1),
                Err(e0) => (Err(e0), envs1),
            }
        }
    }
}

/// What evaluating a statement yields: `let` binds in the current
/// environment and yields `Null`; `return` wraps its value in a
/// marker; an expression statement yields its value.
pub open spec fn eval_stmt_spec(fuel: nat, s: StmtV, envs: Seq<FrameV>, frame: int) -> (
    Result<ObjV, ErrV>,
    Seq<FrameV>,
)
    decreases fuel, 1int, s,
{
    match s {
        StmtV::Let(name, e) => {
            let (r, envs1) = eval_expr_spec(fuel, e, envs, frame);
            match r {
                Ok(v) => (Ok(ObjV::Null), env_set(envs1, frame, name, v)),
                Err(e0) => (Err(e0), envs1),
            }
        }
        StmtV::Return(e) => {
            let (r, envs1) = eval_expr_spec(fuel, e, envs, frame);
            match r {
                Ok(v) => (Ok(ObjV::Return(Box::new(v))), envs1),
                Err(e0) => (Err(e0), envs1),
            }
        }
        StmtV::Expr(e) => eval_expr_spec(fuel, e, envs, frame),
    }
}

/// What evaluating a block yields: the last statement's value, or
/// `Null` when the block is empty; a `Return` marker short-circuits
/// without being unwrapped.
pub open spec fn eval_block_spec(fuel: nat, ss: Seq<StmtV>, envs: Seq<FrameV>, frame: int) -> (
    Result<ObjV, ErrV>,
    Seq<FrameV>,
)
    decreases fuel, 1int, ss,
{
    if ss.len() == 0 {
        (Ok(ObjV::Null), envs)
    } else {
        let (r, envs1) = eval_stmt_spec(fuel, ss[0], envs, frame);
        match r {
            Ok(v) => if v is Return {
                (Ok(v), envs1)
            } else if ss.len() == 1 {
                (Ok(v), envs1)
            } else {
                eval_block_spec(fuel, ss.drop_first(), envs1, frame)
            },
            Err(e0) => (Err(e0), envs1),
        }
    }
}

/// What evaluating a program yields: the last statement's value, or
/// `Null` when the program is empty; a `Return` marker stops the
/// program and is unwrapped once.
pub open spec fn eval_program_spec(fuel: nat, ss: Seq<StmtV>, envs: Seq<FrameV>, frame: int) -> (
    Result<ObjV, ErrV>,
    Seq<FrameV>,
)
    decreases fuel, 1int, ss,
{
    if ss.len() == 0 {
        (Ok(ObjV::Null), envs)
    } else {
        let (r, envs1) = eval_stmt_spec(fuel, ss[0], envs, frame);
        match r {
            Ok(v) => match v {
                ObjV::Return(inner) => (Ok(*inner), envs1),
                _ => if ss.len() == 1 {
                    (Ok(v), envs1)
                } else {
                    eval_program_spec(fuel, ss.drop_first(), envs1, frame)
                },
            },
            Err(e0) => (Err(e0), envs1),
        }
    }
}

/// What evaluating an expression list yields: the values left to
/// right, stopping at the first error.
pub open spec fn eval_exprs_spec(fuel: nat, es: Seq<ExprV>, envs: Seq<FrameV>, frame: int) -> (
    Result<Seq<ObjV>, ErrV>,
    Seq<FrameV>,
)
    decreases fuel, 1int, es,
{
    if es.len() == 0 {
        (Ok(Seq::empty()), envs)
    } else {
        let (r, envs1) = eval_expr_spec(fuel, es[0], envs, frame);
        match r {
            Ok(v) => {
                let (rr, envs2) = eval_exprs_spec(fuel, es.drop_first(), envs1, frame);
                match rr {
                    Ok(vs) => (Ok(seq![v] + vs), envs2),
                    Err(e0) => (Err(e0), envs2),
                }
            }
            Err(e0) => (Err(e0), envs1),
        }
    }
}

/// What evaluating a hash literal's pairs yields: keys and values
/// left to right, each key required to be hashable, a repeated key
/// keeping its place and taking the later value.
pub open spec fn eval_hash_spec(
    fuel: nat,
    ps: Seq<(ExprV, ExprV)>,
    envs: Seq<FrameV>,
    frame: int,
    acc: Seq<(ObjV, ObjV)>,
) -> (Result<Seq<(ObjV, ObjV)>, ErrV>, Seq<FrameV>)
    decreases fuel, 1int, ps,
{
    if ps.len() == 0 {
        (Ok(acc), envs)
    } else {
        let (rk, envs1) = eval_expr_spec(fuel, ps[0].0, envs, frame);
        match rk {
            Ok(k) => if !hashable(k) {
                (Err(ErrV::UnusableHashKey { kind: kind_text(k) }), envs1)
            } else {
                let (rv, envs2) = eval_expr_spec(fuel, ps[0].1, envs1, frame);
                match rv {
                    Ok(v) => eval_hash_spec(
                        fuel,
                        ps.drop_first(),
                        envs2,
                        frame,
                        hash_insert(acc, k, v),
                    ),
                    Err(e0) => (Err(e0), envs2),
                }
            },
            Err(e0) => (Err(e0), envs1),
        }
    }
}

/// What calling a value on arguments yields: a builtin runs its
/// native behaviour; a function of matching arity runs its body in
/// a fresh environment extending its captured one, unwrapping one
/// `Return` marker, and consumes one unit of budget; anything else
/// fails.
pub open spec fn apply_func_spec(fuel: nat, fv: ObjV, args: Seq<ObjV>, envs: Seq<FrameV>) -> (
    Result<ObjV, ErrV>,
    Seq<FrameV>,
)
    decreases fuel, 0int, fv,
{
    match fv {
        ObjV::Builtin(b) => (builtin_call_spec(b, args), envs),
        ObjV::Func(params, body, fenv) => {
            if args.len() != params.len() {
                (
                    Err(
                        ErrV::ArityMismatch {
                            expected: params.len() as int,
                            got: args.len() as int,
                        },
                    ),
                    envs,
                )
            } else if fuel == 0 {
                (Err(ErrV::OutOfFuel), envs)
            } else {
                let envs1 = envs.push(
                    FrameV { store: bind_params(Seq::empty(), params, args), outer: Some(fenv) },
                );
                let (r, envs2) = eval_block_spec((fuel - 1) as nat, body, envs1, envs.len() as int);
                match r {
                    Ok(v) => match v {
                        ObjV::Return(inner) => (Ok(*inner), envs2),
                        _ => (Ok(v), envs2),
                    },
                    Err(e0) => (Err(e0), envs2),
                }
            }
        }
        _ => (Err(ErrV::NotAFunction { kind: kind_text(fv) }), envs),
    }
}

/// Signed 64-bit negation, wrapping at the minimum.
pub fn neg_i64_exec(x: i64) -> (r: i64)
    ensures
        r == neg_i64(x),
{
    if x == i64::MIN {
        i64::MIN
    } else {
        -x
    }
}

/// Signed 64-bit division, truncating toward zero and wrapping at
/// the minimum.
pub fn div_i64(a: i64, b: i64) -> (r: i64)
    requires
        b != 0,
    ensures
        r == div_trunc(a, b),
{
    let m: u64 = if a >= 0 {
        a as u64
    } else {
        ((-1 - a) as u64) + 1
    };
    let n: u64 = if b >= 0 {
        b as u64
    } else {
        ((-1 - b) as u64) + 1
    };
    let q: u64 = m / n;
    if (a >= 0) == (b >= 0) {
        if q > 9223372036854775807u64 {
            i64::MIN
        } else {
            q as i64
        }
    } else {
        if q == 0 {
            0
        } else {
            assert(q <= 9223372036854775808u64);
            (-((q - 1) as i64)) - 1
        }
    }
}

/// What a prefix operator yields on a value.
pub fn eval_prefix(op: TokenType, right: &Object) -> (r: Result<Object, RunError>)
    ensures
        match prefix_eval(op, right@) {
            Ok(v) => r matches Ok(o) && o@ == v,
            Err(e) => r matches Err(x) && x@ == e,
        },
{
    if op == TokenType::Bang {
        eval_bang_op(right)
    } else if op == TokenType::Minus {
        eval_minus_op(right)
    } else {
        Err(RunError::unknown_prefix(op, right.kind()))
    }
}

/// Boolean negation of a value's truthiness.
pub fn eval_bang_op(value: &Object) -> (r: Result<Object, RunError>)
    ensures
        r matches Ok(o) && o@ == ObjV::Bool(!truthy(value@)),
{
    Ok(Object::Bool(!value.is_truthy()))
}

/// Integer negation; any other kind fails.
pub fn eval_minus_op(value: &Object) -> (r: Result<Object, RunError>)
    ensures
        match prefix_eval(TokenType::Minus, value@) {
            Ok(v) => r matches Ok(o) && o@ == v,
            Err(e) => r matches Err(x) && x@ == e,
        },
{
    match value {
        Object::Integer(x) => Ok(Object::Integer(neg_i64_exec(*x))),
        _ => Err(RunError::unknown_prefix(TokenType::Minus, value.kind())),
    }
}

/// What a binary operator yields on two integers.
pub fn eval_integer_infix_op(left: i64, op: TokenType, right: i64) -> (r: Result<
    Object,
    RunError,
>)
    ensures
        match infix_eval(ObjV::Int(left), op, ObjV::Int(right)) {
            Ok(v) => r matches Ok(o) && o@ == v,
            Err(e) => r matches Err(x) && x@ == e,
        },
{
    if op == TokenType::Plus {
        Ok(Object::Integer(left.wrapping_add(right)))
    } else if op == TokenType::Minus {
        Ok(Object::Integer(left.wrapping_sub(right)))
    } else if op == TokenType::Star {
        Ok(Object::Integer(left.wrapping_mul(right)))
    } else if op == TokenType::Slash {
        if right == 0 {
            Err(RunError::DivisionByZero)
        } else {
            Ok(Object::Integer(div_i64(left, right)))
        }
    } else if op == TokenType::Lt {
        Ok(Object::Bool(left < right))
    } else if op == TokenType::Gt {
        Ok(Object::Bool(left > right))
    } else if op == TokenType::Eq {
        Ok(Object::Bool(left == right))
    } else if op == TokenType::NotEq {
        Ok(Object::Bool(left != right))
    } else {
        Err(RunError::unknown_operator("INTEGER", op, "INTEGER"))
    }
}

/// What a binary operator yields on two strings.
pub fn eval_string_infix_op(left: &String, op: TokenType, right: &String) -> (r: Result<
    Object,
    RunError,
>)
    ensures
        match infix_eval(ObjV::Str(left@), op, ObjV::Str(right@)) {
            Ok(v) => r matches Ok(o) && o@ == v,
            Err(e) => r matches Err(x) && x@ == e,
        },
{
    if op == TokenType::Plus {
        let mut s = left.clone();
        s.append(right.as_str());
        Ok(Object::String(s))
    } else if op == TokenType::Eq {
        Ok(Object::Bool(left.eq(right)))
    } else if op == TokenType::NotEq {
        Ok(Object::Bool(!left.eq(right)))
    } else {
        Err(RunError::unknown_operator("STRING", op, "STRING"))
    }
}

/// What a binary operator yields on two values.
pub fn eval_infix(left: &Object, op: TokenType, right: &Object) -> (r: Result<Object, RunError>)
    ensures
        match infix_eval(left@, op, right@) {
            Ok(v) => r matches Ok(o) && o@ == v,
            Err(e) => r matches Err(x) && x@ == e,
        },
{
    match (left, right) {
        (Object::Integer(x), Object::Integer(y)) => eval_integer_infix_op(*x, op, *y),
        (Object::String(a), Object::String(b)) => eval_string_infix_op(a, op, b),
        _ => {
            let same = same_kind_exec(left, right);
            if same {
                if op == TokenType::Eq {
                    Ok(Object::Bool(object_eq(left, right)))
                } else if op == TokenType::NotEq {
                    Ok(Object::Bool(!object_eq(left, right)))
                } else {
                    Err(RunError::unknown_operator(left.kind(), op, right.kind()))
                }
            } else {
                Err(RunError::type_mismatch(left.kind(), op, right.kind()))
            }
        }
    }
}

/// Whether two values have the same kind tag.
fn same_kind_exec(a: &Object, b: &Object) -> (r: bool)
    ensures
        r == same_kind(a@, b@),
{
    match (a, b) {
        (Object::Integer(_), Object::Integer(_)) => true,
        (Object::Bool(_), Object::Bool(_)) => true,
        (Object::String(_), Object::String(_)) => true,
        (Object::Null, Object::Null) => true,
        (Object::Return(_), Object::Return(_)) => true,
        (Object::Func(_), Object::Func(_)) => true,
        (Object::CompiledFunc(_), Object::CompiledFunc(_)) => true,
        (Object::Builtin(_), Object::Builtin(_)) => true,
        (Object::Array(_), Object::Array(_)) => true,
        (Object::Hash(_), Object::Hash(_)) => true,
        _ => false,
    }
}

/// What indexing yields on two values.
#[verifier::loop_isolation(false)]
pub fn eval_index(left: &Object, index: &Object) -> (r: Result<Object, RunError>)
    ensures
        match index_eval(left@, index@) {
            Ok(v) => r matches Ok(o) && o@ == v,
            Err(e) => r matches Err(x) && x@ == e,
        },
{
    match (left, index) {
        (Object::Array(a), Object::Integer(i)) => {
            proof {
                lemma_objs_view_len(a.elements@);
            }
            if *i >= 0 && (*i as u64) < (a.elements.len() as u64) {
                Ok(clone_obj(&a.elements[*i as usize]))
            } else {
                Ok(Object::Null)
            }
        }
        (Object::Hash(h), _) => {
            if index.is_hashable() {
                match h.get(index) {
                    Some(v) => Ok(v),
                    None => Ok(Object::Null),
                }
            } else {
                Err(RunError::unusable_hash_key(index.kind()))
            }
        }
        _ => Err(RunError::index_not_supported(left.kind())),
    }
}

/// What an identifier resolves to.
pub fn eval_ident(ident: &Ident, env: &Environment, frame: usize) -> (r: Result<
    Object,
    RunError,
>)
    ensures
        match ident_eval(ident@, env@, frame as int) {
            Ok(v) => r matches Ok(o) && o@ == v,
            Err(e) => r matches Err(x) && x@ == e,
        },
{
    match env.get(frame, ident) {
        Some(o) => Ok(o),
        None => match Builtin::from_ident_obj(ident) {
            Some(b) => Ok(b),
            None => Err(RunError::ident_not_found(ident)),
        },
    }
}

/// Evaluate an expression against an environment.
pub fn eval_expr(fuel: u64, e: &Expression, env: &mut Environment, frame: usize) -> (r: Result<
    Object,
    RunError,
>)
    ensures
        ({
            let (sr, senvs) = eval_expr_spec(fuel as nat, e@, old(env)@, frame as int);
            final(env)@ == senvs && match sr {
                Ok(v) => r matches Ok(o) && o@ == v,
                Err(er) => r matches Err(x) && x@ == er,
            }
        }),
    decreases fuel, 1int, *e,
{
    match e {
        Expression::Ident(i) => eval_ident(i, env, frame),
        Expression::Number(x) => Ok(Object::Integer(*x)),
        Expression::String(s) => Ok(Object::String(s.clone())),
        Expression::Bool(b) => Ok(Object::Bool(*b)),
        Expression::Prefix(p) => {
            let right = match eval_expr(fuel, &p.right, env, frame) {
                Ok(v) => v,
                Err(e0) => {
                    return Err(e0);
                }
            };
            eval_prefix(p.operator, &right)
        }
        Expression::Infix(i) => {
            let left = match eval_expr(fuel, &i.left, env, frame) {
                Ok(v) => v,
                Err(e0) => {
                    return Err(e0);
                }
            };
            let right = match eval_expr(fuel, &i.right, env, frame) {
                Ok(v) => v,
                Err(e0) => {
                    return Err(e0);
                }
            };
            eval_infix(&left, i.operator, &right)
        }
        Expression::If(i) => {
            let cond = match eval_expr(fuel, &i.condition, env, frame) {
                Ok(v) => v,
                Err(e0) => {
                    return Err(e0);
                }
            };
            if cond.is_truthy() {
                eval_block(fuel, &i.if_branch, env, frame)
            } else {
                match &i.else_branch {
                    Some(b) => eval_block(fuel, b, env, frame),
                    None => Ok(Object::Null),
                }
            }
        }
        Expression::Func(f) => Ok(Object::Func(FuncObj { expr: clone_func(f), env: frame })),
        Expression::Call(c) => {
            let func = match eval_expr(fuel, &c.func, env, frame) {
                Ok(v) => v,
                Err(e0) => {
                    return Err(e0);
                }
            };
            let args = match eval_exprs(fuel, &c.arguments, env, frame) {
                Ok(vs) => vs,
                Err(e0) => {
                    return Err(e0);
                }
            };
            apply_func(fuel, &func, args, env)
        }
        Expression::Array(a) => {
            let elements = match eval_exprs(fuel, &a.elements, env, frame) {
                Ok(vs) => vs,
                Err(e0) => {
                    return Err(e0);
                }
            };
            Ok(Object::Array(ArrayObj { elements }))
        }
        Expression::Index(ix) => {
            let left = match eval_expr(fuel, &ix.left, env, frame) {
                Ok(v) => v,
                Err(e0) => {
                    return Err(e0);
                }
            };
            let index = match eval_expr(fuel, &ix.index, env, frame) {
                Ok(v) => v,
                Err(e0) => {
                    return Err(e0);
                }
            };
            eval_index(&left, &index)
        }
        Expression::Hash(h) => {
            let mut acc = HashObj::new();
            match eval_hash_pairs(fuel, &h.pairs, env, frame, &mut acc) {
                Ok(()) => Ok(Object::Hash(acc)),
                Err(e0) => Err(e0),
            }
        }
    }
}

/// Evaluate a statement against an environment.
pub fn eval_stmt(fuel: u64, s: &Statement, env: &mut Environment, frame: usize) -> (r: Result<
    Object,
    RunError,
>)
    ensures
        ({
            let (sr, senvs) = eval_stmt_spec(fuel as nat, s@, old(env)@, frame as int);
            final(env)@ == senvs && match sr {
                Ok(v) => r matches Ok(o) && o@ == v,
                Err(er) => r matches Err(x) && x@ == er,
            }
        }),
    decreases fuel, 1int, *s,
{
    match s {
        Statement::Let(l) => {
            let val = match eval_expr(fuel, &l.expr, env, frame) {
                Ok(v) => v,
                Err(e0) => {
                    return Err(e0);
                }
            };
            env.set(frame, &l.ident, val);
            Ok(Object::Null)
        }
        Statement::Return(r0) => {
            let val = match eval_expr(fuel, &r0.expr, env, frame) {
                Ok(v) => v,
                Err(e0) => {
                    return Err(e0);
                }
            };
            Ok(Object::Return(Box::new(val)))
        }
        Statement::Expression(e) => eval_expr(fuel, e, env, frame),
    }
}

/// Evaluate a block: the last statement's value, a `Return` marker
/// short-circuiting unchanged.
#[verifier::loop_isolation(false)]
pub fn eval_block(fuel: u64, block: &Vec<Statement>, env: &mut Environment, frame: usize) -> (r:
    Result<Object, RunError>)
    ensures
        ({
            let (sr, senvs) = eval_block_spec(fuel as nat, stmts_view(block@), old(env)@, frame as int);
            final(env)@ == senvs && match sr {
                Ok(v) => r matches Ok(o) && o@ == v,
                Err(er) => r matches Err(x) && x@ == er,
            }
        }),
    decreases fuel, 1int, *block,
{
    proof {
        crate::ast::lemma_stmts_view_len(block@);
        assert(block@.skip(0) =~= block@);
    }
    if block.len() == 0 {
        return Ok(Object::Null);
    }
    let mut i: usize = 0;
    loop
        invariant
            i < block@.len(),
            eval_block_spec(fuel as nat, stmts_view(block@), old(env)@, frame as int)
                == eval_block_spec(
                fuel as nat,
                stmts_view(block@.skip(i as int)),
                env@,
                frame as int,
            ),
        decreases block@.len() - i,
    {
        proof {
            crate::ast::lemma_stmts_view_skip(block@, i as int);
            let cons = stmts_view(block@.skip(i as int));
            assert(cons[0] == crate::ast::stmt_view(block@[i as int]));
            assert(cons.drop_first() =~= stmts_view(block@.skip(i + 1)));
        }
        let res = match eval_stmt(fuel, &block[i], env, frame) {
            Ok(v) => v,
            Err(e0) => {
                return Err(e0);
            }
        };
        let is_ret = match &res {
            Object::Return(_) => true,
            _ => false,
        };
        if is_ret {
            return Ok(res);
        }
        if i == block.len() - 1 {
            return Ok(res);
        }
        i = i + 1;
    }
}

/// Evaluate a whole program top down; a `return` stops it and its
/// value, unwrapped, is the program's value.
#[verifier::loop_isolation(false)]
#[verifier::rlimit(100)]
pub fn eval_program(fuel: u64, prog: &Program, env: &mut Environment) -> (r: Result<
    Object,
    RunError,
>)
    ensures
        ({
            let (sr, senvs) = eval_program_spec(fuel as nat, prog@, old(env)@, 0);
            final(env)@ == senvs && match sr {
                Ok(v) => r matches Ok(o) && o@ == v,
                Err(er) => r matches Err(x) && x@ == er,
            }
        }),
{
    let ss = &prog.statements;
    proof {
        crate::ast::lemma_stmts_view_len(ss@);
        assert(ss@.skip(0) =~= ss@);
    }
    if ss.len() == 0 {
        return Ok(Object::Null);
    }
    let mut i: usize = 0;
    loop
        invariant
            i < ss@.len(),
            eval_program_spec(fuel as nat, stmts_view(ss@), old(env)@, 0) == eval_program_spec(
                fuel as nat,
                stmts_view(ss@.skip(i as int)),
                env@,
                0,
            ),
        decreases ss@.len() - i,
    {
        proof {
            crate::ast::lemma_stmts_view_skip(ss@, i as int);
            let cons = stmts_view(ss@.skip(i as int));
            assert(cons[0] == crate::ast::stmt_view(ss@[i as int]));
            assert(cons.drop_first() =~= stmts_view(ss@.skip(i + 1)));
        }
        let res = match eval_stmt(fuel, &ss[i], env, 0) {
            Ok(v) => v,
            Err(e0) => {
                return Err(e0);
            }
        };
        match res {
            Object::Return(inner) => {
                return Ok(*inner);
            }
            other => {
                if i == ss.len() - 1 {
                    return Ok(other);
                }
            }
        }
        i = i + 1;
    }
}

/// Evaluate an expression list left to right.
#[verifier::loop_isolation(false)]
pub fn eval_exprs(fuel: u64, es: &Vec<Expression>, env: &mut Environment, frame: usize) -> (r:
    Result<Vec<Object>, RunError>)
    ensures
        ({
            let (sr, senvs) = eval_exprs_spec(fuel as nat, exprs_view(es@), old(env)@, frame as int);
            final(env)@ == senvs && match sr {
                Ok(vs) => r matches Ok(os) && objs_view(os@) == vs,
                Err(er) => r matches Err(x) && x@ == er,
            }
        }),
    decreases fuel, 1int, *es,
{
    proof {
        crate::ast::lemma_exprs_view_len(es@);
        assert(es@.skip(0) =~= es@);
    }
    let mut out: Vec<Object> = Vec::new();
    let mut i: usize = 0;
    proof {
        assert(objs_view(out@) =~= Seq::<ObjV>::empty());
    }
    while i < es.len()
        invariant
            i <= es@.len(),
            ({
                let (sr, senvs) = eval_exprs_spec(
                    fuel as nat,
                    exprs_view(es@),
                    old(env)@,
                    frame as int,
                );
                let (tr, tenvs) = eval_exprs_spec(
                    fuel as nat,
                    exprs_view(es@.skip(i as int)),
                    env@,
                    frame as int,
                );
                senvs == tenvs && match (sr, tr) {
                    (Ok(vs), Ok(ts)) => vs == objs_view(out@) + ts,
                    (Err(a), Err(b)) => a == b,
                    _ => false,
                }
            }),
        decreases es@.len() - i,
    {
        proof {
            crate::ast::lemma_exprs_view_skip(es@, i as int);
            let cons = exprs_view(es@.skip(i as int));
            assert(cons[0] == crate::ast::expr_view(es@[i as int]));
            assert(cons.drop_first() =~= exprs_view(es@.skip(i + 1)));
        }
        let v = match eval_expr(fuel, &es[i], env, frame) {
            Ok(v) => v,
            Err(e0) => {
                return Err(e0);
            }
        };
        let ghost pre = out@;
        out.push(v);
        i = i + 1;
        proof {
            crate::object::lemma_objs_view_push(pre, out@[pre.len() as int]);
            let (tr, _) = eval_exprs_spec(
                fuel as nat,
                exprs_view(es@.skip(i - 1)),
                env@,
                frame as int,
            );
            assert(objs_view(out@) =~= objs_view(pre).push(obj_view(out@[pre.len() as int])));
        }
    }
    proof {
        assert(exprs_view(es@.skip(es@.len() as int)) =~= Seq::<ExprV>::empty());
        let (sr, senvs) = eval_exprs_spec(fuel as nat, exprs_view(es@), old(env)@, frame as int);
        if sr is Ok {
            assert(sr->Ok_0 =~= objs_view(out@) + Seq::<ObjV>::empty());
            assert(objs_view(out@) + Seq::<ObjV>::empty() =~= objs_view(out@));
        }
    }
    Ok(out)
}

/// Evaluate a hash literal's pairs left to right into a hash.
#[verifier::loop_isolation(false)]
fn eval_hash_pairs(
    fuel: u64,
    ps: &Vec<(Expression, Expression)>,
    env: &mut Environment,
    frame: usize,
    acc: &mut HashObj,
) -> (r: Result<(), RunError>)
    ensures
        ({
            let (sr, senvs) = eval_hash_spec(
                fuel as nat,
                pairs_view(ps@),
                old(env)@,
                frame as int,
                old(acc)@,
            );
            final(env)@ == senvs && match sr {
                Ok(pairs) => r is Ok && final(acc)@ == pairs,
                Err(er) => r matches Err(x) && x@ == er,
            }
        }),
    decreases fuel, 1int, *ps,
{
    proof {
        crate::ast::lemma_pairs_view_len(ps@);
        assert(ps@.skip(0) =~= ps@);
    }
    let mut i: usize = 0;
    while i < ps.len()
        invariant
            i <= ps@.len(),
            ({
                let (sr, senvs) = eval_hash_spec(
                    fuel as nat,
                    pairs_view(ps@),
                    old(env)@,
                    frame as int,
                    old(acc)@,
                );
                let (tr, tenvs) = eval_hash_spec(
                    fuel as nat,
                    pairs_view(ps@.skip(i as int)),
                    env@,
                    frame as int,
                    acc@,
                );
                senvs == tenvs && match (sr, tr) {
                    (Ok(vs), Ok(ts)) => vs == ts,
                    (Err(a), Err(b)) => a == b,
                    _ => false,
                }
            }),
        decreases ps@.len() - i,
    {
        proof {
            crate::ast::lemma_pairs_view_skip(ps@, i as int);
            let cons = pairs_view(ps@.skip(i as int));
            assert(cons[0] == (
                crate::ast::expr_view(ps@[i as int].0),
                crate::ast::expr_view(ps@[i as int].1),
            ));
            assert(cons.drop_first() =~= pairs_view(ps@.skip(i + 1)));
        }
        let k = match eval_expr(fuel, &ps[i].0, env, frame) {
            Ok(v) => v,
            Err(e0) => {
                return Err(e0);
            }
        };
        if !k.is_hashable() {
            return Err(RunError::unusable_hash_key(k.kind()));
        }
        let v = match eval_expr(fuel, &ps[i].1, env, frame) {
            Ok(v) => v,
            Err(e0) => {
                return Err(e0);
            }
        };
        acc.insert(k, v);
        i = i + 1;
    }
    proof {
        assert(pairs_view(ps@.skip(ps@.len() as int)) =~= Seq::<(ExprV, ExprV)>::empty());
    }
    Ok(())
}

/// Call a value on arguments: a builtin runs natively; a function of
/// matching arity runs its body in a fresh environment extending its
/// captured one, unwrapping one `Return` marker.
pub fn apply_func(fuel: u64, func: &Object, args: Vec<Object>, env: &mut Environment) -> (r:
    Result<Object, RunError>)
    ensures
        ({
            let (sr, senvs) = apply_func_spec(fuel as nat, func@, objs_view(args@), old(env)@);
            final(env)@ == senvs && match sr {
                Ok(v) => r matches Ok(o) && o@ == v,
                Err(er) => r matches Err(x) && x@ == er,
            }
        }),
    decreases fuel, 0int, *func,
{
    proof {
        lemma_objs_view_len(args@);
    }
    match func {
        Object::Builtin(b) => b.call(&args),
        Object::Func(f) => {
            if args.len() != f.expr.params.len() {
                return Err(RunError::arity_mismatch(f.expr.params.len(), args.len()));
            }
            if fuel == 0 {
                return Err(RunError::OutOfFuel);
            }
            let frame = env.new_enclosed(f.env);
            let ghost pushed = env@;
            proof {
                lemma_objs_view_len(args@);
            }
            bind_args(&f.expr.params, args, env, frame);
            proof {
                lemma_bind_envs(
                    pushed,
                    frame as int,
                    params_view(f.expr.params@),
                    objs_view(args@),
                );
                assert(pushed.update(
                    frame as int,
                    FrameV {
                        store: bind_params(
                            Seq::empty(),
                            params_view(f.expr.params@),
                            objs_view(args@),
                        ),
                        outer: Some(f.env as int),
                    },
                ) =~= old(env)@.push(
                    FrameV {
                        store: bind_params(
                            Seq::empty(),
                            params_view(f.expr.params@),
                            objs_view(args@),
                        ),
                        outer: Some(f.env as int),
                    },
                ));
            }
            let res = match eval_block(fuel - 1, &f.expr.body, env, frame) {
                Ok(v) => v,
                Err(e0) => {
                    return Err(e0);
                }
            };
            match res {
                Object::Return(inner) => Ok(*inner),
                other => Ok(other),
            }
        }
        _ => Err(RunError::not_a_function(func.kind())),
    }
}

/// Bind each parameter to its argument in a call frame, left to
/// right.
#[verifier::loop_isolation(false)]
fn bind_args(params: &Vec<Ident>, args: Vec<Object>, env: &mut Environment, frame: usize)
    requires
        params@.len() == args@.len(),
    ensures
        final(env)@ == bind_envs_spec(old(env)@, frame as int, params_view(params@), objs_view(args@)),
{
    proof {
        lemma_objs_view_len(args@);
        assert(params_view(params@).skip(0) =~= params_view(params@));
        assert(objs_view(args@).skip(0) =~= objs_view(args@));
    }
    let mut i: usize = 0;
    while i < params.len()
        invariant
            i <= params@.len(),
            params@.len() == args@.len(),
            bind_envs_spec(
                old(env)@,
                frame as int,
                params_view(params@),
                objs_view(args@),
            ) == bind_envs_spec(
                env@,
                frame as int,
                params_view(params@).skip(i as int),
                objs_view(args@).skip(i as int),
            ),
        decreases params@.len() - i,
    {
        proof {
            crate::object::lemma_objs_view_skip(args@, i as int);
            let pv = params_view(params@);
            let av = objs_view(args@);
            assert(pv.skip(i as int)[0] == pv[i as int]);
            assert(pv.skip(i as int).drop_first() =~= pv.skip(i + 1));
            assert(av.skip(i as int)[0] == av[i as int]);
            assert(av.skip(i as int).drop_first() =~= av.skip(i + 1));
        }
        env.set(frame, &params[i], clone_obj(&args[i]));
        i = i + 1;
    }
    proof {
        assert(params_view(params@).skip(params@.len() as int) =~= Seq::<Seq<char>>::empty());
    }
}

/// Binding parameters one by one into a call frame leaves every
/// other environment alone and folds the bindings into that frame's
/// store.
proof fn lemma_bind_envs(envs: Seq<FrameV>, k: int, params: Seq<Seq<char>>, args: Seq<ObjV>)
    requires
        0 <= k < envs.len(),
    ensures
        bind_envs_spec(envs, k, params, args) == envs.update(
            k,
            FrameV { store: bind_params(envs[k].store, params, args), outer: envs[k].outer },
        ),
    decreases params,
{
    if params.len() == 0 || args.len() == 0 {
        assert(FrameV {
            store: bind_params(envs[k].store, params, args),
            outer: envs[k].outer,
        } == envs[k]);
        assert(envs.update(k, envs[k]) =~= envs);
    } else {
        let envs1 = env_set(envs, k, params[0], args[0]);
        assert(envs1[k].store == store_insert(envs[k].store, params[0], args[0]));
        assert(envs1[k].outer == envs[k].outer);
        lemma_bind_envs(envs1, k, params.drop_first(), args.drop_first());
        assert(envs1.update(
            k,
            FrameV {
                store: bind_params(envs1[k].store, params.drop_first(), args.drop_first()),
                outer: envs1[k].outer,
            },
        ) =~= envs.update(
            k,
            FrameV { store: bind_params(envs[k].store, params, args), outer: envs[k].outer },
        ));
    }
}

/// The arena after binding each parameter to its argument in a call
/// frame, left to right.
pub open spec fn bind_envs_spec(
    envs: Seq<FrameV>,
    frame: int,
    params: Seq<Seq<char>>,
    args: Seq<ObjV>,
) -> Seq<FrameV>
    decreases params,
{
    if params.len() == 0 || args.len() == 0 {
        envs
    } else {
        bind_envs_spec(
            env_set(envs, frame, params[0], args[0]),
            frame,
            params.drop_first(),
            args.drop_first(),
        )
    }
}

} // verus!

verus! {

/// Pushing onto an array grows its length by exactly one: for any
/// array `A` and value `x`, `len(push(A, x))` is `len(A) + 1`.
pub proof fn lemma_len_push(a: Seq<ObjV>, x: ObjV)
    requires
        a.len() + 1 <= i64::MAX,
    ensures
        builtin_call_spec(Builtin::Push, seq![ObjV::Arr(a), x]) matches Ok(arr)
            && builtin_call_spec(Builtin::Len, seq![arr]) == Ok::<ObjV, ErrV>(
            ObjV::Int((a.len() + 1) as i64),
        ),
{
    let args = seq![ObjV::Arr(a), x];
    assert(args.len() == 2 && args[0] == ObjV::Arr(a) && args[1] == x);
    let arr = ObjV::Arr(a.push(x));
    assert(builtin_call_spec(Builtin::Push, args) == Ok::<ObjV, ErrV>(arr));
    let args1 = seq![arr];
    assert(args1.len() == 1 && args1[0] == arr);
}

/// `first` of a non-empty array is its first element, and `rest`
/// drops exactly that element: `first([x, …]) == x` and
/// `rest([x, y, z]) == [y, z]`.
pub proof fn lemma_first_rest(a: Seq<ObjV>)
    requires
        a.len() > 0,
    ensures
        builtin_call_spec(Builtin::First, seq![ObjV::Arr(a)]) == Ok::<ObjV, ErrV>(a[0]),
        builtin_call_spec(Builtin::Rest, seq![ObjV::Arr(a)]) == Ok::<ObjV, ErrV>(
            ObjV::Arr(a.drop_first()),
        ),
{
    let args = seq![ObjV::Arr(a)];
    assert(args.len() == 1 && args[0] == ObjV::Arr(a));
}

/// Indexing never raises a runtime error on a valid container: an
/// array indexed out of bounds (negative included) yields `Null`,
/// and a hash indexed by a hashable key it does not hold yields
/// `Null`.
pub proof fn lemma_index_out_of_bounds(a: Seq<ObjV>, i: i64, ps: Seq<(ObjV, ObjV)>, k: ObjV)
    ensures
        !(0 <= i < a.len()) ==> index_eval(ObjV::Arr(a), ObjV::Int(i)) == Ok::<ObjV, ErrV>(
            ObjV::Null,
        ),
        hashable(k) && hash_lookup(ps, k) is None ==> index_eval(ObjV::Hash(ps), k) == Ok::<
            ObjV,
            ErrV,
        >(ObjV::Null),
{
}

/// What an `if` expression yields, once its condition has a value:
/// with the condition truthy, the then-block's last value; with it
/// falsy, the else-block's last value when there is an else-block,
/// and `Null` when there is none.
pub proof fn lemma_if_semantics(
    fuel: nat,
    cond: ExprV,
    thn: Seq<StmtV>,
    els: Option<Seq<StmtV>>,
    envs: Seq<FrameV>,
    frame: int,
)
    ensures
        ({
            let (rc, envs1) = eval_expr_spec(fuel, cond, envs, frame);
            let r = eval_expr_spec(fuel, ExprV::If(Box::new(cond), thn, els), envs, frame);
            rc matches Ok(c) ==> if truthy(c) {
                r == eval_block_spec(fuel, thn, envs1, frame)
            } else {
                match els {
                    Some(b) => r == eval_block_spec(fuel, b, envs1, frame),
                    None => r == (Ok::<ObjV, ErrV>(ObjV::Null), envs1),
                }
            }
        }),
{
}

} // verus!
