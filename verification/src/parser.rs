//! The Pratt parser: precedence climbing over the token stream with
//! one token of lookahead. The whole grammar is stated as spec
//! functions over token positions in the source text, with an
//! explicit recursion budget; the executable parser is proved to
//! return exactly what they say. The budget the public entry point
//! picks exceeds any nesting the input's own length allows.

use vstd::prelude::*;

use crate::ast::{
    Program, Statement, Expression, LetStmt, ReturnStmt, PrefixExpr, InfixExpr, IfExpr, FuncExpr,
    CallExpr, ArrayExpr, IndexExpr, HashExpr, ExprV, StmtV, stmts_view, exprs_view, pairs_view,
    params_view, stmt_view, expr_view, lemma_stmts_view_len, lemma_exprs_view_len,
    lemma_pairs_view_len,
};
use crate::lexer::{Lexer, next_token_at};
use crate::token::{
    Token, TokenType, TokenLiteral, TokenV, LitV, Precedence, prec_rank, token_precedence_spec,
    token_precedence,
};

verus! {

/// A parse failure: an unexpected token where a particular kind was
/// expected, a token no prefix parselet handles, a token whose
/// literal does not fit its kind, or an input nested beyond the
/// parser's budget.
#[derive(Debug)]
pub enum ParseErrorKind {
    UnexpectedToken(UnexpectedErr),
    UnknownPrefixExpr(TokenType),
    InvalidParseFn,
    TooDeep,
}

/// The expected and found kinds of an unexpected token.
#[derive(Debug)]
pub struct UnexpectedErr {
    pub expected: TokenType,
    pub found: TokenType,
}

impl UnexpectedErr {
    pub fn new(expected: TokenType, found: TokenType) -> (r: UnexpectedErr)
        ensures
            r.expected == expected,
            r.found == found,
    {
        UnexpectedErr { expected, found }
    }
}

/// The mathematical mirror of a parse failure.
pub enum PErrV {
    Unexpected(TokenType, TokenType),
    UnknownPrefix(TokenType),
    Invalid,
    TooDeep,
}

impl View for ParseErrorKind {
    type V = PErrV;

    open spec fn view(&self) -> PErrV {
        match *self {
            ParseErrorKind::UnexpectedToken(ref u) => PErrV::Unexpected(u.expected, u.found),
            ParseErrorKind::UnknownPrefixExpr(t) => PErrV::UnknownPrefix(t),
            ParseErrorKind::InvalidParseFn => PErrV::Invalid,
            ParseErrorKind::TooDeep => PErrV::TooDeep,
        }
    }
}

/// The position of the start of the `n`-th token of the source.
pub open spec fn nth_pos(s: Seq<char>, n: nat) -> nat
    decreases n,
{
    if n == 0 {
        0
    } else {
        next_token_at(s, nth_pos(s, (n - 1) as nat)).1
    }
}

/// The `n`-th token of the source; past the end this is `eof`
/// indefinitely.
pub open spec fn tok_at(s: Seq<char>, n: nat) -> TokenV {
    next_token_at(s, nth_pos(s, n)).0
}

/// A parser state: the source text and the index of the current
/// token.
pub struct PState {
    pub src: Seq<char>,
    pub n: nat,
}

/// The current token.
pub open spec fn cur_of(st: PState) -> TokenV {
    tok_at(st.src, st.n)
}

/// The token after the current one.
pub open spec fn peek_of(st: PState) -> TokenV {
    tok_at(st.src, (st.n + 1) as nat)
}

/// The state one token further on.
pub open spec fn adv(st: PState) -> PState {
    PState { src: st.src, n: (st.n + 1) as nat }
}

/// Expect the next token to have a kind and step onto it; leaves the
/// state alone on failure.
pub open spec fn expect_peek_spec(st: PState, ty: TokenType) -> (Result<(), PErrV>, PState) {
    if peek_of(st).ty == ty {
        (Ok(()), adv(st))
    } else {
        (Err(PErrV::Unexpected(ty, peek_of(st).ty)), st)
    }
}

/// Parse an expression at a precedence: a prefix parselet for the
/// current token, then infix parselets while the next token binds
/// tighter.
pub open spec fn parse_expr_spec(fuel: nat, st: PState, prec: Precedence) -> (
    Result<ExprV, PErrV>,
    PState,
)
    decreases fuel, 0int,
{
    if fuel == 0 {
        (Err(PErrV::TooDeep), st)
    } else {
        let (r, st1) = prefix_spec((fuel - 1) as nat, st);
        match r {
            Ok(left) => parse_expr_more_spec((fuel - 1) as nat, left, st1, prec),
            Err(e) => (Err(e), st1),
        }
    }
}

/// Keep extending a parsed expression with infix parselets while the
/// next token binds tighter than the surrounding precedence.
pub open spec fn parse_expr_more_spec(fuel: nat, left: ExprV, st: PState, prec: Precedence) -> (
    Result<ExprV, PErrV>,
    PState,
)
    decreases fuel, 1int,
{
    if peek_of(st).ty == TokenType::Semicolon || prec_rank(prec) >= prec_rank(
        token_precedence_spec(peek_of(st).ty),
    ) {
        (Ok(left), st)
    } else if fuel == 0 {
        (Err(PErrV::TooDeep), st)
    } else {
        let pt = peek_of(st).ty;
        if pt == TokenType::Plus || pt == TokenType::Minus || pt == TokenType::Slash || pt
            == TokenType::Star || pt == TokenType::Eq || pt == TokenType::NotEq || pt
            == TokenType::Lt || pt == TokenType::Gt {
            let (r, st1) = parse_infix_spec((fuel - 1) as nat, left, adv(st));
            match r {
                Ok(e) => parse_expr_more_spec((fuel - 1) as nat, e, st1, prec),
                Err(e0) => (Err(e0), st1),
            }
        } else if pt == TokenType::LParen {
            let (r, st1) = parse_call_spec((fuel - 1) as nat, left, adv(st));
            match r {
                Ok(e) => parse_expr_more_spec((fuel - 1) as nat, e, st1, prec),
                Err(e0) => (Err(e0), st1),
            }
        } else if pt == TokenType::LBracket {
            let (r, st1) = parse_index_spec((fuel - 1) as nat, left, adv(st));
            match r {
                Ok(e) => parse_expr_more_spec((fuel - 1) as nat, e, st1, prec),
                Err(e0) => (Err(e0), st1),
            }
        } else {
            (Ok(left), st)
        }
    }
}

/// The prefix parselet for the current token.
pub open spec fn prefix_spec(fuel: nat, st: PState) -> (Result<ExprV, PErrV>, PState)
    decreases fuel, 0int,
{
    if fuel == 0 {
        (Err(PErrV::TooDeep), st)
    } else {
        let c = cur_of(st);
        if c.ty == TokenType::Ident {
            match c.lit {
                LitV::Ident(name) => (Ok(ExprV::Ident(name)), st),
                _ => (Err(PErrV::Invalid), st),
            }
        } else if c.ty == TokenType::Number {
            match c.lit {
                LitV::Num(x) => (Ok(ExprV::Number(x)), st),
                _ => (Err(PErrV::Invalid), st),
            }
        } else if c.ty == TokenType::String {
            match c.lit {
                LitV::Str(s) => (Ok(ExprV::Str(s)), st),
                _ => (Err(PErrV::Invalid), st),
            }
        } else if c.ty == TokenType::True {
            (Ok(ExprV::Bool(true)), st)
        } else if c.ty == TokenType::False {
            (Ok(ExprV::Bool(false)), st)
        } else if c.ty == TokenType::Bang || c.ty == TokenType::Minus {
            let (r, st1) = parse_expr_spec((fuel - 1) as nat, adv(st), Precedence::Prefix);
            match r {
                Ok(right) => (Ok(ExprV::Prefix(c.ty, Box::new(right))), st1),
                Err(e0) => (Err(e0), st1),
            }
        } else if c.ty == TokenType::LParen {
            let (r, st1) = parse_expr_spec((fuel - 1) as nat, adv(st), Precedence::Lowest);
            match r {
                Ok(e) => {
                    let (r2, st2) = expect_peek_spec(st1, TokenType::RParen);
                    match r2 {
                        Ok(_) => (Ok(e), st2),
                        Err(e0) => (Err(e0), st2),
                    }
                }
                Err(e0) => (Err(e0), st1),
            }
        } else if c.ty == TokenType::LBracket {
            let (r, st1) = parse_expr_list_spec((fuel - 1) as nat, adv(st), TokenType::RBracket);
            match r {
                Ok(es) => (Ok(ExprV::Array(es)), st1),
                Err(e0) => (Err(e0), st1),
            }
        } else if c.ty == TokenType::If {
            parse_if_spec((fuel - 1) as nat, st)
        } else if c.ty == TokenType::Fn {
            parse_func_spec((fuel - 1) as nat, st)
        } else if c.ty == TokenType::LBrace {
            parse_hash_spec((fuel - 1) as nat, st)
        } else {
            (Err(PErrV::UnknownPrefix(c.ty)), st)
        }
    }
}

/// The infix parselet for a binary operator at the current token.
pub open spec fn parse_infix_spec(fuel: nat, left: ExprV, st: PState) -> (
    Result<ExprV, PErrV>,
    PState,
)
    decreases fuel, 0int,
{
    if fuel == 0 {
        (Err(PErrV::TooDeep), st)
    } else {
        let op = cur_of(st).ty;
        let prec = token_precedence_spec(op);
        let (r, st1) = parse_expr_spec((fuel - 1) as nat, adv(st), prec);
        match r {
            Ok(right) => (Ok(ExprV::Infix(Box::new(left), op, Box::new(right))), st1),
            Err(e0) => (Err(e0), st1),
        }
    }
}

/// The call parselet: the argument list after an opening parenthesis
/// at the current token.
pub open spec fn parse_call_spec(fuel: nat, func: ExprV, st: PState) -> (
    Result<ExprV, PErrV>,
    PState,
)
    decreases fuel, 0int,
{
    if fuel == 0 {
        (Err(PErrV::TooDeep), st)
    } else {
        let (r, st1) = parse_expr_list_spec((fuel - 1) as nat, adv(st), TokenType::RParen);
        match r {
            Ok(es) => (Ok(ExprV::Call(Box::new(func), es)), st1),
            Err(e0) => (Err(e0), st1),
        }
    }
}

/// The index parselet: the index expression after an opening bracket
/// at the current token.
pub open spec fn parse_index_spec(fuel: nat, left: ExprV, st: PState) -> (
    Result<ExprV, PErrV>,
    PState,
)
    decreases fuel, 0int,
{
    if fuel == 0 {
        (Err(PErrV::TooDeep), st)
    } else {
        let (r, st1) = parse_expr_spec((fuel - 1) as nat, adv(st), Precedence::Lowest);
        match r {
            Ok(ix) => {
                let (r2, st2) = expect_peek_spec(st1, TokenType::RBracket);
                match r2 {
                    Ok(_) => (Ok(ExprV::Index(Box::new(left), Box::new(ix))), st2),
                    Err(e0) => (Err(e0), st2),
                }
            }
            Err(e0) => (Err(e0), st1),
        }
    }
}

/// A comma-separated expression list, the current token standing on
/// its first expression or already on the closing token; the closing
/// token is consumed.
pub open spec fn parse_expr_list_spec(fuel: nat, st: PState, end: TokenType) -> (
    Result<Seq<ExprV>, PErrV>,
    PState,
)
    decreases fuel, 0int,
{
    if fuel == 0 {
        (Err(PErrV::TooDeep), st)
    } else if cur_of(st).ty == end {
        (Ok(Seq::empty()), st)
    } else {
        let (r, st1) = parse_expr_spec((fuel - 1) as nat, st, Precedence::Lowest);
        match r {
            Ok(e) => parse_expr_list_more_spec((fuel - 1) as nat, seq![e], st1, end),
            Err(e0) => (Err(e0), st1),
        }
    }
}

/// The remainder of a comma-separated expression list.
pub open spec fn parse_expr_list_more_spec(
    fuel: nat,
    acc: Seq<ExprV>,
    st: PState,
    end: TokenType,
) -> (Result<Seq<ExprV>, PErrV>, PState)
    decreases fuel, 1int,
{
    if fuel == 0 {
        (Err(PErrV::TooDeep), st)
    } else if peek_of(st).ty == TokenType::Comma {
        let (r, st1) = parse_expr_spec((fuel - 1) as nat, adv(adv(st)), Precedence::Lowest);
        match r {
            Ok(e) => parse_expr_list_more_spec((fuel - 1) as nat, acc.push(e), st1, end),
            Err(e0) => (Err(e0), st1),
        }
    } else {
        let (r, st1) = expect_peek_spec(st, end);
        match r {
            Ok(_) => (Ok(acc), st1),
            Err(e0) => (Err(e0), st1),
        }
    }
}

/// The `if` parselet, the current token standing on `if`.
pub open spec fn parse_if_spec(fuel: nat, st: PState) -> (Result<ExprV, PErrV>, PState)
    decreases fuel, 0int,
{
    if fuel == 0 {
        (Err(PErrV::TooDeep), st)
    } else {
        let (r0, st0) = expect_peek_spec(st, TokenType::LParen);
        match r0 {
            Ok(_) => {
                let (rc, st1) = parse_expr_spec((fuel - 1) as nat, adv(st0), Precedence::Lowest);
                match rc {
                    Ok(cond) => {
                        let (r1, st2) = expect_peek_spec(st1, TokenType::RParen);
                        match r1 {
                            Ok(_) => {
                                let (r2, st3) = expect_peek_spec(st2, TokenType::LBrace);
                                match r2 {
                                    Ok(_) => {
                                        let (rb, st4) = parse_block_spec(
                                            (fuel - 1) as nat,
                                            adv(st3),
                                        );
                                        match rb {
                                            Ok(thn) => {
                                                if peek_of(st4).ty == TokenType::Else {
                                                    let (r3, st5) = expect_peek_spec(
                                                        adv(st4),
                                                        TokenType::LBrace,
                                                    );
                                                    match r3 {
                                                        Ok(_) => {
                                                            let (re, st6) = parse_block_spec(
                                                                (fuel - 1) as nat,
                                                                adv(st5),
                                                            );
                                                            match re {
                                                                Ok(els) => (
                                                                    Ok(
                                                                        ExprV::If(
                                                                            Box::new(cond),
                                                                            thn,
                                                                            Some(els),
                                                                        ),
                                                                    ),
                                                                    st6,
                                                                ),
                                                                Err(e0) => (Err(e0), st6),
                                                            }
                                                        }
                                                        Err(e0) => (Err(e0), st5),
                                                    }
                                                } else {
                                                    (
                                                        Ok(ExprV::If(Box::new(cond), thn, None)),
                                                        st4,
                                                    )
                                                }
                                            }
                                            Err(e0) => (Err(e0), st4),
                                        }
                                    }
                                    Err(e0) => (Err(e0), st3),
                                }
                            }
                            Err(e0) => (Err(e0), st2),
                        }
                    }
                    Err(e0) => (Err(e0), st1),
                }
            }
            Err(e0) => (Err(e0), st0),
        }
    }
}

/// The function-literal parselet, the current token standing on
/// `fn`.
pub open spec fn parse_func_spec(fuel: nat, st: PState) -> (Result<ExprV, PErrV>, PState)
    decreases fuel, 0int,
{
    if fuel == 0 {
        (Err(PErrV::TooDeep), st)
    } else {
        let (r0, st0) = expect_peek_spec(st, TokenType::LParen);
        match r0 {
            Ok(_) => {
                let (rp, st1) = parse_params_spec((fuel - 1) as nat, adv(st0));
                match rp {
                    Ok(params) => {
                        let (r1, st2) = expect_peek_spec(st1, TokenType::LBrace);
                        match r1 {
                            Ok(_) => {
                                let (rb, st3) = parse_block_spec((fuel - 1) as nat, adv(st2));
                                match rb {
                                    Ok(body) => (Ok(ExprV::Func(params, body)), st3),
                                    Err(e0) => (Err(e0), st3),
                                }
                            }
                            Err(e0) => (Err(e0), st2),
                        }
                    }
                    Err(e0) => (Err(e0), st1),
                }
            }
            Err(e0) => (Err(e0), st0),
        }
    }
}

/// A possibly-empty comma-separated parameter list, the current
/// token standing on the first name or on the closing parenthesis;
/// the closing parenthesis is consumed for a non-empty list and left
/// as the current token for an empty one.
pub open spec fn parse_params_spec(fuel: nat, st: PState) -> (Result<Seq<Seq<char>>, PErrV>, PState)
    decreases fuel, 0int,
{
    if fuel == 0 {
        (Err(PErrV::TooDeep), st)
    } else if cur_of(st).ty == TokenType::RParen {
        (Ok(Seq::empty()), st)
    } else {
        parse_params_more_spec((fuel - 1) as nat, Seq::empty(), st)
    }
}

/// The remainder of a parameter list.
pub open spec fn parse_params_more_spec(fuel: nat, acc: Seq<Seq<char>>, st: PState) -> (
    Result<Seq<Seq<char>>, PErrV>,
    PState,
)
    decreases fuel, 1int,
{
    if fuel == 0 {
        (Err(PErrV::TooDeep), st)
    } else if peek_of(st).ty == TokenType::Comma {
        match cur_of(st).lit {
            LitV::Ident(name) => parse_params_more_spec(
                (fuel - 1) as nat,
                acc.push(name),
                adv(adv(st)),
            ),
            _ => (
                Err(PErrV::Unexpected(TokenType::Ident, cur_of(st).ty)),
                st,
            ),
        }
    } else {
        match cur_of(st).lit {
            LitV::Ident(name) => {
                let (r, st1) = expect_peek_spec(st, TokenType::RParen);
                match r {
                    Ok(_) => (Ok(acc.push(name)), st1),
                    Err(e0) => (Err(e0), st1),
                }
            }
            _ => (
                Err(PErrV::Unexpected(TokenType::Ident, cur_of(st).ty)),
                st,
            ),
        }
    }
}

/// A statement block, the current token standing on its first
/// statement; it ends at a closing brace or at the end of the input,
/// which becomes the current token.
pub open spec fn parse_block_spec(fuel: nat, st: PState) -> (Result<Seq<StmtV>, PErrV>, PState)
    decreases fuel, 1int,
{
    if cur_of(st).ty == TokenType::RBrace || cur_of(st).ty == TokenType::Eof {
        (Ok(Seq::empty()), st)
    } else if fuel == 0 {
        (Err(PErrV::TooDeep), st)
    } else {
        let (r, st1) = parse_stmt_spec((fuel - 1) as nat, st);
        match r {
            Ok(s) => {
                let (rr, st2) = parse_block_spec((fuel - 1) as nat, adv(st1));
                match rr {
                    Ok(ss) => (Ok(seq![s] + ss), st2),
                    Err(e0) => (Err(e0), st2),
                }
            }
            Err(e0) => (Err(e0), st1),
        }
    }
}

/// The hash-literal parselet, the current token standing on the
/// opening brace.
pub open spec fn parse_hash_spec(fuel: nat, st: PState) -> (Result<ExprV, PErrV>, PState)
    decreases fuel, 0int,
{
    if fuel == 0 {
        (Err(PErrV::TooDeep), st)
    } else if cur_of(adv(st)).ty == TokenType::RBrace {
        (Ok(ExprV::Hash(Seq::empty())), adv(st))
    } else {
        let (r, st1) = parse_hash_pair_spec((fuel - 1) as nat, adv(st));
        match r {
            Ok(pair) => parse_hash_more_spec((fuel - 1) as nat, seq![pair], st1),
            Err(e0) => (Err(e0), st1),
        }
    }
}

/// One `key : value` pair, the current token standing on the key.
pub open spec fn parse_hash_pair_spec(fuel: nat, st: PState) -> (
    Result<(ExprV, ExprV), PErrV>,
    PState,
)
    decreases fuel, 0int,
{
    if fuel == 0 {
        (Err(PErrV::TooDeep), st)
    } else {
        let (rk, st1) = parse_expr_spec((fuel - 1) as nat, st, Precedence::Lowest);
        match rk {
            Ok(k) => {
                let (r0, st2) = expect_peek_spec(st1, TokenType::Colon);
                match r0 {
                    Ok(_) => {
                        let (rv, st3) = parse_expr_spec(
                            (fuel - 1) as nat,
                            adv(st2),
                            Precedence::Lowest,
                        );
                        match rv {
                            Ok(v) => (Ok((k, v)), st3),
                            Err(e0) => (Err(e0), st3),
                        }
                    }
                    Err(e0) => (Err(e0), st2),
                }
            }
            Err(e0) => (Err(e0), st1),
        }
    }
}

/// The remainder of a hash literal after its first pair; the closing
/// brace is consumed.
pub open spec fn parse_hash_more_spec(fuel: nat, acc: Seq<(ExprV, ExprV)>, st: PState) -> (
    Result<ExprV, PErrV>,
    PState,
)
    decreases fuel, 1int,
{
    if fuel == 0 {
        (Err(PErrV::TooDeep), st)
    } else if peek_of(st).ty == TokenType::Comma {
        let (r, st1) = parse_hash_pair_spec((fuel - 1) as nat, adv(adv(st)));
        match r {
            Ok(pair) => parse_hash_more_spec((fuel - 1) as nat, acc.push(pair), st1),
            Err(e0) => (Err(e0), st1),
        }
    } else {
        let (r, st1) = expect_peek_spec(st, TokenType::RBrace);
        match r {
            Ok(_) => (Ok(ExprV::Hash(acc)), st1),
            Err(e0) => (Err(e0), st1),
        }
    }
}

/// Parse one statement at the current token.
#[verifier::opaque]
pub open spec fn parse_stmt_spec(fuel: nat, st: PState) -> (Result<StmtV, PErrV>, PState)
    decreases fuel, 2int,
{
    if fuel == 0 {
        (Err(PErrV::TooDeep), st)
    } else if cur_of(st).ty == TokenType::Let {
        parse_let_spec((fuel - 1) as nat, st)
    } else if cur_of(st).ty == TokenType::Return {
        parse_return_spec((fuel - 1) as nat, st)
    } else {
        parse_expr_stmt_spec((fuel - 1) as nat, st)
    }
}

/// A `let` statement: `let <ident> = <expr>`, an optional trailing
/// semicolon consumed.
pub open spec fn parse_let_spec(fuel: nat, st: PState) -> (Result<StmtV, PErrV>, PState)
    decreases fuel, 0int,
{
    if fuel == 0 {
        (Err(PErrV::TooDeep), st)
    } else {
        let (r0, st0) = expect_peek_spec(st, TokenType::Ident);
        match r0 {
            Ok(_) => {
                match cur_of(st0).lit {
                    LitV::Ident(name) => {
                        let (r1, st1) = expect_peek_spec(st0, TokenType::Assign);
                        match r1 {
                            Ok(_) => {
                                let (re, st2) = parse_expr_spec(
                                    (fuel - 1) as nat,
                                    adv(st1),
                                    Precedence::Lowest,
                                );
                                match re {
                                    Ok(e) => {
                                        let st3 = if peek_of(st2).ty == TokenType::Semicolon {
                                            adv(st2)
                                        } else {
                                            st2
                                        };
                                        (Ok(StmtV::Let(name, e)), st3)
                                    }
                                    Err(e0) => (Err(e0), st2),
                                }
                            }
                            Err(e0) => (Err(e0), st1),
                        }
                    }
                    _ => (Err(PErrV::Invalid), st0),
                }
            }
            Err(e0) => (Err(e0), st0),
        }
    }
}

/// A `return` statement, an optional trailing semicolon consumed.
pub open spec fn parse_return_spec(fuel: nat, st: PState) -> (Result<StmtV, PErrV>, PState)
    decreases fuel, 0int,
{
    if fuel == 0 {
        (Err(PErrV::TooDeep), st)
    } else {
        let (re, st1) = parse_expr_spec((fuel - 1) as nat, adv(st), Precedence::Lowest);
        match re {
            Ok(e) => {
                let st2 = if peek_of(st1).ty == TokenType::Semicolon {
                    adv(st1)
                } else {
                    st1
                };
                (Ok(StmtV::Return(e)), st2)
            }
            Err(e0) => (Err(e0), st1),
        }
    }
}

/// An expression statement, an optional trailing semicolon consumed.
pub open spec fn parse_expr_stmt_spec(fuel: nat, st: PState) -> (Result<StmtV, PErrV>, PState)
    decreases fuel, 0int,
{
    if fuel == 0 {
        (Err(PErrV::TooDeep), st)
    } else {
        let (re, st1) = parse_expr_spec((fuel - 1) as nat, st, Precedence::Lowest);
        match re {
            Ok(e) => {
                let st2 = if peek_of(st1).ty == TokenType::Semicolon {
                    adv(st1)
                } else {
                    st1
                };
                (Ok(StmtV::Expr(e)), st2)
            }
            Err(e0) => (Err(e0), st1),
        }
    }
}

/// Parse a whole program: statements until the end of the input,
/// collecting the failures and stepping one token on after each
/// statement or failure.
pub open spec fn parse_program_spec(fuel: nat, st: PState) -> (Seq<StmtV>, Seq<PErrV>, PState)
    decreases fuel, 3int,
{
    if cur_of(st).ty == TokenType::Eof {
        (Seq::empty(), Seq::empty(), st)
    } else if fuel == 0 {
        (Seq::empty(), seq![PErrV::TooDeep], st)
    } else {
        let (r, st1) = parse_stmt_spec((fuel - 1) as nat, st);
        let (ss, es, st2) = parse_program_spec((fuel - 1) as nat, adv(st1));
        match r {
            Ok(s) => (seq![s] + ss, es, st2),
            Err(e) => (ss, seq![e] + es, st2),
        }
    }
}

/// The recursion budget the public entry point picks: more than any
/// nesting the input's own length allows.
pub open spec fn parse_fuel(s: Seq<char>) -> nat {
    if s.len() + 16 <= u64::MAX {
        (s.len() + 16) as nat
    } else {
        u64::MAX as nat
    }
}

/// The parser state a fresh parser starts in.
pub open spec fn init_state(s: Seq<char>) -> PState {
    PState { src: s, n: 0 }
}

} // verus!

verus! {

/// The views of a list of parse failures.
pub open spec fn errs_view(v: Seq<ParseErrorKind>) -> Seq<PErrV> {
    Seq::new(v.len(), |i: int| v[i]@)
}

/// A copy of a token.
fn clone_token(t: &Token) -> (r: Token)
    ensures
        r@ == t@,
        r.ty == t.ty,
        r.wf() == t.wf(),
{
    Token {
        ty: t.ty,
        literal: match &t.literal {
            TokenLiteral::Ident(s) => TokenLiteral::Ident(s.clone()),
            TokenLiteral::Num(n) => TokenLiteral::Num(*n),
            TokenLiteral::String(s) => TokenLiteral::String(s.clone()),
        },
    }
}

/// The Pratt parser: a lexer, the current token, and one token of
/// lookahead.
pub struct Parser {
    lexer: Lexer,
    cur_token: Token,
    peek_token: Token,
    idx: Ghost<nat>,
}

impl Parser {
    /// The tokens held agree with the token stream of the source.
    pub closed spec fn wf(&self) -> bool {
        &&& self.lexer.wf()
        &&& self.cur_token.wf()
        &&& self.peek_token.wf()
        &&& self.cur_token@ == tok_at(self.lexer.src(), self.idx@)
        &&& self.peek_token@ == tok_at(self.lexer.src(), self.idx@ + 1)
        &&& self.lexer.position() == nth_pos(self.lexer.src(), self.idx@ + 2)
    }

    /// The source text.
    pub closed spec fn src(&self) -> Seq<char> {
        self.lexer.src()
    }

    /// The parser state: the source and the current token's index.
    pub closed spec fn st(&self) -> PState {
        PState { src: self.lexer.src(), n: self.idx@ }
    }

    /// Build a parser over a fresh lexer, standing on the first
    /// token.
    pub fn new(l: Lexer) -> (r: Parser)
        requires
            l.wf(),
            l.position() == 0,
        ensures
            r.wf(),
            r.src() == l.src(),
            r.st() == init_state(l.src()),
    {
        let mut lexer = l;
        proof {
            assert(nth_pos(l.src(), 0) == 0);
        }
        let t0 = lexer.next();
        proof {
            assert(nth_pos(l.src(), 1) == next_token_at(l.src(), nth_pos(l.src(), 0)).1);
        }
        let t1 = lexer.next();
        proof {
            assert(nth_pos(l.src(), 2) == next_token_at(l.src(), nth_pos(l.src(), 1)).1);
        }
        Parser { lexer, cur_token: t0, peek_token: t1, idx: Ghost(0) }
    }

    /// Step onto the next token.
    fn next(&mut self)
        requires
            old(self).wf(),
        ensures
            final(self).wf(),
            final(self).src() == old(self).src(),
            final(self).st() == adv(old(self).st()),
    {
        proof {
            assert(nth_pos(self.lexer.src(), self.idx@ + 3) == next_token_at(
                self.lexer.src(),
                nth_pos(self.lexer.src(), self.idx@ + 2),
            ).1);
        }
        let t = self.lexer.next();
        self.cur_token = clone_token(&self.peek_token);
        self.peek_token = t;
        proof {
            self.idx@ = self.idx@ + 1;
        }
    }

    /// Whether the current token has a kind.
    fn cur_token_is(&self, ty: TokenType) -> (r: bool)
        requires
            self.wf(),
        ensures
            r == (cur_of(self.st()).ty == ty),
    {
        self.cur_token.ty == ty
    }

    /// Whether the next token has a kind.
    fn peek_token_is(&self, ty: TokenType) -> (r: bool)
        requires
            self.wf(),
        ensures
            r == (peek_of(self.st()).ty == ty),
    {
        self.peek_token.ty == ty
    }

    /// Expect the next token to have a kind and step onto it.
    fn expect_peek(&mut self, ty: TokenType) -> (r: Result<(), ParseErrorKind>)
        requires
            old(self).wf(),
        ensures
            final(self).wf(),
            final(self).src() == old(self).src(),
            ({
                let (sr, sst) = expect_peek_spec(old(self).st(), ty);
                final(self).st() == sst && match sr {
                    Ok(_) => r is Ok,
                    Err(pe) => r matches Err(k) && k@ == pe,
                }
            }),
    {
        if self.peek_token_is(ty) {
            self.next();
            Ok(())
        } else {
            Err(ParseErrorKind::UnexpectedToken(UnexpectedErr::new(ty, self.peek_token.ty)))
        }
    }

    /// Parse a whole program: statements until the end of the input;
    /// the failures found, when there are any, are all reported.
    #[verifier::rlimit(100)]
    #[verifier::spinoff_prover]
    pub fn parse(&mut self) -> (r: Result<Program, Vec<ParseErrorKind>>)
        requires
            old(self).wf(),
        ensures
            final(self).wf(),
            ({
                let (ss, es, sst) = parse_program_spec(
                    parse_fuel(old(self).src()),
                    old(self).st(),
                );
                final(self).st() == sst && if es.len() == 0 {
                    r matches Ok(p) && p@ == ss
                } else {
                    r matches Err(v) && errs_view(v@) == es
                }
            }),
    {
        let len = self.lexer.src_len();
        let f0: u64 = if (len as u64) <= 18446744073709551599u64 {
            (len as u64) + 16
        } else {
            u64::MAX
        };
        assert(f0 == parse_fuel(self.src()));
        let ghost fuel0 = parse_fuel(old(self).src());
        let mut f: u64 = f0;
        let mut statements: Vec<Statement> = Vec::new();
        let mut errors: Vec<ParseErrorKind> = Vec::new();
        proof {
            lemma_stmts_view_len(statements@);
            assert(errs_view(errors@) =~= Seq::<PErrV>::empty());
        }
        loop
            invariant_except_break
                self.wf(),
                self.src() == old(self).src(),
                ({
                    let (ss, es, sst) = parse_program_spec(fuel0, old(self).st());
                    let (ss2, es2, sst2) = parse_program_spec(f as nat, self.st());
                    sst == sst2 && ss == stmts_view(statements@) + ss2 && es == errs_view(
                        errors@,
                    ) + es2
                }),
            ensures
                self.wf(),
                self.src() == old(self).src(),
                ({
                    let (ss, es, sst) = parse_program_spec(fuel0, old(self).st());
                    sst == self.st() && ss == stmts_view(statements@) && es == errs_view(errors@)
                }),
            decreases f,
        {
            let ghost pre_st = self.st();
            if self.cur_token_is(TokenType::Eof) {
                proof {
                    let (ss, es, sst) = parse_program_spec(fuel0, old(self).st());
                    assert(stmts_view(statements@) + Seq::<StmtV>::empty() =~= stmts_view(
                        statements@,
                    ));
                    assert(errs_view(errors@) + Seq::<PErrV>::empty() =~= errs_view(errors@));
                }
                break;
            }
            if f == 0 {
                let ghost pre_errs = errors@;
                errors.push(ParseErrorKind::TooDeep);
                proof {
                    assert(errs_view(errors@) =~= errs_view(pre_errs).push(PErrV::TooDeep));
                    let (ss, es, sst) = parse_program_spec(fuel0, old(self).st());
                    assert(stmts_view(statements@) + Seq::<StmtV>::empty() =~= stmts_view(
                        statements@,
                    ));
                    assert(errs_view(pre_errs) + seq![PErrV::TooDeep] =~= errs_view(errors@));
                    assert(es =~= errs_view(errors@));
                    assert(ss =~= stmts_view(statements@));
                }
                break;
            }
            let res = self.parse_stmt(f - 1);
            match res {
                Ok(s) => {
                    let ghost pre = statements@;
                    statements.push(s);
                    proof {
                        lemma_stmts_view_len(pre);
                        lemma_stmts_view_len(statements@);
                        assert forall|j: int| 0 <= j < statements@.len() implies stmts_view(
                            statements@,
                        )[j] == stmts_view(pre).push(stmt_view(statements@[pre.len() as int]))[j]
                        by {
                            if j < pre.len() {
                                assert(statements@[j] == pre[j]);
                            }
                        }
                        assert(stmts_view(statements@) =~= stmts_view(pre).push(
                            stmt_view(statements@[pre.len() as int]),
                        ));
                    }
                }
                Err(e) => {
                    let ghost pre = errors@;
                    errors.push(e);
                    proof {
                        assert(errs_view(errors@) =~= errs_view(pre).push(
                            errors@[pre.len() as int]@,
                        ));
                    }
                }
            }
            self.next();
            f = f - 1;
            proof {
                let (ss, es, sst) = parse_program_spec(fuel0, old(self).st());
                let (ss2, es2, sst2) = parse_program_spec((f + 1) as nat, pre_st);
                let (ss3, es3, sst3) = parse_program_spec(f as nat, self.st());
                assert(ss2 =~= match res {
                    Ok(_) => seq![stmts_view(statements@).last()] + ss3,
                    Err(_) => ss3,
                });
                assert(ss =~= stmts_view(statements@) + ss3);
                assert(es =~= errs_view(errors@) + es3);
            }
        }
        if errors.len() == 0 {
            Ok(Program { statements })
        } else {
            Err(errors)
        }
    }

    /// Parse one statement at the current token.
    fn parse_stmt(&mut self, fuel: u64) -> (r: Result<Statement, ParseErrorKind>)
        requires
            old(self).wf(),
        ensures
            final(self).wf(),
            final(self).src() == old(self).src(),
            ({
                let (sr, sst) = parse_stmt_spec(fuel as nat, old(self).st());
                final(self).st() == sst && match sr {
                    Ok(sv) => r matches Ok(s) && s@ == sv,
                    Err(pe) => r matches Err(k) && k@ == pe,
                }
            }),
        decreases fuel, 2int,
    {
        proof {
            reveal(parse_stmt_spec);
        }
        if fuel == 0 {
            return Err(ParseErrorKind::TooDeep);
        }
        if self.cur_token_is(TokenType::Let) {
            self.parse_let(fuel - 1)
        } else if self.cur_token_is(TokenType::Return) {
            self.parse_return(fuel - 1)
        } else {
            self.parse_expr_stmt(fuel - 1)
        }
    }

    /// Parse a `let` statement.
    #[verifier::rlimit(100)]
    #[verifier::spinoff_prover]
    fn parse_let(&mut self, fuel: u64) -> (r: Result<Statement, ParseErrorKind>)
        requires
            old(self).wf(),
        ensures
            final(self).wf(),
            final(self).src() == old(self).src(),
            ({
                let (sr, sst) = parse_let_spec(fuel as nat, old(self).st());
                final(self).st() == sst && match sr {
                    Ok(sv) => r matches Ok(s) && s@ == sv,
                    Err(pe) => r matches Err(k) && k@ == pe,
                }
            }),
        decreases fuel, 0int,
    {
        if fuel == 0 {
            return Err(ParseErrorKind::TooDeep);
        }
        match self.expect_peek(TokenType::Ident) {
            Ok(_) => {}
            Err(e) => {
                return Err(e);
            }
        }
        let ident: String = match &self.cur_token.literal {
            TokenLiteral::Ident(s) => s.clone(),
            _ => {
                return Err(ParseErrorKind::InvalidParseFn);
            }
        };
        match self.expect_peek(TokenType::Assign) {
            Ok(_) => {}
            Err(e) => {
                return Err(e);
            }
        }
        self.next();
        let expr = match self.parse_expr(fuel - 1, Precedence::Lowest) {
            Ok(e) => e,
            Err(e) => {
                return Err(e);
            }
        };
        if self.peek_token_is(TokenType::Semicolon) {
            self.next();
        }
        Ok(Statement::Let(LetStmt { ident, expr }))
    }

    /// Parse a `return` statement.
    #[verifier::rlimit(100)]
    #[verifier::spinoff_prover]
    fn parse_return(&mut self, fuel: u64) -> (r: Result<Statement, ParseErrorKind>)
        requires
            old(self).wf(),
        ensures
            final(self).wf(),
            final(self).src() == old(self).src(),
            ({
                let (sr, sst) = parse_return_spec(fuel as nat, old(self).st());
                final(self).st() == sst && match sr {
                    Ok(sv) => r matches Ok(s) && s@ == sv,
                    Err(pe) => r matches Err(k) && k@ == pe,
                }
            }),
        decreases fuel, 0int,
    {
        if fuel == 0 {
            return Err(ParseErrorKind::TooDeep);
        }
        self.next();
        let expr = match self.parse_expr(fuel - 1, Precedence::Lowest) {
            Ok(e) => e,
            Err(e) => {
                return Err(e);
            }
        };
        if self.peek_token_is(TokenType::Semicolon) {
            self.next();
        }
        Ok(Statement::Return(ReturnStmt { expr }))
    }

    /// Parse an expression statement.
    #[verifier::rlimit(100)]
    #[verifier::spinoff_prover]
    fn parse_expr_stmt(&mut self, fuel: u64) -> (r: Result<Statement, ParseErrorKind>)
        requires
            old(self).wf(),
        ensures
            final(self).wf(),
            final(self).src() == old(self).src(),
            ({
                let (sr, sst) = parse_expr_stmt_spec(fuel as nat, old(self).st());
                final(self).st() == sst && match sr {
                    Ok(sv) => r matches Ok(s) && s@ == sv,
                    Err(pe) => r matches Err(k) && k@ == pe,
                }
            }),
        decreases fuel, 0int,
    {
        if fuel == 0 {
            return Err(ParseErrorKind::TooDeep);
        }
        let expr = match self.parse_expr(fuel - 1, Precedence::Lowest) {
            Ok(e) => e,
            Err(e) => {
                return Err(e);
            }
        };
        if self.peek_token_is(TokenType::Semicolon) {
            self.next();
        }
        Ok(Statement::Expression(expr))
    }

    /// Parse an expression at a precedence.
    #[verifier::rlimit(100)]
    #[verifier::spinoff_prover]
    fn parse_expr(&mut self, fuel: u64, prec: Precedence) -> (r: Result<
        Expression,
        ParseErrorKind,
    >)
        requires
            old(self).wf(),
        ensures
            final(self).wf(),
            final(self).src() == old(self).src(),
            ({
                let (sr, sst) = parse_expr_spec(fuel as nat, old(self).st(), prec);
                final(self).st() == sst && match sr {
                    Ok(ev) => r matches Ok(e) && e@ == ev,
                    Err(pe) => r matches Err(k) && k@ == pe,
                }
            }),
        decreases fuel, 0int,
    {
        if fuel == 0 {
            return Err(ParseErrorKind::TooDeep);
        }
        let mut left = match self.prefix(fuel - 1) {
            Ok(e) => e,
            Err(e) => {
                return Err(e);
            }
        };
        let ghost fuel1 = (fuel - 1) as nat;
        let mut f: u64 = fuel - 1;
        loop
            invariant
                self.wf(),
                self.src() == old(self).src(),
                f < fuel,
                ({
                    let (sr, sst) = parse_expr_spec(fuel as nat, old(self).st(), prec);
                    let (tr, tst) = parse_expr_more_spec(f as nat, left@, self.st(), prec);
                    sst == tst && match (sr, tr) {
                        (Ok(a), Ok(b)) => a == b,
                        (Err(a), Err(b)) => a == b,
                        _ => false,
                    }
                }),
            decreases f,
        {
            let pt = self.peek_token.ty;
            if pt == TokenType::Semicolon || prec.rank() >= token_precedence(pt).rank() {
                return Ok(left);
            }
            if f == 0 {
                return Err(ParseErrorKind::TooDeep);
            }
            if pt == TokenType::Plus || pt == TokenType::Minus || pt == TokenType::Slash || pt
                == TokenType::Star || pt == TokenType::Eq || pt == TokenType::NotEq || pt
                == TokenType::Lt || pt == TokenType::Gt {
                self.next();
                left = match self.parse_infix(f - 1, left) {
                    Ok(e) => e,
                    Err(e) => {
                        return Err(e);
                    }
                };
            } else if pt == TokenType::LParen {
                self.next();
                left = match self.parse_call(f - 1, left) {
                    Ok(e) => e,
                    Err(e) => {
                        return Err(e);
                    }
                };
            } else if pt == TokenType::LBracket {
                self.next();
                left = match self.parse_index(f - 1, left) {
                    Ok(e) => e,
                    Err(e) => {
                        return Err(e);
                    }
                };
            } else {
                return Ok(left);
            }
            f = f - 1;
        }
    }

    /// The prefix parselet for the current token.
    #[verifier::rlimit(100)]
    #[verifier::spinoff_prover]
    fn prefix(&mut self, fuel: u64) -> (r: Result<Expression, ParseErrorKind>)
        requires
            old(self).wf(),
        ensures
            final(self).wf(),
            final(self).src() == old(self).src(),
            ({
                let (sr, sst) = prefix_spec(fuel as nat, old(self).st());
                final(self).st() == sst && match sr {
                    Ok(ev) => r matches Ok(e) && e@ == ev,
                    Err(pe) => r matches Err(k) && k@ == pe,
                }
            }),
        decreases fuel, 0int,
    {
        if fuel == 0 {
            return Err(ParseErrorKind::TooDeep);
        }
        let ty = self.cur_token.ty;
        if ty == TokenType::Ident {
            match &self.cur_token.literal {
                TokenLiteral::Ident(s) => Ok(Expression::Ident(s.clone())),
                _ => Err(ParseErrorKind::InvalidParseFn),
            }
        } else if ty == TokenType::Number {
            match &self.cur_token.literal {
                TokenLiteral::Num(x) => Ok(Expression::Number(*x)),
                _ => Err(ParseErrorKind::InvalidParseFn),
            }
        } else if ty == TokenType::String {
            match &self.cur_token.literal {
                TokenLiteral::String(s) => Ok(Expression::String(s.clone())),
                _ => Err(ParseErrorKind::InvalidParseFn),
            }
        } else if ty == TokenType::True {
            Ok(Expression::Bool(true))
        } else if ty == TokenType::False {
            Ok(Expression::Bool(false))
        } else if ty == TokenType::Bang || ty == TokenType::Minus {
            self.next();
            let right = match self.parse_expr(fuel - 1, Precedence::Prefix) {
                Ok(e) => e,
                Err(e) => {
                    return Err(e);
                }
            };
            Ok(Expression::Prefix(PrefixExpr { operator: ty, right: Box::new(right) }))
        } else if ty == TokenType::LParen {
            self.next();
            let e = match self.parse_expr(fuel - 1, Precedence::Lowest) {
                Ok(e) => e,
                Err(e) => {
                    return Err(e);
                }
            };
            match self.expect_peek(TokenType::RParen) {
                Ok(_) => Ok(e),
                Err(e0) => Err(e0),
            }
        } else if ty == TokenType::LBracket {
            self.next();
            let es = match self.parse_expr_list(fuel - 1, TokenType::RBracket) {
                Ok(es) => es,
                Err(e) => {
                    return Err(e);
                }
            };
            Ok(Expression::Array(ArrayExpr { elements: es }))
        } else if ty == TokenType::If {
            self.parse_if(fuel - 1)
        } else if ty == TokenType::Fn {
            self.parse_func(fuel - 1)
        } else if ty == TokenType::LBrace {
            self.parse_hash(fuel - 1)
        } else {
            Err(ParseErrorKind::UnknownPrefixExpr(ty))
        }
    }

    /// The infix parselet for a binary operator at the current
    /// token.
    fn parse_infix(&mut self, fuel: u64, left: Expression) -> (r: Result<
        Expression,
        ParseErrorKind,
    >)
        requires
            old(self).wf(),
        ensures
            final(self).wf(),
            final(self).src() == old(self).src(),
            ({
                let (sr, sst) = parse_infix_spec(fuel as nat, left@, old(self).st());
                final(self).st() == sst && match sr {
                    Ok(ev) => r matches Ok(e) && e@ == ev,
                    Err(pe) => r matches Err(k) && k@ == pe,
                }
            }),
        decreases fuel, 0int,
    {
        if fuel == 0 {
            return Err(ParseErrorKind::TooDeep);
        }
        let operator = self.cur_token.ty;
        let prec = token_precedence(operator);
        self.next();
        let right = match self.parse_expr(fuel - 1, prec) {
            Ok(e) => e,
            Err(e) => {
                return Err(e);
            }
        };
        Ok(
            Expression::Infix(
                InfixExpr { left: Box::new(left), operator, right: Box::new(right) },
            ),
        )
    }

    /// The call parselet: the argument list after an opening
    /// parenthesis at the current token.
    fn parse_call(&mut self, fuel: u64, func: Expression) -> (r: Result<
        Expression,
        ParseErrorKind,
    >)
        requires
            old(self).wf(),
        ensures
            final(self).wf(),
            final(self).src() == old(self).src(),
            ({
                let (sr, sst) = parse_call_spec(fuel as nat, func@, old(self).st());
                final(self).st() == sst && match sr {
                    Ok(ev) => r matches Ok(e) && e@ == ev,
                    Err(pe) => r matches Err(k) && k@ == pe,
                }
            }),
        decreases fuel, 0int,
    {
        if fuel == 0 {
            return Err(ParseErrorKind::TooDeep);
        }
        self.next();
        let args = match self.parse_expr_list(fuel - 1, TokenType::RParen) {
            Ok(es) => es,
            Err(e) => {
                return Err(e);
            }
        };
        Ok(Expression::Call(CallExpr { func: Box::new(func), arguments: args }))
    }

    /// The index parselet: the index expression after an opening
    /// bracket at the current token.
    fn parse_index(&mut self, fuel: u64, left: Expression) -> (r: Result<
        Expression,
        ParseErrorKind,
    >)
        requires
            old(self).wf(),
        ensures
            final(self).wf(),
            final(self).src() == old(self).src(),
            ({
                let (sr, sst) = parse_index_spec(fuel as nat, left@, old(self).st());
                final(self).st() == sst && match sr {
                    Ok(ev) => r matches Ok(e) && e@ == ev,
                    Err(pe) => r matches Err(k) && k@ == pe,
                }
            }),
        decreases fuel, 0int,
    {
        if fuel == 0 {
            return Err(ParseErrorKind::TooDeep);
        }
        self.next();
        let index = match self.parse_expr(fuel - 1, Precedence::Lowest) {
            Ok(e) => e,
            Err(e) => {
                return Err(e);
            }
        };
        match self.expect_peek(TokenType::RBracket) {
            Ok(_) => Ok(
                Expression::Index(IndexExpr { left: Box::new(left), index: Box::new(index) }),
            ),
            Err(e0) => Err(e0),
        }
    }

    /// A comma-separated expression list up to a closing token, which
    /// is consumed.
    #[verifier::rlimit(100)]
    #[verifier::spinoff_prover]
    fn parse_expr_list(&mut self, fuel: u64, end: TokenType) -> (r: Result<
        Vec<Expression>,
        ParseErrorKind,
    >)
        requires
            old(self).wf(),
        ensures
            final(self).wf(),
            final(self).src() == old(self).src(),
            ({
                let (sr, sst) = parse_expr_list_spec(fuel as nat, old(self).st(), end);
                final(self).st() == sst && match sr {
                    Ok(evs) => r matches Ok(es) && exprs_view(es@) == evs,
                    Err(pe) => r matches Err(k) && k@ == pe,
                }
            }),
        decreases fuel, 0int,
    {
        if fuel == 0 {
            return Err(ParseErrorKind::TooDeep);
        }
        let mut res: Vec<Expression> = Vec::new();
        proof {
            lemma_exprs_view_len(res@);
        }
        if self.cur_token_is(end) {
            proof {
                assert(exprs_view(res@) =~= Seq::<ExprV>::empty());
            }
            return Ok(res);
        }
        let e0 = match self.parse_expr(fuel - 1, Precedence::Lowest) {
            Ok(e) => e,
            Err(e) => {
                return Err(e);
            }
        };
        res.push(e0);
        proof {
            lemma_exprs_view_len(res@);
            assert(exprs_view(res@) =~= seq![res@[0]@]);
        }
        let mut f: u64 = fuel - 1;
        loop
            invariant
                self.wf(),
                self.src() == old(self).src(),
                f < fuel,
                ({
                    let (sr, sst) = parse_expr_list_spec(fuel as nat, old(self).st(), end);
                    let (tr, tst) = parse_expr_list_more_spec(
                        f as nat,
                        exprs_view(res@),
                        self.st(),
                        end,
                    );
                    sst == tst && match (sr, tr) {
                        (Ok(a), Ok(b)) => a == b,
                        (Err(a), Err(b)) => a == b,
                        _ => false,
                    }
                }),
            decreases f,
        {
            if f == 0 {
                return Err(ParseErrorKind::TooDeep);
            }
            if self.peek_token_is(TokenType::Comma) {
                self.next();
                self.next();
                let e = match self.parse_expr(f - 1, Precedence::Lowest) {
                    Ok(e) => e,
                    Err(e) => {
                        return Err(e);
                    }
                };
                let ghost pre = res@;
                res.push(e);
                proof {
                    lemma_exprs_view_len(pre);
                    lemma_exprs_view_len(res@);
                    assert forall|j: int| 0 <= j < res@.len() implies exprs_view(res@)[j]
                        == exprs_view(pre).push(res@[pre.len() as int]@)[j] by {
                        if j < pre.len() {
                            assert(res@[j] == pre[j]);
                        }
                    }
                    assert(exprs_view(res@) =~= exprs_view(pre).push(res@[pre.len() as int]@));
                }
                f = f - 1;
            } else {
                match self.expect_peek(end) {
                    Ok(_) => {
                        return Ok(res);
                    }
                    Err(e0) => {
                        return Err(e0);
                    }
                }
            }
        }
    }

    /// The `if` parselet.
    #[verifier::rlimit(100)]
    #[verifier::spinoff_prover]
    fn parse_if(&mut self, fuel: u64) -> (r: Result<Expression, ParseErrorKind>)
        requires
            old(self).wf(),
        ensures
            final(self).wf(),
            final(self).src() == old(self).src(),
            ({
                let (sr, sst) = parse_if_spec(fuel as nat, old(self).st());
                final(self).st() == sst && match sr {
                    Ok(ev) => r matches Ok(e) && e@ == ev,
                    Err(pe) => r matches Err(k) && k@ == pe,
                }
            }),
        decreases fuel, 0int,
    {
        if fuel == 0 {
            return Err(ParseErrorKind::TooDeep);
        }
        match self.expect_peek(TokenType::LParen) {
            Ok(_) => {}
            Err(e) => {
                return Err(e);
            }
        }
        self.next();
        let condition = match self.parse_expr(fuel - 1, Precedence::Lowest) {
            Ok(e) => e,
            Err(e) => {
                return Err(e);
            }
        };
        match self.expect_peek(TokenType::RParen) {
            Ok(_) => {}
            Err(e) => {
                return Err(e);
            }
        }
        match self.expect_peek(TokenType::LBrace) {
            Ok(_) => {}
            Err(e) => {
                return Err(e);
            }
        }
        self.next();
        let if_branch = match self.parse_block(fuel - 1) {
            Ok(b) => b,
            Err(e) => {
                return Err(e);
            }
        };
        if self.peek_token_is(TokenType::Else) {
            self.next();
            match self.expect_peek(TokenType::LBrace) {
                Ok(_) => {}
                Err(e) => {
                    return Err(e);
                }
            }
            self.next();
            let else_branch = match self.parse_block(fuel - 1) {
                Ok(b) => b,
                Err(e) => {
                    return Err(e);
                }
            };
            Ok(
                Expression::If(
                    IfExpr {
                        condition: Box::new(condition),
                        if_branch,
                        else_branch: Some(else_branch),
                    },
                ),
            )
        } else {
            Ok(
                Expression::If(
                    IfExpr { condition: Box::new(condition), if_branch, else_branch: None },
                ),
            )
        }
    }

    /// The function-literal parselet.
    #[verifier::rlimit(100)]
    #[verifier::spinoff_prover]
    fn parse_func(&mut self, fuel: u64) -> (r: Result<Expression, ParseErrorKind>)
        requires
            old(self).wf(),
        ensures
            final(self).wf(),
            final(self).src() == old(self).src(),
            ({
                let (sr, sst) = parse_func_spec(fuel as nat, old(self).st());
                final(self).st() == sst && match sr {
                    Ok(ev) => r matches Ok(e) && e@ == ev,
                    Err(pe) => r matches Err(k) && k@ == pe,
                }
            }),
        decreases fuel, 0int,
    {
        if fuel == 0 {
            return Err(ParseErrorKind::TooDeep);
        }
        match self.expect_peek(TokenType::LParen) {
            Ok(_) => {}
            Err(e) => {
                return Err(e);
            }
        }
        self.next();
        let params = match self.parse_params(fuel - 1) {
            Ok(ps) => ps,
            Err(e) => {
                return Err(e);
            }
        };
        match self.expect_peek(TokenType::LBrace) {
            Ok(_) => {}
            Err(e) => {
                return Err(e);
            }
        }
        self.next();
        let body = match self.parse_block(fuel - 1) {
            Ok(b) => b,
            Err(e) => {
                return Err(e);
            }
        };
        Ok(Expression::Func(FuncExpr { params, body }))
    }

    /// A possibly-empty comma-separated parameter list.
    #[verifier::rlimit(100)]
    #[verifier::spinoff_prover]
    fn parse_params(&mut self, fuel: u64) -> (r: Result<Vec<String>, ParseErrorKind>)
        requires
            old(self).wf(),
        ensures
            final(self).wf(),
            final(self).src() == old(self).src(),
            ({
                let (sr, sst) = parse_params_spec(fuel as nat, old(self).st());
                final(self).st() == sst && match sr {
                    Ok(pvs) => r matches Ok(ps) && params_view(ps@) == pvs,
                    Err(pe) => r matches Err(k) && k@ == pe,
                }
            }),
        decreases fuel, 0int,
    {
        if fuel == 0 {
            return Err(ParseErrorKind::TooDeep);
        }
        let mut res: Vec<String> = Vec::new();
        if self.cur_token_is(TokenType::RParen) {
            proof {
                assert(params_view(res@) =~= Seq::<Seq<char>>::empty());
            }
            return Ok(res);
        }
        let mut f: u64 = fuel - 1;
        proof {
            assert(params_view(res@) =~= Seq::<Seq<char>>::empty());
        }
        loop
            invariant
                self.wf(),
                self.src() == old(self).src(),
                f < fuel,
                ({
                    let (sr, sst) = parse_params_spec(fuel as nat, old(self).st());
                    let (tr, tst) = parse_params_more_spec(f as nat, params_view(res@), self.st());
                    sst == tst && match (sr, tr) {
                        (Ok(a), Ok(b)) => a == b,
                        (Err(a), Err(b)) => a == b,
                        _ => false,
                    }
                }),
            decreases f,
        {
            if f == 0 {
                return Err(ParseErrorKind::TooDeep);
            }
            if self.peek_token_is(TokenType::Comma) {
                let name: String = match &self.cur_token.literal {
                    TokenLiteral::Ident(s) => s.clone(),
                    _ => {
                        return Err(
                            ParseErrorKind::UnexpectedToken(
                                UnexpectedErr::new(TokenType::Ident, self.cur_token.ty),
                            ),
                        );
                    }
                };
                proof {
                    if !(cur_of(self.st()).lit is Ident) {
                        assert(!self.cur_token.wf() || self.cur_token.ty != TokenType::Ident);
                    }
                }
                let ghost pre = res@;
                res.push(name);
                proof {
                    assert(params_view(res@) =~= params_view(pre).push(res@[pre.len() as int]@));
                }
                self.next();
                self.next();
                f = f - 1;
            } else {
                let name: String = match &self.cur_token.literal {
                    TokenLiteral::Ident(s) => s.clone(),
                    _ => {
                        return Err(
                            ParseErrorKind::UnexpectedToken(
                                UnexpectedErr::new(TokenType::Ident, self.cur_token.ty),
                            ),
                        );
                    }
                };
                let ghost pre = res@;
                res.push(name);
                proof {
                    assert(params_view(res@) =~= params_view(pre).push(res@[pre.len() as int]@));
                }
                match self.expect_peek(TokenType::RParen) {
                    Ok(_) => {
                        return Ok(res);
                    }
                    Err(e0) => {
                        return Err(e0);
                    }
                }
            }
        }
    }

    /// A statement block up to a closing brace or the end of the
    /// input.
    #[verifier::rlimit(100)]
    #[verifier::spinoff_prover]
    fn parse_block(&mut self, fuel: u64) -> (r: Result<Vec<Statement>, ParseErrorKind>)
        requires
            old(self).wf(),
        ensures
            final(self).wf(),
            final(self).src() == old(self).src(),
            ({
                let (sr, sst) = parse_block_spec(fuel as nat, old(self).st());
                final(self).st() == sst && match sr {
                    Ok(svs) => r matches Ok(ss) && stmts_view(ss@) == svs,
                    Err(pe) => r matches Err(k) && k@ == pe,
                }
            }),
        decreases fuel, 1int,
    {
        let mut statements: Vec<Statement> = Vec::new();
        proof {
            lemma_stmts_view_len(statements@);
            assert(stmts_view(statements@) =~= Seq::<StmtV>::empty());
        }
        let mut f: u64 = fuel;
        loop
            invariant
                self.wf(),
                self.src() == old(self).src(),
                f <= fuel,
                ({
                    let (sr, sst) = parse_block_spec(fuel as nat, old(self).st());
                    let (tr, tst) = parse_block_spec(f as nat, self.st());
                    sst == tst && match (sr, tr) {
                        (Ok(a), Ok(b)) => a == stmts_view(statements@) + b,
                        (Err(a), Err(b)) => a == b,
                        _ => false,
                    }
                }),
            decreases f,
        {
            if self.cur_token_is(TokenType::RBrace) || self.cur_token_is(TokenType::Eof) {
                proof {
                    let (sr, sst) = parse_block_spec(fuel as nat, old(self).st());
                    if sr is Ok {
                        assert(stmts_view(statements@) + Seq::<StmtV>::empty() =~= stmts_view(
                            statements@,
                        ));
                    }
                }
                return Ok(statements);
            }
            if f == 0 {
                return Err(ParseErrorKind::TooDeep);
            }
            let ghost pre_st = self.st();
            let s = match self.parse_stmt(f - 1) {
                Ok(s) => s,
                Err(e) => {
                    return Err(e);
                }
            };
            let ghost pre = statements@;
            statements.push(s);
            proof {
                lemma_stmts_view_len(pre);
                lemma_stmts_view_len(statements@);
                assert forall|j: int| 0 <= j < statements@.len() implies stmts_view(
                    statements@,
                )[j] == stmts_view(pre).push(stmt_view(statements@[pre.len() as int]))[j] by {
                    if j < pre.len() {
                        assert(statements@[j] == pre[j]);
                    }
                }
                assert(stmts_view(statements@) =~= stmts_view(pre).push(
                    stmt_view(statements@[pre.len() as int]),
                ));
            }
            self.next();
            f = f - 1;
            proof {
                let (sr1, sst1) = parse_block_spec((f + 1) as nat, pre_st);
                let (sr2, sst2) = parse_block_spec(f as nat, self.st());
                if sr2 is Ok {
                    assert(stmts_view(statements@) + sr2->Ok_0 =~= stmts_view(pre) + (seq![
                        stmt_view(statements@[pre.len() as int]),
                    ] + sr2->Ok_0));
                }
            }
        }
    }

    /// The hash-literal parselet.
    #[verifier::rlimit(100)]
    #[verifier::spinoff_prover]
    fn parse_hash(&mut self, fuel: u64) -> (r: Result<Expression, ParseErrorKind>)
        requires
            old(self).wf(),
        ensures
            final(self).wf(),
            final(self).src() == old(self).src(),
            ({
                let (sr, sst) = parse_hash_spec(fuel as nat, old(self).st());
                final(self).st() == sst && match sr {
                    Ok(ev) => r matches Ok(e) && e@ == ev,
                    Err(pe) => r matches Err(k) && k@ == pe,
                }
            }),
        decreases fuel, 0int,
    {
        if fuel == 0 {
            return Err(ParseErrorKind::TooDeep);
        }
        self.next();
        let mut pairs: Vec<(Expression, Expression)> = Vec::new();
        if self.cur_token_is(TokenType::RBrace) {
            proof {
                assert(pairs_view(pairs@) =~= Seq::<(ExprV, ExprV)>::empty());
            }
            return Ok(Expression::Hash(HashExpr { pairs }));
        }
        let p0 = match self.parse_hash_pair(fuel - 1) {
            Ok(p) => p,
            Err(e) => {
                return Err(e);
            }
        };
        pairs.push(p0);
        proof {
            lemma_pairs_view_len(pairs@);
            assert(pairs_view(pairs@) =~= seq![(pairs@[0].0@, pairs@[0].1@)]);
        }
        let mut f: u64 = fuel - 1;
        loop
            invariant
                self.wf(),
                self.src() == old(self).src(),
                f < fuel,
                ({
                    let (sr, sst) = parse_hash_spec(fuel as nat, old(self).st());
                    let (tr, tst) = parse_hash_more_spec(f as nat, pairs_view(pairs@), self.st());
                    sst == tst && match (sr, tr) {
                        (Ok(a), Ok(b)) => a == b,
                        (Err(a), Err(b)) => a == b,
                        _ => false,
                    }
                }),
            decreases f,
        {
            if f == 0 {
                return Err(ParseErrorKind::TooDeep);
            }
            if self.peek_token_is(TokenType::Comma) {
                self.next();
                self.next();
                let p = match self.parse_hash_pair(f - 1) {
                    Ok(p) => p,
                    Err(e) => {
                        return Err(e);
                    }
                };
                let ghost pre = pairs@;
                pairs.push(p);
                proof {
                    lemma_pairs_view_len(pre);
                    lemma_pairs_view_len(pairs@);
                    assert forall|j: int| 0 <= j < pairs@.len() implies pairs_view(pairs@)[j]
                        == pairs_view(pre).push(
                        (pairs@[pre.len() as int].0@, pairs@[pre.len() as int].1@),
                    )[j] by {
                        assert(pairs_view(pairs@)[j] == (pairs@[j].0@, pairs@[j].1@));
                        if j < pre.len() {
                            assert(pairs@[j] == pre[j]);
                            assert(pairs_view(pre)[j] == (pre[j].0@, pre[j].1@));
                        }
                    }
                    assert(pairs_view(pairs@) =~= pairs_view(pre).push(
                        (pairs@[pre.len() as int].0@, pairs@[pre.len() as int].1@),
                    ));
                }
                f = f - 1;
            } else {
                match self.expect_peek(TokenType::RBrace) {
                    Ok(_) => {
                        return Ok(Expression::Hash(HashExpr { pairs }));
                    }
                    Err(e0) => {
                        return Err(e0);
                    }
                }
            }
        }
    }

    /// One `key : value` pair of a hash literal.
    #[verifier::rlimit(100)]
    #[verifier::spinoff_prover]
    fn parse_hash_pair(&mut self, fuel: u64) -> (r: Result<
        (Expression, Expression),
        ParseErrorKind,
    >)
        requires
            old(self).wf(),
        ensures
            final(self).wf(),
            final(self).src() == old(self).src(),
            ({
                let (sr, sst) = parse_hash_pair_spec(fuel as nat, old(self).st());
                final(self).st() == sst && match sr {
                    Ok(pv) => r matches Ok(p) && (p.0@, p.1@) == pv,
                    Err(pe) => r matches Err(k) && k@ == pe,
                }
            }),
        decreases fuel, 0int,
    {
        if fuel == 0 {
            return Err(ParseErrorKind::TooDeep);
        }
        let key = match self.parse_expr(fuel - 1, Precedence::Lowest) {
            Ok(e) => e,
            Err(e) => {
                return Err(e);
            }
        };
        match self.expect_peek(TokenType::Colon) {
            Ok(_) => {}
            Err(e) => {
                return Err(e);
            }
        }
        self.next();
        let value = match self.parse_expr(fuel - 1, Precedence::Lowest) {
            Ok(e) => e,
            Err(e) => {
                return Err(e);
            }
        };
        Ok((key, value))
    }
}

} // verus!

verus! {

/// Whether a token kind is one of the binary operators.
pub open spec fn is_bin_op(t: TokenType) -> bool {
    ||| t == TokenType::Plus
    ||| t == TokenType::Minus
    ||| t == TokenType::Star
    ||| t == TokenType::Slash
    ||| t == TokenType::Lt
    ||| t == TokenType::Gt
    ||| t == TokenType::Eq
    ||| t == TokenType::NotEq
}

/// Whether a token is a bare operand: a number or an identifier.
pub open spec fn is_operand(t: TokenV) -> bool {
    (t.ty == TokenType::Number && t.lit is Num) || (t.ty == TokenType::Ident && t.lit is Ident)
}

/// The expression a bare operand token parses to.
pub open spec fn operand_expr(t: TokenV) -> ExprV {
    match t.lit {
        LitV::Num(x) => ExprV::Number(x),
        LitV::Ident(name) => ExprV::Ident(name),
        LitV::Str(s) => ExprV::Str(s),
    }
}

/// Operator precedence: for any source whose next five tokens read
/// `a op1 b op2 c` with bare operands and binary operators, followed
/// by a semicolon or the end of the input, the parse of `a op1 b op2 c`
/// is `(a op1 (b op2 c))` when `op1` binds looser than `op2`, and
/// `((a op1 b) op2 c)` — left association — when they bind alike.
#[verifier::rlimit(100)]
#[verifier::spinoff_prover]
pub proof fn lemma_operator_precedence(
    src: Seq<char>,
    n: nat,
    fuel: nat,
    op1: TokenType,
    op2: TokenType,
)
    requires
        fuel >= 8,
        is_operand(tok_at(src, n)),
        tok_at(src, (n + 1) as nat).ty == op1,
        is_bin_op(op1),
        is_operand(tok_at(src, (n + 2) as nat)),
        tok_at(src, (n + 3) as nat).ty == op2,
        is_bin_op(op2),
        is_operand(tok_at(src, (n + 4) as nat)),
        tok_at(src, (n + 5) as nat).ty == TokenType::Semicolon || tok_at(
            src,
            (n + 5) as nat,
        ).ty == TokenType::Eof,
    ensures
        prec_rank(token_precedence_spec(op1)) < prec_rank(token_precedence_spec(op2))
            ==> parse_expr_spec(fuel, PState { src, n }, Precedence::Lowest).0 == Ok::<
            ExprV,
            PErrV,
        >(
            ExprV::Infix(
                Box::new(operand_expr(tok_at(src, n))),
                op1,
                Box::new(
                    ExprV::Infix(
                        Box::new(operand_expr(tok_at(src, (n + 2) as nat))),
                        op2,
                        Box::new(operand_expr(tok_at(src, (n + 4) as nat))),
                    ),
                ),
            ),
        ),
        prec_rank(token_precedence_spec(op1)) == prec_rank(token_precedence_spec(op2))
            ==> parse_expr_spec(fuel, PState { src, n }, Precedence::Lowest).0 == Ok::<
            ExprV,
            PErrV,
        >(
            ExprV::Infix(
                Box::new(
                    ExprV::Infix(
                        Box::new(operand_expr(tok_at(src, n))),
                        op1,
                        Box::new(operand_expr(tok_at(src, (n + 2) as nat))),
                    ),
                ),
                op2,
                Box::new(operand_expr(tok_at(src, (n + 4) as nat))),
            ),
        ),
{
    let st0 = PState { src, n };
    let ea = operand_expr(tok_at(src, n));
    let eb = operand_expr(tok_at(src, (n + 2) as nat));
    let ec = operand_expr(tok_at(src, (n + 4) as nat));
    assert(prefix_spec((fuel - 1) as nat, st0) == (Ok::<ExprV, PErrV>(ea), st0));
    let stb = PState { src, n: (n + 2) as nat };
    let stc = PState { src, n: (n + 4) as nat };
    assert(adv(adv(st0)) == stb);
    assert(adv(adv(stb)) == stc);
    if prec_rank(token_precedence_spec(op1)) < prec_rank(token_precedence_spec(op2)) {
        // the inner expression b op2 c is parsed while holding op1's
        // precedence, and op2 binds tighter, so it extends b
        assert(prefix_spec((fuel - 4) as nat, stb) == (Ok::<ExprV, PErrV>(eb), stb));
        assert(prefix_spec((fuel - 7) as nat, stc) == (Ok::<ExprV, PErrV>(ec), stc));
        assert(parse_expr_more_spec((fuel - 7) as nat, ec, stc, token_precedence_spec(op2)) == (
            Ok::<ExprV, PErrV>(ec),
            stc,
        ));
        assert(parse_expr_spec((fuel - 6) as nat, stc, token_precedence_spec(op2)) == (
            Ok::<ExprV, PErrV>(ec),
            stc,
        ));
        let inner = ExprV::Infix(Box::new(eb), op2, Box::new(ec));
        assert(parse_infix_spec((fuel - 5) as nat, eb, PState { src, n: (n + 3) as nat }) == (
            Ok::<ExprV, PErrV>(inner),
            stc,
        ));
        assert(parse_expr_more_spec((fuel - 5) as nat, inner, stc, token_precedence_spec(op1)) == (
            Ok::<ExprV, PErrV>(inner),
            stc,
        ));
        assert(parse_expr_more_spec((fuel - 4) as nat, eb, stb, token_precedence_spec(op1)) == (
            Ok::<ExprV, PErrV>(inner),
            stc,
        ));
        assert(parse_expr_spec((fuel - 3) as nat, stb, token_precedence_spec(op1)) == (
            Ok::<ExprV, PErrV>(inner),
            stc,
        ));
        let whole = ExprV::Infix(Box::new(ea), op1, Box::new(inner));
        assert(parse_infix_spec((fuel - 2) as nat, ea, PState { src, n: (n + 1) as nat }) == (
            Ok::<ExprV, PErrV>(whole),
            stc,
        ));
        assert(parse_expr_more_spec((fuel - 2) as nat, whole, stc, Precedence::Lowest) == (
            Ok::<ExprV, PErrV>(whole),
            stc,
        ));
        assert(parse_expr_more_spec((fuel - 1) as nat, ea, st0, Precedence::Lowest) == (
            Ok::<ExprV, PErrV>(whole),
            stc,
        ));
    }
    if prec_rank(token_precedence_spec(op1)) == prec_rank(token_precedence_spec(op2)) {
        // the inner parse at op1's precedence stops before op2, so
        // a op1 b closes first and op2 extends it: left association
        assert(prefix_spec((fuel - 4) as nat, stb) == (Ok::<ExprV, PErrV>(eb), stb));
        assert(parse_expr_more_spec((fuel - 4) as nat, eb, stb, token_precedence_spec(op1)) == (
            Ok::<ExprV, PErrV>(eb),
            stb,
        ));
        assert(parse_expr_spec((fuel - 3) as nat, stb, token_precedence_spec(op1)) == (
            Ok::<ExprV, PErrV>(eb),
            stb,
        ));
        let inner = ExprV::Infix(Box::new(ea), op1, Box::new(eb));
        assert(parse_infix_spec((fuel - 2) as nat, ea, PState { src, n: (n + 1) as nat }) == (
            Ok::<ExprV, PErrV>(inner),
            stb,
        ));
        assert(prefix_spec((fuel - 5) as nat, stc) == (Ok::<ExprV, PErrV>(ec), stc));
        assert(parse_expr_more_spec((fuel - 5) as nat, ec, stc, token_precedence_spec(op2)) == (
            Ok::<ExprV, PErrV>(ec),
            stc,
        ));
        assert(parse_expr_spec((fuel - 4) as nat, stc, token_precedence_spec(op2)) == (
            Ok::<ExprV, PErrV>(ec),
            stc,
        ));
        let whole = ExprV::Infix(Box::new(inner), op2, Box::new(ec));
        assert(parse_infix_spec((fuel - 3) as nat, inner, PState { src, n: (n + 3) as nat }) == (
            Ok::<ExprV, PErrV>(whole),
            stc,
        ));
        assert(parse_expr_more_spec((fuel - 3) as nat, whole, stc, Precedence::Lowest) == (
            Ok::<ExprV, PErrV>(whole),
            stc,
        ));
        assert(parse_expr_more_spec((fuel - 2) as nat, inner, stb, Precedence::Lowest) == (
            Ok::<ExprV, PErrV>(whole),
            stc,
        ));
        assert(parse_expr_more_spec((fuel - 1) as nat, ea, st0, Precedence::Lowest) == (
            Ok::<ExprV, PErrV>(whole),
            stc,
        ));
    }
}

} // verus!
