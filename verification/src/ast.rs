//! The syntax tree: a program is an ordered list of statements, and
//! expressions form a recursive tree. Every node is immutable after
//! parsing. Each node also has a mathematical mirror (`ExprV`, `StmtV`)
//! used by the contracts, and a textual form used for diagnostics.

use vstd::prelude::*;
use vstd::string::StringExecFns;

use crate::strutil::{int_text, append_int};
use crate::token::{TokenType, token_type_text};

verus! {

pub type Ident = String;

/// A whole program: an ordered sequence of statements.
#[derive(Debug, PartialEq, Eq)]
pub struct Program {
    pub statements: Vec<Statement>,
}

#[derive(Debug, PartialEq, Eq)]
pub enum Statement {
    Let(LetStmt),
    Return(ReturnStmt),
    Expression(Expression),
}

#[derive(Debug, PartialEq, Eq)]
pub struct LetStmt {
    pub ident: Ident,
    pub expr: Expression,
}

#[derive(Debug, PartialEq, Eq)]
pub struct ReturnStmt {
    pub expr: Expression,
}

#[derive(Debug, PartialEq, Eq)]
pub enum Expression {
    Ident(Ident),
    Number(i64),
    String(String),
    Prefix(PrefixExpr),
    Infix(InfixExpr),
    Bool(bool),
    If(IfExpr),
    Func(FuncExpr),
    Call(CallExpr),
    Array(ArrayExpr),
    Index(IndexExpr),
    Hash(HashExpr),
}

#[derive(Debug, PartialEq, Eq)]
pub struct PrefixExpr {
    pub operator: TokenType,
    pub right: Box<Expression>,
}

#[derive(Debug, PartialEq, Eq)]
pub struct InfixExpr {
    pub left: Box<Expression>,
    pub operator: TokenType,
    pub right: Box<Expression>,
}

#[derive(Debug, PartialEq, Eq)]
pub struct IfExpr {
    pub condition: Box<Expression>,
    pub if_branch: Vec<Statement>,
    pub else_branch: Option<Vec<Statement>>,
}

#[derive(Debug, PartialEq, Eq)]
pub struct FuncExpr {
    pub params: Vec<Ident>,
    pub body: Vec<Statement>,
}

#[derive(Debug, PartialEq, Eq)]
pub struct CallExpr {
    /// `Expression::Func` or `Expression::Ident`
    pub func: Box<Expression>,
    pub arguments: Vec<Expression>,
}

#[derive(Debug, PartialEq, Eq)]
pub struct ArrayExpr {
    pub elements: Vec<Expression>,
}

#[derive(Debug, PartialEq, Eq)]
pub struct IndexExpr {
    pub left: Box<Expression>,
    pub index: Box<Expression>,
}

#[derive(Debug, PartialEq, Eq)]
pub struct HashExpr {
    pub pairs: Vec<(Expression, Expression)>,
}

/// The mathematical mirror of an expression node.
pub enum ExprV {
    Ident(Seq<char>),
    Number(i64),
    Str(Seq<char>),
    Prefix(TokenType, Box<ExprV>),
    Infix(Box<ExprV>, TokenType, Box<ExprV>),
    Bool(bool),
    If(Box<ExprV>, Seq<StmtV>, Option<Seq<StmtV>>),
    Func(Seq<Seq<char>>, Seq<StmtV>),
    Call(Box<ExprV>, Seq<ExprV>),
    Array(Seq<ExprV>),
    Index(Box<ExprV>, Box<ExprV>),
    Hash(Seq<(ExprV, ExprV)>),
}

/// The mathematical mirror of a statement node.
pub enum StmtV {
    Let(Seq<char>, ExprV),
    Return(ExprV),
    Expr(ExprV),
}

/// The views of a parameter list's names.
pub open spec fn params_view(ps: Seq<Ident>) -> Seq<Seq<char>> {
    Seq::new(ps.len(), |i: int| ps[i]@)
}

pub open spec fn expr_view(e: Expression) -> ExprV
    decreases e,
{
    match e {
        Expression::Ident(s) => ExprV::Ident(s@),
        Expression::Number(x) => ExprV::Number(x),
        Expression::String(s) => ExprV::Str(s@),
        Expression::Prefix(p) => ExprV::Prefix(p.operator, Box::new(expr_view(*p.right))),
        Expression::Infix(i) => ExprV::Infix(
            Box::new(expr_view(*i.left)),
            i.operator,
            Box::new(expr_view(*i.right)),
        ),
        Expression::Bool(b) => ExprV::Bool(b),
        Expression::If(i) => ExprV::If(
            Box::new(expr_view(*i.condition)),
            stmts_view(i.if_branch@),
            match i.else_branch {
                Some(b) => Some(stmts_view(b@)),
                None => None,
            },
        ),
        Expression::Func(f) => ExprV::Func(params_view(f.params@), stmts_view(f.body@)),
        Expression::Call(c) => ExprV::Call(Box::new(expr_view(*c.func)), exprs_view(c.arguments@)),
        Expression::Array(a) => ExprV::Array(exprs_view(a.elements@)),
        Expression::Index(ix) => ExprV::Index(
            Box::new(expr_view(*ix.left)),
            Box::new(expr_view(*ix.index)),
        ),
        Expression::Hash(h) => ExprV::Hash(pairs_view(h.pairs@)),
    }
}

pub open spec fn stmt_view(s: Statement) -> StmtV
    decreases s,
{
    match s {
        Statement::Let(l) => StmtV::Let(l.ident@, expr_view(l.expr)),
        Statement::Return(r) => StmtV::Return(expr_view(r.expr)),
        Statement::Expression(e) => StmtV::Expr(expr_view(e)),
    }
}

pub open spec fn stmts_view(ss: Seq<Statement>) -> Seq<StmtV>
    decreases ss,
{
    if ss.len() == 0 {
        Seq::empty()
    } else {
        seq![stmt_view(ss[0])] + stmts_view(ss.drop_first())
    }
}

pub open spec fn exprs_view(es: Seq<Expression>) -> Seq<ExprV>
    decreases es,
{
    if es.len() == 0 {
        Seq::empty()
    } else {
        seq![expr_view(es[0])] + exprs_view(es.drop_first())
    }
}

pub open spec fn pairs_view(ps: Seq<(Expression, Expression)>) -> Seq<(ExprV, ExprV)>
    decreases ps,
{
    if ps.len() == 0 {
        Seq::empty()
    } else {
        seq![(expr_view(ps[0].0), expr_view(ps[0].1))] + pairs_view(ps.drop_first())
    }
}

impl View for Expression {
    type V = ExprV;

    open spec fn view(&self) -> ExprV {
        expr_view(*self)
    }
}

impl View for Statement {
    type V = StmtV;

    open spec fn view(&self) -> StmtV {
        stmt_view(*self)
    }
}

impl View for Program {
    type V = Seq<StmtV>;

    open spec fn view(&self) -> Seq<StmtV> {
        stmts_view(self.statements@)
    }
}

/// The textual form of an expression, fully parenthesised at the
/// prefix, infix and index nodes.
pub open spec fn expr_text(e: ExprV) -> Seq<char>
    decreases e,
{
    match e {
        ExprV::Ident(s) => s,
        ExprV::Number(x) => int_text(x as int),
        ExprV::Str(s) => s,
        ExprV::Prefix(op, right) => "("@ + token_type_text(op) + expr_text(*right) + ")"@,
        ExprV::Infix(left, op, right) => "("@ + expr_text(*left) + " "@ + token_type_text(op)
            + " "@ + expr_text(*right) + ")"@,
        ExprV::Bool(b) => if b {
            "true"@
        } else {
            "false"@
        },
        ExprV::If(cond, if_branch, else_branch) => "if ("@ + expr_text(*cond) + ") {\n"@
            + block_text(if_branch) + "}"@ + (match else_branch {
            Some(b) => " else {\n"@ + block_text(b) + "}"@,
            None => Seq::empty(),
        }),
        ExprV::Func(params, body) => "fn ("@ + idents_text(params) + ") {\n"@ + block_text(body)
            + "}"@,
        ExprV::Call(func, arguments) => expr_text(*func) + "("@ + expr_list_text(arguments) + ")"@,
        ExprV::Array(elements) => "["@ + expr_list_text(elements) + "]"@,
        ExprV::Index(left, index) => "("@ + expr_text(*left) + "["@ + expr_text(*index) + "])"@,
        ExprV::Hash(pairs) => "{"@ + pair_list_text(pairs) + "}"@,
    }
}

/// The textual form of a statement.
pub open spec fn stmt_text(s: StmtV) -> Seq<char>
    decreases s,
{
    match s {
        StmtV::Let(ident, expr) => "let "@ + ident + " = "@ + expr_text(expr) + ";"@,
        StmtV::Return(expr) => "return "@ + expr_text(expr) + ";"@,
        StmtV::Expr(expr) => expr_text(expr),
    }
}

/// The textual form of a block body: each statement indented by two
/// spaces on a line of its own.
pub open spec fn block_text(ss: Seq<StmtV>) -> Seq<char>
    decreases ss,
{
    if ss.len() == 0 {
        Seq::empty()
    } else {
        "  "@ + stmt_text(ss[0]) + "\n"@ + block_text(ss.drop_first())
    }
}

/// The textual form of a program: each statement on a line of its own.
pub open spec fn program_text(ss: Seq<StmtV>) -> Seq<char>
    decreases ss,
{
    if ss.len() == 0 {
        Seq::empty()
    } else {
        stmt_text(ss[0]) + "\n"@ + program_text(ss.drop_first())
    }
}

/// Parameter names, printed one after the other.
pub open spec fn idents_text(ps: Seq<Seq<char>>) -> Seq<char>
    decreases ps,
{
    if ps.len() == 0 {
        Seq::empty()
    } else {
        ps[0] + idents_text(ps.drop_first())
    }
}

/// Expressions joined by a comma and a space.
pub open spec fn expr_list_text(es: Seq<ExprV>) -> Seq<char>
    decreases es,
{
    if es.len() == 0 {
        Seq::empty()
    } else if es.len() == 1 {
        expr_text(es[0])
    } else {
        expr_text(es[0]) + ", "@ + expr_list_text(es.drop_first())
    }
}

/// Key-value pairs, each printed as `key: value`, joined by a comma
/// and a space.
pub open spec fn pair_list_text(ps: Seq<(ExprV, ExprV)>) -> Seq<char>
    decreases ps,
{
    if ps.len() == 0 {
        Seq::empty()
    } else if ps.len() == 1 {
        expr_text(ps[0].0) + ": "@ + expr_text(ps[0].1)
    } else {
        expr_text(ps[0].0) + ": "@ + expr_text(ps[0].1) + ", "@ + pair_list_text(ps.drop_first())
    }
}


pub proof fn lemma_stmts_view_skip(ss: Seq<Statement>, i: int)
    requires
        0 <= i < ss.len(),
    ensures
        stmts_view(ss.skip(i)) == seq![stmt_view(ss[i])] + stmts_view(ss.skip(i + 1)),
        stmts_view(ss.skip(i)).len() == ss.len() - i,
    decreases ss.len() - i,
{
    assert(ss.skip(i)[0] == ss[i]);
    assert(ss.skip(i).drop_first() =~= ss.skip(i + 1));
    if i + 1 < ss.len() {
        lemma_stmts_view_skip(ss, i + 1);
    } else {
        assert(ss.skip(i + 1) =~= Seq::<Statement>::empty());
    }
}

pub proof fn lemma_stmts_view_len(ss: Seq<Statement>)
    ensures
        stmts_view(ss).len() == ss.len(),
        forall|i: int| 0 <= i < ss.len() ==> stmts_view(ss)[i] == stmt_view(#[trigger] ss[i]),
    decreases ss.len(),
{
    if ss.len() > 0 {
        lemma_stmts_view_len(ss.drop_first());
        assert forall|i: int| 0 <= i < ss.len() implies stmts_view(ss)[i] == stmt_view(
            #[trigger] ss[i],
        ) by {
            if i > 0 {
                assert(ss.drop_first()[i - 1] == ss[i]);
            }
        }
    }
}

pub proof fn lemma_exprs_view_skip(es: Seq<Expression>, i: int)
    requires
        0 <= i < es.len(),
    ensures
        exprs_view(es.skip(i)) == seq![expr_view(es[i])] + exprs_view(es.skip(i + 1)),
        exprs_view(es.skip(i)).len() == es.len() - i,
    decreases es.len() - i,
{
    assert(es.skip(i)[0] == es[i]);
    assert(es.skip(i).drop_first() =~= es.skip(i + 1));
    if i + 1 < es.len() {
        lemma_exprs_view_skip(es, i + 1);
    } else {
        assert(es.skip(i + 1) =~= Seq::<Expression>::empty());
    }
}

pub proof fn lemma_exprs_view_len(es: Seq<Expression>)
    ensures
        exprs_view(es).len() == es.len(),
        forall|i: int| 0 <= i < es.len() ==> exprs_view(es)[i] == expr_view(#[trigger] es[i]),
    decreases es.len(),
{
    if es.len() > 0 {
        lemma_exprs_view_len(es.drop_first());
        assert forall|i: int| 0 <= i < es.len() implies exprs_view(es)[i] == expr_view(
            #[trigger] es[i],
        ) by {
            if i > 0 {
                assert(es.drop_first()[i - 1] == es[i]);
            }
        }
    }
}

pub proof fn lemma_pairs_view_skip(ps: Seq<(Expression, Expression)>, i: int)
    requires
        0 <= i < ps.len(),
    ensures
        pairs_view(ps.skip(i)) == seq![(expr_view(ps[i].0), expr_view(ps[i].1))] + pairs_view(
            ps.skip(i + 1),
        ),
        pairs_view(ps.skip(i)).len() == ps.len() - i,
    decreases ps.len() - i,
{
    assert(ps.skip(i)[0] == ps[i]);
    assert(ps.skip(i).drop_first() =~= ps.skip(i + 1));
    if i + 1 < ps.len() {
        lemma_pairs_view_skip(ps, i + 1);
    } else {
        assert(ps.skip(i + 1) =~= Seq::<(Expression, Expression)>::empty());
    }
}

pub proof fn lemma_pairs_view_len(ps: Seq<(Expression, Expression)>)
    ensures
        pairs_view(ps).len() == ps.len(),
        forall|i: int| 0 <= i < ps.len() ==> pairs_view(ps)[i] == (
            expr_view(#[trigger] ps[i].0),
            expr_view(ps[i].1),
        ),
    decreases ps.len(),
{
    if ps.len() > 0 {
        lemma_pairs_view_len(ps.drop_first());
        assert forall|i: int| 0 <= i < ps.len() implies pairs_view(ps)[i] == (
            expr_view(#[trigger] ps[i].0),
            expr_view(ps[i].1),
        ) by {
            if i > 0 {
                assert(ps.drop_first()[i - 1] == ps[i]);
            }
        }
    }
}

impl Expression {
    /// Append the textual form of this expression.
    #[verifier::rlimit(100)]
    pub fn append_text(&self, out: &mut String)
        ensures
            final(out)@ == old(out)@ + expr_text(self@),
        decreases *self,
    {
        match self {
            Expression::Ident(s) => {
                out.append(s.as_str());
            }
            Expression::Number(x) => {
                append_int(out, *x);
            }
            Expression::String(s) => {
                out.append(s.as_str());
            }
            Expression::Prefix(p) => {
                out.append("(");
                out.append(p.operator.text());
                p.right.append_text(out);
                out.append(")");
                proof {
                    assert(out@ =~= old(out)@ + expr_text(self@));
                }
            }
            Expression::Infix(i) => {
                out.append("(");
                i.left.append_text(out);
                out.append(" ");
                out.append(i.operator.text());
                out.append(" ");
                i.right.append_text(out);
                out.append(")");
                proof {
                    assert(out@ =~= old(out)@ + expr_text(self@));
                }
            }
            Expression::Bool(b) => {
                if *b {
                    out.append("true");
                } else {
                    out.append("false");
                }
            }
            Expression::If(i) => {
                out.append("if (");
                i.condition.append_text(out);
                out.append(") {\n");
                append_block_text(&i.if_branch, out);
                out.append("}");
                match &i.else_branch {
                    Some(b) => {
                        out.append(" else {\n");
                        append_block_text(b, out);
                        out.append("}");
                    }
                    None => {}
                }
                proof {
                    assert(out@ =~= old(out)@ + expr_text(self@));
                }
            }
            Expression::Func(f) => {
                append_func_text(f, out);
                proof {
                    assert(out@ =~= old(out)@ + expr_text(self@));
                }
            }
            Expression::Call(c) => {
                c.func.append_text(out);
                out.append("(");
                append_expr_list_text(&c.arguments, out);
                out.append(")");
                proof {
                    assert(out@ =~= old(out)@ + expr_text(self@));
                }
            }
            Expression::Array(a) => {
                out.append("[");
                append_expr_list_text(&a.elements, out);
                out.append("]");
                proof {
                    assert(out@ =~= old(out)@ + expr_text(self@));
                }
            }
            Expression::Index(ix) => {
                out.append("(");
                ix.left.append_text(out);
                out.append("[");
                ix.index.append_text(out);
                out.append("])");
                proof {
                    assert(out@ =~= old(out)@ + expr_text(self@));
                }
            }
            Expression::Hash(h) => {
                out.append("{");
                append_pair_list_text(&h.pairs, out);
                out.append("}");
                proof {
                    assert(out@ =~= old(out)@ + expr_text(self@));
                }
            }
        }
    }

    /// The textual form of this expression.
    pub fn to_text(&self) -> (r: String)
        ensures
            r@ == expr_text(self@),
    {
        let mut out = String::new();
        self.append_text(&mut out);
        proof {
            assert(Seq::<char>::empty() + expr_text(self@) =~= expr_text(self@));
        }
        out
    }
}

proof fn lemma_idents_text_take(ps: Seq<Seq<char>>, i: int)
    requires
        0 <= i < ps.len(),
    ensures
        idents_text(ps.take(i + 1)) == idents_text(ps.take(i)) + ps[i],
    decreases i,
{
    if i == 0 {
        assert(ps.take(1) =~= seq![ps[0]]);
        assert(ps.take(0) =~= Seq::<Seq<char>>::empty());
        assert(seq![ps[0]].drop_first() =~= Seq::<Seq<char>>::empty());
        assert(idents_text(ps.take(1)) == ps[0] + idents_text(Seq::<Seq<char>>::empty()));
        assert(ps[0] + Seq::<char>::empty() =~= ps[0]);
        assert(idents_text(ps.take(1)) =~= ps[0]);
        assert(idents_text(ps.take(0)) + ps[0] =~= ps[0]);
    } else {
        assert(ps.take(i + 1)[0] == ps[0]);
        assert(ps.take(i + 1).drop_first() =~= ps.drop_first().take(i));
        assert(ps.take(i).drop_first() =~= ps.drop_first().take(i - 1));
        assert(ps.take(i)[0] == ps[0]);
        lemma_idents_text_take(ps.drop_first(), i - 1);
        assert(ps.drop_first()[i - 1] == ps[i]);
        assert(idents_text(ps.take(i + 1)) =~= ps[0] + idents_text(ps.drop_first().take(i)));
        assert(idents_text(ps.take(i)) + ps[i] =~= ps[0] + (idents_text(ps.drop_first().take(i - 1))
            + ps[i]));
    }
}

/// Append the textual form of a block body: each statement indented
/// by two spaces on a line of its own.
pub fn append_block_text(ss: &Vec<Statement>, out: &mut String)
    ensures
        final(out)@ == old(out)@ + block_text(stmts_view(ss@)),
    decreases ss,
{
    proof {
        assert(ss@.skip(0) =~= ss@);
    }
    let mut i: usize = 0;
    while i < ss.len()
        invariant
            i <= ss@.len(),
            out@ + block_text(stmts_view(ss@.skip(i as int))) == old(out)@ + block_text(
                stmts_view(ss@),
            ),
        decreases ss@.len() - i,
    {
        proof {
            lemma_stmts_view_skip(ss@, i as int);
            let cons = stmts_view(ss@.skip(i as int));
            assert(cons[0] == stmt_view(ss@[i as int]));
            assert(cons.drop_first() =~= stmts_view(ss@.skip(i + 1)));
        }
        out.append("  ");
        ss[i].append_text(out);
        out.append("\n");
        i = i + 1;
        proof {
            assert(out@ + block_text(stmts_view(ss@.skip(i as int))) =~= old(out)@ + block_text(
                stmts_view(ss@),
            ));
        }
    }
    proof {
        assert(ss@.skip(ss@.len() as int) =~= Seq::<Statement>::empty());
        assert(out@ =~= out@ + block_text(stmts_view(ss@.skip(ss@.len() as int))));
    }
}

/// Append expressions joined by a comma and a space.
fn append_expr_list_text(es: &Vec<Expression>, out: &mut String)
    ensures
        final(out)@ == old(out)@ + expr_list_text(exprs_view(es@)),
    decreases es,
{
    proof {
        assert(es@.skip(0) =~= es@);
    }
    let mut i: usize = 0;
    while i < es.len()
        invariant
            i <= es@.len(),
            out@ + expr_list_text(exprs_view(es@.skip(i as int))) == old(out)@ + expr_list_text(
                exprs_view(es@),
            ),
        decreases es@.len() - i,
    {
        proof {
            lemma_exprs_view_skip(es@, i as int);
            let cons = exprs_view(es@.skip(i as int));
            assert(cons[0] == expr_view(es@[i as int]));
            assert(cons.drop_first() =~= exprs_view(es@.skip(i + 1)));
        }
        es[i].append_text(out);
        if i != es.len() - 1 {
            out.append(", ");
        }
        i = i + 1;
        proof {
            assert(out@ + expr_list_text(exprs_view(es@.skip(i as int))) =~= old(out)@
                + expr_list_text(exprs_view(es@)));
        }
    }
    proof {
        assert(es@.skip(es@.len() as int) =~= Seq::<Expression>::empty());
        assert(out@ =~= out@ + expr_list_text(exprs_view(es@.skip(es@.len() as int))));
    }
}

/// Append key-value pairs, each as `key: value`, joined by a comma
/// and a space.
fn append_pair_list_text(ps: &Vec<(Expression, Expression)>, out: &mut String)
    ensures
        final(out)@ == old(out)@ + pair_list_text(pairs_view(ps@)),
    decreases ps,
{
    proof {
        assert(ps@.skip(0) =~= ps@);
    }
    let mut i: usize = 0;
    while i < ps.len()
        invariant
            i <= ps@.len(),
            out@ + pair_list_text(pairs_view(ps@.skip(i as int))) == old(out)@ + pair_list_text(
                pairs_view(ps@),
            ),
        decreases ps@.len() - i,
    {
        proof {
            lemma_pairs_view_skip(ps@, i as int);
            let cons = pairs_view(ps@.skip(i as int));
            assert(cons[0] == (expr_view(ps@[i as int].0), expr_view(ps@[i as int].1)));
            assert(cons.drop_first() =~= pairs_view(ps@.skip(i + 1)));
        }
        ps[i].0.append_text(out);
        out.append(": ");
        ps[i].1.append_text(out);
        if i != ps.len() - 1 {
            out.append(", ");
        }
        i = i + 1;
        proof {
            assert(out@ + pair_list_text(pairs_view(ps@.skip(i as int))) =~= old(out)@
                + pair_list_text(pairs_view(ps@)));
        }
    }
    proof {
        assert(ps@.skip(ps@.len() as int) =~= Seq::<(Expression, Expression)>::empty());
        assert(out@ =~= out@ + pair_list_text(pairs_view(ps@.skip(ps@.len() as int))));
    }
}

impl Statement {
    /// Append the textual form of this statement.
    pub fn append_text(&self, out: &mut String)
        ensures
            final(out)@ == old(out)@ + stmt_text(self@),
        decreases *self,
    {
        match self {
            Statement::Let(l) => {
                out.append("let ");
                out.append(l.ident.as_str());
                out.append(" = ");
                l.expr.append_text(out);
                out.append(";");
                proof {
                    assert(out@ =~= old(out)@ + stmt_text(self@));
                }
            }
            Statement::Return(r) => {
                out.append("return ");
                r.expr.append_text(out);
                out.append(";");
                proof {
                    assert(out@ =~= old(out)@ + stmt_text(self@));
                }
            }
            Statement::Expression(e) => {
                e.append_text(out);
            }
        }
    }

    /// The textual form of this statement.
    pub fn to_text(&self) -> (r: String)
        ensures
            r@ == stmt_text(self@),
    {
        let mut out = String::new();
        self.append_text(&mut out);
        proof {
            assert(Seq::<char>::empty() + stmt_text(self@) =~= stmt_text(self@));
        }
        out
    }
}

impl Program {
    /// The textual form of this program: each statement on a line of
    /// its own.
    pub fn to_text(&self) -> (r: String)
        ensures
            r@ == program_text(self@),
    {
        let mut out = String::new();
        let ghost start = out@;
        proof {
            assert(self.statements@.skip(0) =~= self.statements@);
        }
        let mut i: usize = 0;
        while i < self.statements.len()
            invariant
                i <= self.statements@.len(),
                out@ + program_text(stmts_view(self.statements@.skip(i as int))) == start
                    + program_text(stmts_view(self.statements@)),
            decreases self.statements@.len() - i,
        {
            proof {
                lemma_stmts_view_skip(self.statements@, i as int);
                let cons = stmts_view(self.statements@.skip(i as int));
                assert(cons[0] == stmt_view(self.statements@[i as int]));
                assert(cons.drop_first() =~= stmts_view(self.statements@.skip(i + 1)));
            }
            self.statements[i].append_text(&mut out);
            out.append("\n");
            i = i + 1;
            proof {
                assert(out@ + program_text(stmts_view(self.statements@.skip(i as int))) =~= start
                    + program_text(stmts_view(self.statements@)));
            }
        }
        proof {
            assert(self.statements@.skip(self.statements@.len() as int) =~= Seq::<
                Statement,
            >::empty());
            assert(out@ =~= out@ + program_text(stmts_view(self.statements@.skip(
                self.statements@.len() as int,
            ))));
            assert(start + program_text(stmts_view(self.statements@)) =~= program_text(
                stmts_view(self.statements@),
            ));
        }
        out
    }
}

} // verus!

verus! {

/// A deep copy of an expression; the copy has the same mathematical
/// mirror, so every contract stated over views carries over to it.
pub fn clone_expr(e: &Expression) -> (r: Expression)
    ensures
        r@ == e@,
    decreases *e,
{
    match e {
        Expression::Ident(s) => Expression::Ident(s.clone()),
        Expression::Number(x) => Expression::Number(*x),
        Expression::String(s) => Expression::String(s.clone()),
        Expression::Prefix(p) => Expression::Prefix(
            PrefixExpr { operator: p.operator, right: Box::new(clone_expr(&p.right)) },
        ),
        Expression::Infix(i) => Expression::Infix(
            InfixExpr {
                left: Box::new(clone_expr(&i.left)),
                operator: i.operator,
                right: Box::new(clone_expr(&i.right)),
            },
        ),
        Expression::Bool(b) => Expression::Bool(*b),
        Expression::If(i) => Expression::If(
            IfExpr {
                condition: Box::new(clone_expr(&i.condition)),
                if_branch: clone_stmts(&i.if_branch),
                else_branch: match &i.else_branch {
                    Some(b) => Some(clone_stmts(b)),
                    None => None,
                },
            },
        ),
        Expression::Func(f) => Expression::Func(clone_func(f)),
        Expression::Call(c) => Expression::Call(
            CallExpr { func: Box::new(clone_expr(&c.func)), arguments: clone_exprs(&c.arguments) },
        ),
        Expression::Array(a) => Expression::Array(ArrayExpr { elements: clone_exprs(&a.elements) }),
        Expression::Index(ix) => Expression::Index(
            IndexExpr { left: Box::new(clone_expr(&ix.left)), index: Box::new(clone_expr(&ix.index)) },
        ),
        Expression::Hash(h) => Expression::Hash(HashExpr { pairs: clone_pairs(&h.pairs) }),
    }
}

/// A deep copy of a statement.
pub fn clone_stmt(s: &Statement) -> (r: Statement)
    ensures
        r@ == s@,
    decreases *s,
{
    match s {
        Statement::Let(l) => Statement::Let(
            LetStmt { ident: l.ident.clone(), expr: clone_expr(&l.expr) },
        ),
        Statement::Return(r0) => Statement::Return(ReturnStmt { expr: clone_expr(&r0.expr) }),
        Statement::Expression(e) => Statement::Expression(clone_expr(e)),
    }
}

/// A deep copy of a statement list.
pub fn clone_stmts(ss: &Vec<Statement>) -> (r: Vec<Statement>)
    ensures
        stmts_view(r@) == stmts_view(ss@),
        r@.len() == ss@.len(),
    decreases ss,
{
    let mut out: Vec<Statement> = Vec::new();
    let mut i: usize = 0;
    while i < ss.len()
        invariant
            i <= ss@.len(),
            out@.len() == i,
            forall|j: int| 0 <= j < i ==> stmt_view(#[trigger] out@[j]) == stmt_view(ss@[j]),
        decreases ss@.len() - i,
    {
        out.push(clone_stmt(&ss[i]));
        i = i + 1;
    }
    proof {
        lemma_stmts_view_len(out@);
        lemma_stmts_view_len(ss@);
        assert forall|j: int| 0 <= j < out@.len() implies stmts_view(out@)[j] == stmts_view(
            ss@,
        )[j] by {
            assert(stmt_view(out@[j]) == stmt_view(ss@[j]));
        }
        assert(stmts_view(out@) =~= stmts_view(ss@));
    }
    out
}

/// A deep copy of an expression list.
pub fn clone_exprs(es: &Vec<Expression>) -> (r: Vec<Expression>)
    ensures
        exprs_view(r@) == exprs_view(es@),
        r@.len() == es@.len(),
    decreases es,
{
    let mut out: Vec<Expression> = Vec::new();
    let mut i: usize = 0;
    while i < es.len()
        invariant
            i <= es@.len(),
            out@.len() == i,
            forall|j: int| 0 <= j < i ==> expr_view(#[trigger] out@[j]) == expr_view(es@[j]),
        decreases es@.len() - i,
    {
        out.push(clone_expr(&es[i]));
        i = i + 1;
    }
    proof {
        lemma_exprs_view_len(out@);
        lemma_exprs_view_len(es@);
        assert forall|j: int| 0 <= j < out@.len() implies exprs_view(out@)[j] == exprs_view(
            es@,
        )[j] by {
            assert(expr_view(out@[j]) == expr_view(es@[j]));
        }
        assert(exprs_view(out@) =~= exprs_view(es@));
    }
    out
}

/// A deep copy of a key-value pair list.
pub fn clone_pairs(ps: &Vec<(Expression, Expression)>) -> (r: Vec<(Expression, Expression)>)
    ensures
        pairs_view(r@) == pairs_view(ps@),
        r@.len() == ps@.len(),
    decreases ps,
{
    let mut out: Vec<(Expression, Expression)> = Vec::new();
    let mut i: usize = 0;
    while i < ps.len()
        invariant
            i <= ps@.len(),
            out@.len() == i,
            forall|j: int| 0 <= j < i ==> (
                expr_view(#[trigger] out@[j].0),
                expr_view(out@[j].1),
            ) == (expr_view(ps@[j].0), expr_view(ps@[j].1)),
        decreases ps@.len() - i,
    {
        let k = clone_expr(&ps[i].0);
        let v = clone_expr(&ps[i].1);
        out.push((k, v));
        i = i + 1;
    }
    proof {
        lemma_pairs_view_len(out@);
        lemma_pairs_view_len(ps@);
        assert forall|j: int| 0 <= j < out@.len() implies pairs_view(out@)[j] == pairs_view(
            ps@,
        )[j] by {
            assert((expr_view(out@[j].0), expr_view(out@[j].1)) == (
                expr_view(ps@[j].0),
                expr_view(ps@[j].1),
            ));
        }
        assert(pairs_view(out@) =~= pairs_view(ps@));
    }
    out
}

/// A deep copy of a parameter name list.
pub fn clone_idents(ps: &Vec<Ident>) -> (r: Vec<Ident>)
    ensures
        params_view(r@) == params_view(ps@),
        r@.len() == ps@.len(),
{
    let mut out: Vec<Ident> = Vec::new();
    let mut i: usize = 0;
    while i < ps.len()
        invariant
            i <= ps@.len(),
            out@.len() == i,
            forall|j: int| 0 <= j < i ==> #[trigger] out@[j]@ == ps@[j]@,
        decreases ps@.len() - i,
    {
        out.push(ps[i].clone());
        i = i + 1;
    }
    proof {
        assert(params_view(out@) =~= params_view(ps@));
    }
    out
}

/// A deep copy of a function literal.
pub fn clone_func(f: &FuncExpr) -> (r: FuncExpr)
    ensures
        params_view(r.params@) == params_view(f.params@),
        stmts_view(r.body@) == stmts_view(f.body@),
    decreases *f,
{
    FuncExpr { params: clone_idents(&f.params), body: clone_stmts(&f.body) }
}

} // verus!

verus! {

/// Append the textual form of a function literal.
pub fn append_func_text(f: &FuncExpr, out: &mut String)
    ensures
        final(out)@ == old(out)@ + expr_text(ExprV::Func(params_view(f.params@), stmts_view(f.body@))),
    decreases *f,
{
    out.append("fn (");
    let ghost pv = params_view(f.params@);
    let mut i: usize = 0;
    while i < f.params.len()
        invariant
            i <= f.params@.len(),
            pv == params_view(f.params@),
            out@ == old(out)@ + "fn ("@ + idents_text(pv.take(i as int)),
        decreases f.params@.len() - i,
    {
        proof {
            lemma_idents_text_take(pv, i as int);
        }
        out.append(f.params[i].as_str());
        i = i + 1;
        proof {
            assert(out@ =~= old(out)@ + "fn ("@ + idents_text(pv.take(i as int)));
        }
    }
    proof {
        assert(pv.take(f.params@.len() as int) =~= pv);
    }
    out.append(") {\n");
    append_block_text(&f.body, out);
    out.append("}");
    proof {
        assert(out@ =~= old(out)@ + expr_text(ExprV::Func(params_view(f.params@), stmts_view(f.body@))));
    }
}

/// Whether two expressions have the same mathematical mirror.
pub fn expr_eq(a: &Expression, b: &Expression) -> (r: bool)
    ensures
        r == (a@ == b@),
    decreases *a,
{
    match (a, b) {
        (Expression::Ident(x), Expression::Ident(y)) => x.eq(y),
        (Expression::Number(x), Expression::Number(y)) => *x == *y,
        (Expression::String(x), Expression::String(y)) => x.eq(y),
        (Expression::Bool(x), Expression::Bool(y)) => *x == *y,
        (Expression::Prefix(x), Expression::Prefix(y)) => {
            let ops = x.operator == y.operator;
            ops && expr_eq(&x.right, &y.right)
        }
        (Expression::Infix(x), Expression::Infix(y)) => {
            let ops = x.operator == y.operator;
            ops && expr_eq(&x.left, &y.left) && expr_eq(&x.right, &y.right)
        }
        (Expression::If(x), Expression::If(y)) => {
            if !expr_eq(&x.condition, &y.condition) {
                return false;
            }
            if !stmts_eq(&x.if_branch, &y.if_branch) {
                return false;
            }
            match (&x.else_branch, &y.else_branch) {
                (Some(xb), Some(yb)) => stmts_eq(xb, yb),
                (None, None) => true,
                _ => false,
            }
        }
        (Expression::Func(x), Expression::Func(y)) => {
            idents_eq(&x.params, &y.params) && stmts_eq(&x.body, &y.body)
        }
        (Expression::Call(x), Expression::Call(y)) => {
            expr_eq(&x.func, &y.func) && exprs_eq(&x.arguments, &y.arguments)
        }
        (Expression::Array(x), Expression::Array(y)) => exprs_eq(&x.elements, &y.elements),
        (Expression::Index(x), Expression::Index(y)) => {
            expr_eq(&x.left, &y.left) && expr_eq(&x.index, &y.index)
        }
        (Expression::Hash(x), Expression::Hash(y)) => pairs_eq(&x.pairs, &y.pairs),
        _ => false,
    }
}

/// Whether two statements have the same mathematical mirror.
pub fn stmt_eq(a: &Statement, b: &Statement) -> (r: bool)
    ensures
        r == (a@ == b@),
    decreases *a,
{
    match (a, b) {
        (Statement::Let(x), Statement::Let(y)) => x.ident.eq(&y.ident) && expr_eq(&x.expr, &y.expr),
        (Statement::Return(x), Statement::Return(y)) => expr_eq(&x.expr, &y.expr),
        (Statement::Expression(x), Statement::Expression(y)) => expr_eq(x, y),
        _ => false,
    }
}

/// Whether two statement lists have the same mathematical mirror.
#[verifier::loop_isolation(false)]
pub fn stmts_eq(a: &Vec<Statement>, b: &Vec<Statement>) -> (r: bool)
    ensures
        r == (stmts_view(a@) == stmts_view(b@)),
    decreases a,
{
    proof {
        lemma_stmts_view_len(a@);
        lemma_stmts_view_len(b@);
    }
    if a.len() != b.len() {
        proof {
            assert(stmts_view(a@).len() != stmts_view(b@).len());
        }
        return false;
    }
    let mut i: usize = 0;
    while i < a.len()
        invariant
            i <= a@.len(),
            a@.len() == b@.len(),
            forall|k: int| 0 <= k < i ==> stmt_view(#[trigger] a@[k]) == stmt_view(b@[k]),
        decreases a@.len() - i,
    {
        if !stmt_eq(&a[i], &b[i]) {
            proof {
                assert(stmts_view(a@)[i as int] != stmts_view(b@)[i as int]);
            }
            return false;
        }
        i = i + 1;
    }
    proof {
        assert forall|k: int| 0 <= k < a@.len() implies stmts_view(a@)[k] == stmts_view(
            b@,
        )[k] by {
            assert(stmt_view(a@[k]) == stmt_view(b@[k]));
        }
        assert(stmts_view(a@) =~= stmts_view(b@));
    }
    true
}

/// Whether two expression lists have the same mathematical mirror.
#[verifier::loop_isolation(false)]
pub fn exprs_eq(a: &Vec<Expression>, b: &Vec<Expression>) -> (r: bool)
    ensures
        r == (exprs_view(a@) == exprs_view(b@)),
    decreases a,
{
    proof {
        lemma_exprs_view_len(a@);
        lemma_exprs_view_len(b@);
    }
    if a.len() != b.len() {
        proof {
            assert(exprs_view(a@).len() != exprs_view(b@).len());
        }
        return false;
    }
    let mut i: usize = 0;
    while i < a.len()
        invariant
            i <= a@.len(),
            a@.len() == b@.len(),
            forall|k: int| 0 <= k < i ==> expr_view(#[trigger] a@[k]) == expr_view(b@[k]),
        decreases a@.len() - i,
    {
        if !expr_eq(&a[i], &b[i]) {
            proof {
                assert(exprs_view(a@)[i as int] != exprs_view(b@)[i as int]);
            }
            return false;
        }
        i = i + 1;
    }
    proof {
        assert forall|k: int| 0 <= k < a@.len() implies exprs_view(a@)[k] == exprs_view(
            b@,
        )[k] by {
            assert(expr_view(a@[k]) == expr_view(b@[k]));
        }
        assert(exprs_view(a@) =~= exprs_view(b@));
    }
    true
}

/// Whether two key-value pair lists have the same mathematical
/// mirror.
#[verifier::loop_isolation(false)]
pub fn pairs_eq(a: &Vec<(Expression, Expression)>, b: &Vec<(Expression, Expression)>) -> (r: bool)
    ensures
        r == (pairs_view(a@) == pairs_view(b@)),
    decreases a,
{
    proof {
        lemma_pairs_view_len(a@);
        lemma_pairs_view_len(b@);
    }
    if a.len() != b.len() {
        proof {
            assert(pairs_view(a@).len() != pairs_view(b@).len());
        }
        return false;
    }
    let mut i: usize = 0;
    while i < a.len()
        invariant
            i <= a@.len(),
            a@.len() == b@.len(),
            forall|k: int| 0 <= k < i ==> (
                expr_view(#[trigger] a@[k].0),
                expr_view(a@[k].1),
            ) == (expr_view(b@[k].0), expr_view(b@[k].1)),
        decreases a@.len() - i,
    {
        if !expr_eq(&a[i].0, &b[i].0) {
            proof {
                assert(pairs_view(a@)[i as int] != pairs_view(b@)[i as int]);
            }
            return false;
        }
        if !expr_eq(&a[i].1, &b[i].1) {
            proof {
                assert(pairs_view(a@)[i as int] != pairs_view(b@)[i as int]);
            }
            return false;
        }
        i = i + 1;
    }
    proof {
        assert forall|k: int| 0 <= k < a@.len() implies pairs_view(a@)[k] == pairs_view(
            b@,
        )[k] by {
            assert((expr_view(a@[k].0), expr_view(a@[k].1)) == (
                expr_view(b@[k].0),
                expr_view(b@[k].1),
            ));
        }
        assert(pairs_view(a@) =~= pairs_view(b@));
    }
    true
}

/// Whether two parameter lists spell the same names.
#[verifier::loop_isolation(false)]
pub fn idents_eq(a: &Vec<Ident>, b: &Vec<Ident>) -> (r: bool)
    ensures
        r == (params_view(a@) == params_view(b@)),
{
    if a.len() != b.len() {
        proof {
            assert(params_view(a@).len() != params_view(b@).len());
        }
        return false;
    }
    let mut i: usize = 0;
    while i < a.len()
        invariant
            i <= a@.len(),
            a@.len() == b@.len(),
            forall|k: int| 0 <= k < i ==> #[trigger] a@[k]@ == b@[k]@,
        decreases a@.len() - i,
    {
        if !a[i].eq(&b[i]) {
            proof {
                assert(params_view(a@)[i as int] != params_view(b@)[i as int]);
            }
            return false;
        }
        i = i + 1;
    }
    proof {
        assert(params_view(a@) =~= params_view(b@));
    }
    true
}

} // verus!
