//! The abstract syntax tree: statements and expressions, their mathematical
//! views, and the fully parenthesized text rendering used by diagnostics and
//! by the round-trip tests.

use crate::strutil::{int_rep, push_dec_i64};
use vstd::prelude::*;
use vstd::seq_lib::lemma_concat_associative;

verus! {

/// A parsed program: its statements in source order.
pub struct Program {
    pub statements: Vec<Statement>,
}

/// A statement node.
pub enum Statement {
    LetStatement { name: Expression, value: Expression },
    ReturnStatement { return_value: Expression },
    ExpressionStatement { expression: Expression },
    BlockStatement { statements: Vec<Statement> },
}

/// An expression node.
pub enum Expression {
    Identifier { value: String },
    IntegerLiteral { value: i64 },
    StringLiteral { value: String },
    PrefixExpression { operator: String, right: Box<Expression> },
    InfixExpression { left: Box<Expression>, operator: String, right: Box<Expression> },
    Boolean { value: bool },
    IfExpression {
        condition: Box<Expression>,
        consequence: Box<Statement>,
        alternative: Option<Box<Statement>>,
    },
    FunctionLiteral { parameters: Vec<Expression>, body: Box<Statement> },
    CallExpression { function: Box<Expression>, arguments: Vec<Expression> },
}

/// The mathematical form of a statement.
pub enum StmtV {
    Let { name: Box<ExprV>, value: Box<ExprV> },
    Return { value: Box<ExprV> },
    Expr { expression: Box<ExprV> },
    Block { statements: Seq<StmtV> },
}

/// The mathematical form of an expression.
pub enum ExprV {
    Ident { name: Seq<char> },
    Int { value: int },
    Str { value: Seq<char> },
    Prefix { op: Seq<char>, right: Box<ExprV> },
    Infix { left: Box<ExprV>, op: Seq<char>, right: Box<ExprV> },
    Bool { value: bool },
    If { cond: Box<ExprV>, cons: Box<StmtV>, alt: Option<Box<StmtV>> },
    Func { params: Seq<ExprV>, body: Box<StmtV> },
    Call { func: Box<ExprV>, args: Seq<ExprV> },
}

pub open spec fn view_stmt(s: Statement) -> StmtV
    decreases s,
{
    match s {
        Statement::LetStatement { name, value } => StmtV::Let {
            name: Box::new(view_expr(name)),
            value: Box::new(view_expr(value)),
        },
        Statement::ReturnStatement { return_value } => StmtV::Return {
            value: Box::new(view_expr(return_value)),
        },
        Statement::ExpressionStatement { expression } => StmtV::Expr {
            expression: Box::new(view_expr(expression)),
        },
        Statement::BlockStatement { statements } => StmtV::Block {
            statements: view_stmts(statements@),
        },
    }
}

pub open spec fn view_stmts(v: Seq<Statement>) -> Seq<StmtV>
    decreases v,
{
    if v.len() == 0 {
        Seq::empty()
    } else {
        seq![view_stmt(v[0])] + view_stmts(v.drop_first())
    }
}

pub open spec fn view_expr(e: Expression) -> ExprV
    decreases e,
{
    match e {
        Expression::Identifier { value } => ExprV::Ident { name: value@ },
        Expression::IntegerLiteral { value } => ExprV::Int { value: value as int },
        Expression::StringLiteral { value } => ExprV::Str { value: value@ },
        Expression::PrefixExpression { operator, right } => ExprV::Prefix {
            op: operator@,
            right: Box::new(view_expr(*right)),
        },
        Expression::InfixExpression { left, operator, right } => ExprV::Infix {
            left: Box::new(view_expr(*left)),
            op: operator@,
            right: Box::new(view_expr(*right)),
        },
        Expression::Boolean { value } => ExprV::Bool { value },
        Expression::IfExpression { condition, consequence, alternative } => ExprV::If {
            cond: Box::new(view_expr(*condition)),
            cons: Box::new(view_stmt(*consequence)),
            alt: match alternative {
                Some(alt) => Some(Box::new(view_stmt(*alt))),
                None => None,
            },
        },
        Expression::FunctionLiteral { parameters, body } => ExprV::Func {
            params: view_exprs(parameters@),
            body: Box::new(view_stmt(*body)),
        },
        Expression::CallExpression { function, arguments } => ExprV::Call {
            func: Box::new(view_expr(*function)),
            args: view_exprs(arguments@),
        },
    }
}

pub open spec fn view_exprs(v: Seq<Expression>) -> Seq<ExprV>
    decreases v,
{
    if v.len() == 0 {
        Seq::empty()
    } else {
        seq![view_expr(v[0])] + view_exprs(v.drop_first())
    }
}

pub proof fn lemma_view_stmts(v: Seq<Statement>)
    ensures
        view_stmts(v).len() == v.len(),
        forall|i: int| 0 <= i < v.len() ==> view_stmts(v)[i] == view_stmt(v[i]),
    decreases v,
{
    if v.len() > 0 {
        lemma_view_stmts(v.drop_first());
    }
}

pub proof fn lemma_view_exprs(v: Seq<Expression>)
    ensures
        view_exprs(v).len() == v.len(),
        forall|i: int| 0 <= i < v.len() ==> view_exprs(v)[i] == view_expr(v[i]),
    decreases v,
{
    if v.len() > 0 {
        lemma_view_exprs(v.drop_first());
    }
}

impl View for Statement {
    type V = StmtV;

    open spec fn view(&self) -> StmtV {
        view_stmt(*self)
    }
}

impl View for Expression {
    type V = ExprV;

    open spec fn view(&self) -> ExprV {
        view_expr(*self)
    }
}

impl View for Program {
    type V = Seq<StmtV>;

    open spec fn view(&self) -> Seq<StmtV> {
        view_stmts(self.statements@)
    }
}

/// The rendering of a statement.
pub open spec fn render_stmt(s: StmtV) -> Seq<char>
    decreases s, 1int,
{
    match s {
        StmtV::Let { name, value } => "let "@ + render_expr(*name) + " = "@ + render_expr(*value)
            + ";"@,
        StmtV::Return { value } => "return "@ + render_expr(*value) + ";"@,
        StmtV::Expr { expression } => render_expr(*expression),
        StmtV::Block { statements } => "{\n"@ + render_block_body(statements) + "}"@,
    }
}

/// The body lines of a block: each statement tab-indented on its own line.
pub open spec fn render_block_body(ss: Seq<StmtV>) -> Seq<char>
    decreases ss, 2int,
{
    if ss.len() == 0 {
        Seq::empty()
    } else {
        seq!['\t'] + render_stmt(ss[0]) + seq!['\n'] + render_block_body(ss.drop_first())
    }
}

/// The rendering of an expression, fully parenthesized.
pub open spec fn render_expr(e: ExprV) -> Seq<char>
    decreases e, 1int,
{
    match e {
        ExprV::Ident { name } => name,
        ExprV::Int { value } => int_rep(value),
        ExprV::Str { value } => seq!['"'] + value + seq!['"'],
        ExprV::Prefix { op, right } => seq!['('] + op + render_expr(*right) + seq![')'],
        ExprV::Infix { left, op, right } => seq!['('] + render_expr(*left) + seq![' '] + op + seq![
            ' ',
        ] + render_expr(*right) + seq![')'],
        ExprV::Bool { value } => if value {
            "true"@
        } else {
            "false"@
        },
        ExprV::If { cond, cons, alt } => match alt {
            Some(alt) => "if ("@ + render_expr(*cond) + ") "@ + render_stmt(*cons) + " else "@
                + render_stmt(*alt),
            None => "if ("@ + render_expr(*cond) + ") "@ + render_stmt(*cons),
        },
        ExprV::Func { params, body } => "fn ("@ + render_joined(params) + ") "@ + render_stmt(
            *body,
        ),
        ExprV::Call { func, args } => render_expr(*func) + seq!['('] + render_joined(args) + seq![
            ')',
        ],
    }
}

/// A comma-separated expression list.
pub open spec fn render_joined(es: Seq<ExprV>) -> Seq<char>
    decreases es, 2int,
{
    if es.len() == 0 {
        Seq::empty()
    } else {
        render_expr(es[0]) + render_joined_rest(es.drop_first())
    }
}

pub open spec fn render_joined_rest(es: Seq<ExprV>) -> Seq<char>
    decreases es, 3int,
{
    if es.len() == 0 {
        Seq::empty()
    } else {
        ", "@ + render_expr(es[0]) + render_joined_rest(es.drop_first())
    }
}

/// The rendering of a whole program: each statement on its own line.
pub open spec fn render_program(ss: Seq<StmtV>) -> Seq<char>
    decreases ss,
{
    if ss.len() == 0 {
        Seq::empty()
    } else {
        render_stmt(ss[0]) + seq!['\n'] + render_program(ss.drop_first())
    }
}

pub(crate) fn push_stmt_string(out: &mut String, s: &Statement)
    ensures
        final(out)@ == old(out)@ + render_stmt(s@),
    decreases *s, 1int,
{
    match s {
        Statement::LetStatement { name, value } => {
            out.append("let ");
            push_expr_string(out, name);
            out.append(" = ");
            push_expr_string(out, value);
            out.append(";");
            proof {
                assert(final(out)@ =~= old(out)@ + render_stmt(s@));
            }
        },
        Statement::ReturnStatement { return_value } => {
            out.append("return ");
            push_expr_string(out, return_value);
            out.append(";");
            proof {
                assert(final(out)@ =~= old(out)@ + render_stmt(s@));
            }
        },
        Statement::ExpressionStatement { expression } => {
            push_expr_string(out, expression);
        },
        Statement::BlockStatement { statements } => {
            out.append("{\n");
            push_block_lines(out, statements);
            out.append("}");
            proof {
                assert(final(out)@ =~= old(out)@ + render_stmt(s@));
            }
        },
    }
}

fn push_block_lines(out: &mut String, statements: &Vec<Statement>)
    ensures
        final(out)@ == old(out)@ + render_block_body(view_stmts(statements@)),
    decreases statements@, 9int,
{
    let n = statements.len();
    let mut i: usize = 0;
    proof {
        lemma_view_stmts(statements@);
        assert(view_stmts(statements@).take(0) =~= Seq::empty());
    }
    while i < n
        invariant
            i <= n,
            n == statements@.len(),
            view_stmts(statements@).len() == n,
            forall|j: int| 0 <= j < n ==> view_stmts(statements@)[j] == view_stmt(statements@[j]),
            out@ == old(out)@ + render_block_body(view_stmts(statements@).take(i as int)),
        decreases n - i,
    {
        proof {
            reveal_strlit("\t");
            reveal_strlit("\n");
        }
        out.append("\t");
        push_stmt_string(out, &statements[i]);
        out.append("\n");
        proof {
            let svs = view_stmts(statements@);
            assert(svs.take(i + 1).drop_last() =~= svs.take(i as int));
            assert(svs.take(i + 1).last() == svs[i as int]);
            lemma_render_block_body_snoc(svs.take(i + 1));
            assert(out@ =~= old(out)@ + render_block_body(svs.take(i + 1)));
        }
        i += 1;
    }
    proof {
        assert(view_stmts(statements@).take(n as int) =~= view_stmts(statements@));
    }
}

proof fn lemma_render_block_body_snoc(ss: Seq<StmtV>)
    requires
        ss.len() > 0,
    ensures
        render_block_body(ss) == render_block_body(ss.drop_last()) + seq!['\t'] + render_stmt(
            ss.last(),
        ) + seq!['\n'],
    decreases ss,
{
    if ss.len() == 1 {
        assert(ss.drop_last() =~= Seq::empty());
        assert(render_block_body(ss) =~= render_block_body(ss.drop_last()) + seq!['\t']
            + render_stmt(ss.last()) + seq!['\n']);
    } else {
        lemma_render_block_body_snoc(ss.drop_first());
        assert(ss.drop_last().len() > 0);
        assert(ss.drop_last().drop_first() =~= ss.drop_first().drop_last());
        assert(ss.drop_last()[0] == ss[0]);
        assert(ss.drop_first().last() == ss.last());
        assert(render_block_body(ss) == seq!['\t'] + render_stmt(ss[0]) + seq!['\n']
            + render_block_body(ss.drop_first()));
        assert(render_block_body(ss.drop_last()) == seq!['\t'] + render_stmt(ss[0]) + seq!['\n']
            + render_block_body(ss.drop_first().drop_last()));
        assert(render_block_body(ss) =~= render_block_body(ss.drop_last()) + seq!['\t']
            + render_stmt(ss.last()) + seq!['\n']);
    }
}

fn push_expr_string(out: &mut String, e: &Expression)
    ensures
        final(out)@ == old(out)@ + render_expr(e@),
    decreases *e, 1int,
{
    match e {
        Expression::Identifier { value } => {
            out.append(value.as_str());
        },
        Expression::IntegerLiteral { value } => {
            push_dec_i64(out, *value);
        },
        Expression::StringLiteral { value } => {
            out.append("\"");
            out.append(value.as_str());
            out.append("\"");
            proof {
                reveal_strlit("\"");
                assert("\""@ =~= seq!['"']);
                assert(final(out)@ =~= old(out)@ + render_expr(e@));
            }
        },
        Expression::PrefixExpression { operator, right } => {
            out.append("(");
            out.append(operator.as_str());
            push_expr_string(out, right);
            out.append(")");
            proof {
                reveal_strlit("(");
                reveal_strlit(")");
                assert("("@ =~= seq!['(']);
                assert(")"@ =~= seq![')']);
                assert(final(out)@ =~= old(out)@ + render_expr(e@));
            }
        },
        Expression::InfixExpression { left, operator, right } => {
            out.append("(");
            push_expr_string(out, left);
            out.append(" ");
            out.append(operator.as_str());
            out.append(" ");
            push_expr_string(out, right);
            out.append(")");
            proof {
                reveal_strlit("(");
                reveal_strlit(")");
                reveal_strlit(" ");
                assert("("@ =~= seq!['(']);
                assert(" "@ =~= seq![' ']);
                assert(")"@ =~= seq![')']);
                assert(final(out)@ =~= old(out)@ + render_expr(e@));
            }
        },
        Expression::Boolean { value } => {
            if *value {
                out.append("true");
            } else {
                out.append("false");
            }
        },
        Expression::IfExpression { condition, consequence, alternative } => {
            out.append("if (");
            push_expr_string(out, condition);
            out.append(") ");
            push_stmt_string(out, consequence);
            match alternative {
                Some(alt) => {
                    out.append(" else ");
                    push_stmt_string(out, alt);
                },
                None => {},
            }
            proof {
                assert(final(out)@ =~= old(out)@ + render_expr(e@));
            }
        },
        Expression::FunctionLiteral { parameters, body } => {
            out.append("fn (");
            push_joined_exprs(out, parameters);
            out.append(") ");
            push_stmt_string(out, body);
            proof {
                assert(final(out)@ =~= old(out)@ + render_expr(e@));
            }
        },
        Expression::CallExpression { function, arguments } => {
            push_expr_string(out, function);
            out.append("(");
            push_joined_exprs(out, arguments);
            out.append(")");
            proof {
                reveal_strlit("(");
                reveal_strlit(")");
                assert("("@ =~= seq!['(']);
                assert(")"@ =~= seq![')']);
                assert(final(out)@ =~= old(out)@ + render_expr(e@));
            }
        },
    }
}

pub(crate) fn push_joined_exprs(out: &mut String, es: &Vec<Expression>)
    ensures
        final(out)@ == old(out)@ + render_joined(view_exprs(es@)),
    decreases es@, 2int,
{
    proof {
        lemma_view_exprs(es@);
    }
    let n = es.len();
    if n == 0 {
        proof {
            assert(final(out)@ =~= old(out)@ + render_joined(view_exprs(es@)));
        }
        return ;
    }
    push_expr_string(out, &es[0]);
    let mut i: usize = 1;
    while i < n
        invariant
            1 <= i <= n,
            n == es@.len(),
            view_exprs(es@).len() == n,
            forall|j: int| 0 <= j < n ==> view_exprs(es@)[j] == view_expr(es@[j]),
            out@ == old(out)@ + render_expr(view_exprs(es@)[0]) + joined_rest_take(
                view_exprs(es@),
                i as int,
            ),
        decreases n - i,
    {
        out.append(", ");
        push_expr_string(out, &es[i]);
        proof {
            let evs = view_exprs(es@);
            lemma_joined_rest_snoc(evs, i + 1);
            assert(out@ =~= old(out)@ + render_expr(evs[0]) + joined_rest_take(evs, i + 1));
        }
        i += 1;
    }
    proof {
        let evs = view_exprs(es@);
        lemma_joined_rest_full(evs);
        assert(final(out)@ =~= old(out)@ + render_joined(evs));
    }
}

/// The rendering of elements `1 .. i` of a list, each preceded by a comma.
pub open spec fn joined_rest_take(es: Seq<ExprV>, i: int) -> Seq<char>
    decreases i,
{
    if i <= 1 {
        Seq::empty()
    } else {
        joined_rest_take(es, i - 1) + ", "@ + render_expr(es[i - 1])
    }
}

proof fn lemma_joined_rest_snoc(es: Seq<ExprV>, i: int)
    requires
        2 <= i,
    ensures
        joined_rest_take(es, i) == joined_rest_take(es, i - 1) + ", "@ + render_expr(es[i - 1]),
{
}

proof fn lemma_joined_rest_rel(es: Seq<ExprV>, i: int)
    requires
        1 <= i <= es.len(),
    ensures
        render_joined_rest(es.subrange(1, i)) =~= joined_rest_take(es, i),
    decreases i,
{
    if i == 1 {
        assert(es.subrange(1, 1) =~= Seq::empty());
    } else {
        lemma_joined_rest_rel(es, i - 1);
        lemma_joined_rest_snoc_def(es.subrange(1, i));
        assert(es.subrange(1, i).drop_last() =~= es.subrange(1, i - 1));
        assert(es.subrange(1, i).last() == es[i - 1]);
    }
}

proof fn lemma_joined_rest_snoc_def(es: Seq<ExprV>)
    requires
        es.len() > 0,
    ensures
        render_joined_rest(es) == render_joined_rest(es.drop_last()) + ", "@ + render_expr(
            es.last(),
        ),
    decreases es,
{
    reveal_strlit(", ");
    if es.len() == 1 {
        assert(es.drop_first() =~= Seq::<ExprV>::empty());
        assert(es.drop_last() =~= Seq::<ExprV>::empty());
        assert(render_joined_rest(Seq::<ExprV>::empty()) == Seq::<char>::empty());
        assert(render_joined_rest(es) == ", "@ + render_expr(es[0]) + render_joined_rest(
            es.drop_first(),
        ));
        assert(es.last() == es[0]);
        assert(render_joined_rest(es) =~= render_joined_rest(es.drop_last()) + ", "@ + render_expr(
            es.last(),
        ));
    } else {
        lemma_joined_rest_snoc_def(es.drop_first());
        let a: Seq<char> = ", "@;
        let x0 = render_expr(es[0]);
        let r = render_joined_rest(es.drop_first().drop_last());
        let xl = render_expr(es.last());
        assert(es.drop_last().len() > 0);
        assert(es.drop_last().drop_first() =~= es.drop_first().drop_last());
        assert(es.drop_last()[0] == es[0]);
        assert(es.drop_first().last() == es.last());
        assert(render_joined_rest(es) == a + x0 + render_joined_rest(es.drop_first()));
        assert(render_joined_rest(es.drop_first()) == r + a + xl);
        assert(render_joined_rest(es.drop_last()) == a + x0 + r);
        lemma_concat_associative(a + x0, r + a, xl);
        lemma_concat_associative(a + x0, r, a);
        assert(render_joined_rest(es) =~= render_joined_rest(es.drop_last()) + a + xl);
    }
}

proof fn lemma_joined_rest_full(es: Seq<ExprV>)
    requires
        es.len() > 0,
    ensures
        render_joined(es) == render_expr(es[0]) + joined_rest_take(es, es.len() as int),
{
    lemma_joined_rest_rel(es, es.len() as int);
    assert(es.drop_first() =~= es.subrange(1, es.len() as int));
}

impl Statement {
    /// The text rendering of this statement.
    pub fn string(&self) -> (r: String)
        ensures
            r@ == render_stmt(self@),
    {
        let mut out = String::new();
        push_stmt_string(&mut out, self);
        proof {
            assert(Seq::<char>::empty() + render_stmt(self@) =~= render_stmt(self@));
        }
        out
    }
}

impl Expression {
    /// The text rendering of this expression.
    pub fn string(&self) -> (r: String)
        ensures
            r@ == render_expr(self@),
    {
        let mut out = String::new();
        push_expr_string(&mut out, self);
        proof {
            assert(Seq::<char>::empty() + render_expr(self@) =~= render_expr(self@));
        }
        out
    }
}

impl Program {
    /// The text rendering of the whole program, one statement per line.
    pub fn string(&self) -> (r: String)
        ensures
            r@ == render_program(self@),
    {
        let mut out = String::new();
        let n = self.statements.len();
        let mut i: usize = 0;
        proof {
            lemma_view_stmts(self.statements@);
        }
        proof {
            reveal_strlit("\n");
        }
        while i < n
            invariant
                i <= n,
                n == self.statements@.len(),
                view_stmts(self.statements@).len() == n,
                forall|j: int| 0 <= j < n ==> view_stmts(self.statements@)[j] == view_stmt(
                    self.statements@[j],
                ),
                out@ == render_program(view_stmts(self.statements@).take(i as int)),
            decreases n - i,
        {
            proof {
                reveal_strlit("\n");
            }
            push_stmt_string(&mut out, &self.statements[i]);
            out.append("\n");
            proof {
                let svs = view_stmts(self.statements@);
                lemma_render_program_snoc(svs.take(i + 1));
                assert(svs.take(i + 1).drop_last() =~= svs.take(i as int));
                assert(out@ =~= render_program(svs.take(i + 1)));
            }
            i += 1;
        }
        proof {
            assert(view_stmts(self.statements@).take(n as int) =~= view_stmts(self.statements@));
        }
        out
    }
}

proof fn lemma_render_program_snoc(ss: Seq<StmtV>)
    requires
        ss.len() > 0,
    ensures
        render_program(ss) == render_program(ss.drop_last()) + render_stmt(ss.last()) + seq!['\n'],
    decreases ss,
{
    if ss.len() == 1 {
        assert(ss.drop_last() =~= Seq::empty());
        assert(render_program(ss) =~= render_program(ss.drop_last()) + render_stmt(ss.last())
            + seq!['\n']);
    } else {
        lemma_render_program_snoc(ss.drop_first());
        assert(ss.drop_last().len() > 0);
        assert(ss.drop_last().drop_first() =~= ss.drop_first().drop_last());
        assert(ss.drop_last()[0] == ss[0]);
        assert(ss.drop_first().last() == ss.last());
        assert(render_program(ss) == render_stmt(ss[0]) + seq!['\n'] + render_program(
            ss.drop_first(),
        ));
        assert(render_program(ss.drop_last()) == render_stmt(ss[0]) + seq!['\n'] + render_program(
            ss.drop_first().drop_last(),
        ));
        assert(render_program(ss) =~= render_program(ss.drop_last()) + render_stmt(ss.last())
            + seq!['\n']);
    }
}

impl Clone for Expression {
    fn clone(&self) -> (r: Self)
        ensures
            r@ == self@,
        decreases *self,
    {
        match self {
            Expression::Identifier { value } => Expression::Identifier { value: value.clone() },
            Expression::IntegerLiteral { value } => Expression::IntegerLiteral { value: *value },
            Expression::StringLiteral { value } => Expression::StringLiteral {
                value: value.clone(),
            },
            Expression::PrefixExpression { operator, right } => Expression::PrefixExpression {
                operator: operator.clone(),
                right: Box::new((**right).clone()),
            },
            Expression::InfixExpression { left, operator, right } => Expression::InfixExpression {
                left: Box::new((**left).clone()),
                operator: operator.clone(),
                right: Box::new((**right).clone()),
            },
            Expression::Boolean { value } => Expression::Boolean { value: *value },
            Expression::IfExpression { condition, consequence, alternative } => {
                let alt = match alternative {
                    Some(alt) => Some(Box::new((**alt).clone())),
                    None => None,
                };
                Expression::IfExpression {
                    condition: Box::new((**condition).clone()),
                    consequence: Box::new((**consequence).clone()),
                    alternative: alt,
                }
            },
            Expression::FunctionLiteral { parameters, body } => Expression::FunctionLiteral {
                parameters: clone_expr_vec(parameters),
                body: Box::new((**body).clone()),
            },
            Expression::CallExpression { function, arguments } => Expression::CallExpression {
                function: Box::new((**function).clone()),
                arguments: clone_expr_vec(arguments),
            },
        }
    }
}

impl Clone for Statement {
    fn clone(&self) -> (r: Self)
        ensures
            r@ == self@,
        decreases *self,
    {
        match self {
            Statement::LetStatement { name, value } => Statement::LetStatement {
                name: name.clone(),
                value: value.clone(),
            },
            Statement::ReturnStatement { return_value } => Statement::ReturnStatement {
                return_value: return_value.clone(),
            },
            Statement::ExpressionStatement { expression } => Statement::ExpressionStatement {
                expression: expression.clone(),
            },
            Statement::BlockStatement { statements } => Statement::BlockStatement {
                statements: clone_stmt_vec(statements),
            },
        }
    }
}

pub(crate) fn clone_expr_vec(v: &Vec<Expression>) -> (r: Vec<Expression>)
    ensures
        r@.len() == v@.len(),
        forall|i: int| 0 <= i < v@.len() ==> r@[i]@ == v@[i]@,
        view_exprs(r@) == view_exprs(v@),
    decreases v@,
{
    let n = v.len();
    let mut r: Vec<Expression> = Vec::new();
    let mut i: usize = 0;
    while i < n
        invariant
            i <= n,
            n == v@.len(),
            r@.len() == i,
            forall|j: int| 0 <= j < i ==> r@[j]@ == v@[j]@,
        decreases n - i,
    {
        r.push(v[i].clone());
        i += 1;
    }
    proof {
        lemma_view_exprs_congruence(r@, v@);
    }
    r
}

fn clone_stmt_vec(v: &Vec<Statement>) -> (r: Vec<Statement>)
    ensures
        r@.len() == v@.len(),
        forall|i: int| 0 <= i < v@.len() ==> r@[i]@ == v@[i]@,
        view_stmts(r@) == view_stmts(v@),
    decreases v@,
{
    let n = v.len();
    let mut r: Vec<Statement> = Vec::new();
    let mut i: usize = 0;
    while i < n
        invariant
            i <= n,
            n == v@.len(),
            r@.len() == i,
            forall|j: int| 0 <= j < i ==> r@[j]@ == v@[j]@,
        decreases n - i,
    {
        r.push(v[i].clone());
        i += 1;
    }
    proof {
        lemma_view_stmts_congruence(r@, v@);
    }
    r
}

proof fn lemma_view_exprs_congruence(a: Seq<Expression>, b: Seq<Expression>)
    requires
        a.len() == b.len(),
        forall|i: int| 0 <= i < a.len() ==> view_expr(a[i]) == view_expr(b[i]),
    ensures
        view_exprs(a) == view_exprs(b),
    decreases a,
{
    if a.len() > 0 {
        lemma_view_exprs_congruence(a.drop_first(), b.drop_first());
        assert(view_exprs(a) =~= view_exprs(b));
    } else {
        assert(view_exprs(a) =~= view_exprs(b));
    }
}

proof fn lemma_view_stmts_congruence(a: Seq<Statement>, b: Seq<Statement>)
    requires
        a.len() == b.len(),
        forall|i: int| 0 <= i < a.len() ==> view_stmt(a[i]) == view_stmt(b[i]),
    ensures
        view_stmts(a) == view_stmts(b),
    decreases a,
{
    if a.len() > 0 {
        lemma_view_stmts_congruence(a.drop_first(), b.drop_first());
        assert(view_stmts(a) =~= view_stmts(b));
    } else {
        assert(view_stmts(a) =~= view_stmts(b));
    }
}

impl Program {
    /// Deep-copy a program, preserving its mathematical view.
    pub fn duplicate(&self) -> (r: Program)
        ensures
            r@ == self@,
    {
        Program { statements: clone_stmt_vec(&self.statements) }
    }
}


/// Whether a statement is a block.
pub open spec fn is_block_stmt(s: StmtV) -> bool {
    match s {
        StmtV::Block { .. } => true,
        _ => false,
    }
}

/// Whether an expression is a bare identifier.
pub open spec fn is_ident_expr(e: ExprV) -> bool {
    match e {
        ExprV::Ident { .. } => true,
        _ => false,
    }
}

/// The structural soundness the parser guarantees: a `let` names an
/// identifier, and `if`/function bodies always wrap a block.
pub open spec fn stmt_wf(s: StmtV) -> bool
    decreases s, 1int,
{
    match s {
        StmtV::Let { name, value } => is_ident_expr(*name) && expr_wf(*value),
        StmtV::Return { value } => expr_wf(*value),
        StmtV::Expr { expression } => expr_wf(*expression),
        StmtV::Block { statements } => stmts_wf(statements),
    }
}

pub open spec fn stmts_wf(ss: Seq<StmtV>) -> bool
    decreases ss, 2int,
{
    forall|i: int| 0 <= i < ss.len() ==> stmt_wf(#[trigger] ss[i])
}

pub open spec fn expr_wf(e: ExprV) -> bool
    decreases e, 1int,
{
    match e {
        ExprV::Ident { .. } => true,
        ExprV::Int { .. } => true,
        ExprV::Str { .. } => true,
        ExprV::Bool { .. } => true,
        ExprV::Prefix { right, .. } => expr_wf(*right),
        ExprV::Infix { left, right, .. } => expr_wf(*left) && expr_wf(*right),
        ExprV::If { cond, cons, alt } => expr_wf(*cond) && is_block_stmt(*cons) && stmt_wf(*cons)
            && (match alt {
            Some(a) => is_block_stmt(*a) && stmt_wf(*a),
            None => true,
        }),
        ExprV::Func { params, body } => exprs_all_ident(params) && is_block_stmt(*body) && stmt_wf(
            *body,
        ),
        ExprV::Call { func, args } => expr_wf(*func) && exprs_wf(args),
    }
}

pub open spec fn exprs_wf(es: Seq<ExprV>) -> bool
    decreases es, 2int,
{
    forall|i: int| 0 <= i < es.len() ==> expr_wf(#[trigger] es[i])
}

/// Every element is a bare identifier, as a parameter list must be.
pub open spec fn exprs_all_ident(es: Seq<ExprV>) -> bool {
    forall|i: int| 0 <= i < es.len() ==> is_ident_expr(#[trigger] es[i])
}

pub proof fn lemma_view_stmts_push(v: Seq<Statement>, s: Statement)
    ensures
        view_stmts(v.push(s)) == view_stmts(v).push(view_stmt(s)),
    decreases v,
{
    if v.len() == 0 {
        assert(v.push(s).drop_first() =~= Seq::<Statement>::empty());
        assert(view_stmts(Seq::<Statement>::empty()) == Seq::<StmtV>::empty());
        assert(v.push(s)[0] == s);
        assert(view_stmts(v.push(s)) =~= view_stmts(v).push(view_stmt(s)));
    } else {
        lemma_view_stmts_push(v.drop_first(), s);
        assert(v.push(s).drop_first() =~= v.drop_first().push(s));
        assert(v.push(s)[0] == v[0]);
        assert(view_stmts(v.push(s)) =~= view_stmts(v).push(view_stmt(s)));
    }
}

pub proof fn lemma_view_exprs_push(v: Seq<Expression>, e: Expression)
    ensures
        view_exprs(v.push(e)) == view_exprs(v).push(view_expr(e)),
    decreases v,
{
    if v.len() == 0 {
        assert(v.push(e).drop_first() =~= Seq::<Expression>::empty());
        assert(view_exprs(Seq::<Expression>::empty()) == Seq::<ExprV>::empty());
        assert(v.push(e)[0] == e);
        assert(view_exprs(v.push(e)) =~= view_exprs(v).push(view_expr(e)));
    } else {
        lemma_view_exprs_push(v.drop_first(), e);
        assert(v.push(e).drop_first() =~= v.drop_first().push(e));
        assert(v.push(e)[0] == v[0]);
        assert(view_exprs(v.push(e)) =~= view_exprs(v).push(view_expr(e)));
    }
}

} // verus!
