//! The abstract syntax tree the parser produces and the compiler and
//! evaluator consume, together with its mathematical views, deep cloning,
//! and the pretty printer.

use vstd::prelude::*;

use crate::code::dec_chars;
use crate::code::push_dec;
use crate::token::{TokV, Token};

verus! {

/// A name, carrying its identifier token.
#[derive(Debug)]
pub struct Identifier {
    pub token: Token,
}

#[derive(Debug)]
pub struct IntegerLiteral {
    pub token: Token,
    pub value: i64,
}

#[derive(Debug)]
pub struct StringLiteral {
    pub token: Token,
    pub value: String,
}

#[derive(Debug)]
pub struct PrefixExpression {
    pub token: Token,
    pub right: Box<Expression>,
}

#[derive(Debug)]
pub struct InfixExpression {
    pub token: Token,
    pub left: Box<Expression>,
    pub right: Box<Expression>,
}

#[derive(Debug)]
pub struct BooleanLiteral {
    pub token: Token,
    pub value: bool,
}

#[derive(Debug)]
pub struct IfExpression {
    pub condition: Box<Expression>,
    pub consequence: BlockStatement,
    pub alternative: Option<BlockStatement>,
}

#[derive(Debug)]
pub struct FunctionLiteral {
    pub parameters: Vec<Identifier>,
    pub body: BlockStatement,
}

#[derive(Debug)]
pub struct CallExpression {
    pub function: Box<Expression>,
    pub arguments: Vec<Expression>,
}

#[derive(Debug)]
pub struct ArrayLiteral {
    pub elements: Vec<Expression>,
}

#[derive(Debug)]
pub struct IndexExpression {
    pub left: Box<Expression>,
    pub index: Box<Expression>,
}

#[derive(Debug)]
pub struct HashLiteral {
    pub pairs: Vec<(Expression, Expression)>,
}

/// An expression node.
#[derive(Debug)]
pub enum Expression {
    Identifier(Identifier),
    IntegerLiteral(IntegerLiteral),
    StringLiteral(StringLiteral),
    Prefix(PrefixExpression),
    Infix(InfixExpression),
    Boolean(BooleanLiteral),
    If(IfExpression),
    FunctionLiteral(FunctionLiteral),
    Call(CallExpression),
    ArrayLiteral(ArrayLiteral),
    IndexExpression(IndexExpression),
    HashLiteral(HashLiteral),
}

#[derive(Debug)]
pub struct LetStatement {
    pub token: Token,
    pub name: Identifier,
    pub value: Box<Expression>,
}

#[derive(Debug)]
pub struct ReturnStatement {
    pub token: Token,
    pub return_value: Box<Expression>,
}

#[derive(Debug)]
pub struct ExpressionStatement {
    pub token: Token,
    pub expression: Box<Expression>,
}

#[derive(Debug)]
pub struct BlockStatement {
    pub statements: Vec<Statement>,
}

/// A statement node.
#[derive(Debug)]
pub enum Statement {
    Let(LetStatement),
    Return(ReturnStatement),
    Expression(ExpressionStatement),
    Block(BlockStatement),
}

/// A whole program: the parser's output.
#[derive(Debug)]
pub struct Program {
    pub statements: Vec<Statement>,
}

/// The mathematical image of an expression.
pub enum ExprV {
    Ident(TokV),
    Int { token: TokV, value: i64 },
    Str { token: TokV, value: Seq<char> },
    Prefix { token: TokV, right: Box<ExprV> },
    Infix { token: TokV, left: Box<ExprV>, right: Box<ExprV> },
    Bool { token: TokV, value: bool },
    If { condition: Box<ExprV>, consequence: Seq<StmtV>, alternative: Option<Seq<StmtV>> },
    FunctionLit { parameters: Seq<TokV>, body: Seq<StmtV> },
    Call { function: Box<ExprV>, arguments: Seq<ExprV> },
    ArrayLit(Seq<ExprV>),
    Index { left: Box<ExprV>, index: Box<ExprV> },
    HashLit(Seq<(ExprV, ExprV)>),
}

/// The mathematical image of a statement.
pub enum StmtV {
    Let { token: TokV, name: TokV, value: Box<ExprV> },
    Return { token: TokV, value: Box<ExprV> },
    Expr { token: TokV, expression: Box<ExprV> },
    Block(Seq<StmtV>),
}

pub open spec fn expr_view(e: Expression) -> ExprV
    decreases e, 0int, 0int,
{
    match e {
        Expression::Identifier(x) => ExprV::Ident(x.token@),
        Expression::IntegerLiteral(x) => ExprV::Int { token: x.token@, value: x.value },
        Expression::StringLiteral(x) => ExprV::Str { token: x.token@, value: x.value@ },
        Expression::Prefix(x) => ExprV::Prefix {
            token: x.token@,
            right: Box::new(expr_view(*x.right)),
        },
        Expression::Infix(x) => ExprV::Infix {
            token: x.token@,
            left: Box::new(expr_view(*x.left)),
            right: Box::new(expr_view(*x.right)),
        },
        Expression::Boolean(x) => ExprV::Bool { token: x.token@, value: x.value },
        Expression::If(x) => ExprV::If {
            condition: Box::new(expr_view(*x.condition)),
            consequence: stmts_view_from(x.consequence.statements@, 0),
            alternative: match x.alternative {
                Some(b) => Some(stmts_view_from(b.statements@, 0)),
                None => None,
            },
        },
        Expression::FunctionLiteral(x) => ExprV::FunctionLit {
            parameters: Seq::new(x.parameters@.len(), |i: int| x.parameters@[i].token@),
            body: stmts_view_from(x.body.statements@, 0),
        },
        Expression::Call(x) => ExprV::Call {
            function: Box::new(expr_view(*x.function)),
            arguments: exprs_view_from(x.arguments@, 0),
        },
        Expression::ArrayLiteral(x) => ExprV::ArrayLit(exprs_view_from(x.elements@, 0)),
        Expression::IndexExpression(x) => ExprV::Index {
            left: Box::new(expr_view(*x.left)),
            index: Box::new(expr_view(*x.index)),
        },
        Expression::HashLiteral(x) => ExprV::HashLit(pairs_view_from(x.pairs@, 0)),
    }
}

pub open spec fn exprs_view_from(es: Seq<Expression>, i: int) -> Seq<ExprV>
    decreases es, 1int, es.len() - i,
{
    if i < 0 || i >= es.len() {
        Seq::empty()
    } else {
        seq![expr_view(es[i])] + exprs_view_from(es, i + 1)
    }
}

pub open spec fn pairs_view_from(ps: Seq<(Expression, Expression)>, i: int) -> Seq<(ExprV, ExprV)>
    decreases ps, 1int, ps.len() - i,
{
    if i < 0 || i >= ps.len() {
        Seq::empty()
    } else {
        seq![(expr_view(ps[i].0), expr_view(ps[i].1))] + pairs_view_from(ps, i + 1)
    }
}

pub open spec fn stmt_view(s: Statement) -> StmtV
    decreases s, 0int, 0int,
{
    match s {
        Statement::Let(x) => StmtV::Let {
            token: x.token@,
            name: x.name.token@,
            value: Box::new(expr_view(*x.value)),
        },
        Statement::Return(x) => StmtV::Return {
            token: x.token@,
            value: Box::new(expr_view(*x.return_value)),
        },
        Statement::Expression(x) => StmtV::Expr {
            token: x.token@,
            expression: Box::new(expr_view(*x.expression)),
        },
        Statement::Block(x) => StmtV::Block(stmts_view_from(x.statements@, 0)),
    }
}

pub open spec fn stmts_view_from(ss: Seq<Statement>, i: int) -> Seq<StmtV>
    decreases ss, 1int, ss.len() - i,
{
    if i < 0 || i >= ss.len() {
        Seq::empty()
    } else {
        seq![stmt_view(ss[i])] + stmts_view_from(ss, i + 1)
    }
}

/// The view of a list of statements.
pub open spec fn stmts_view(ss: Seq<Statement>) -> Seq<StmtV> {
    stmts_view_from(ss, 0)
}

impl View for Expression {
    type V = ExprV;

    open spec fn view(&self) -> ExprV {
        expr_view(*self)
    }
}

impl View for Statement {
    type V = StmtV;

    open spec fn view(&self) -> StmtV {
        stmt_view(*self)
    }
}

impl View for Program {
    type V = Seq<StmtV>;

    open spec fn view(&self) -> Seq<StmtV> {
        stmts_view(self.statements@)
    }
}

impl View for BlockStatement {
    type V = Seq<StmtV>;

    open spec fn view(&self) -> Seq<StmtV> {
        stmts_view(self.statements@)
    }
}

/// Element-wise description of a statement-list view.
pub proof fn lemma_stmts_view_from(ss: Seq<Statement>, i: int)
    requires
        0 <= i <= ss.len(),
    ensures
        stmts_view_from(ss, i).len() == ss.len() - i,
        forall|j: int|
            i <= j < ss.len() ==> stmts_view_from(ss, i)[j - i] == stmt_view(#[trigger] ss[j]),
    decreases ss.len() - i,
{
    if i < ss.len() {
        lemma_stmts_view_from(ss, i + 1);
        assert forall|j: int|
            i <= j < ss.len() implies stmts_view_from(ss, i)[j - i] == stmt_view(
            #[trigger] ss[j],
        ) by {
            if j > i {
                assert(stmts_view_from(ss, i)[j - i] == stmts_view_from(ss, i + 1)[j - (i + 1)]);
            }
        }
    }
}

/// Element-wise description of an expression-list view.
pub proof fn lemma_exprs_view_from(es: Seq<Expression>, i: int)
    requires
        0 <= i <= es.len(),
    ensures
        exprs_view_from(es, i).len() == es.len() - i,
        forall|j: int|
            i <= j < es.len() ==> exprs_view_from(es, i)[j - i] == expr_view(#[trigger] es[j]),
    decreases es.len() - i,
{
    if i < es.len() {
        lemma_exprs_view_from(es, i + 1);
        assert forall|j: int|
            i <= j < es.len() implies exprs_view_from(es, i)[j - i] == expr_view(
            #[trigger] es[j],
        ) by {
            if j > i {
                assert(exprs_view_from(es, i)[j - i] == exprs_view_from(es, i + 1)[j - (i + 1)]);
            }
        }
    }
}

/// The source text a token prints with.
pub open spec fn token_text(t: TokV) -> Seq<char> {
    match t {
        TokV::Illegal => ""@,
        TokV::Assign => "="@,
        TokV::Plus => "+"@,
        TokV::Minus => "-"@,
        TokV::Bang => "!"@,
        TokV::Asterisk => "*"@,
        TokV::Slash => "/"@,
        TokV::Lt => "<"@,
        TokV::Gt => ">"@,
        TokV::Eq => "=="@,
        TokV::Ne => "!="@,
        TokV::Semicolon => ";"@,
        TokV::LParen => "("@,
        TokV::RParen => ")"@,
        TokV::LBrace => "{"@,
        TokV::RBrace => "}"@,
        TokV::Let => "let"@,
        TokV::Return => "return"@,
        TokV::True => "true"@,
        TokV::False => "false"@,
        TokV::If => "if"@,
        TokV::Else => "else"@,
        TokV::Ident(s) => s,
        TokV::Int(s) => s,
    }
}

/// A signed integer in decimal.
pub open spec fn int_chars(v: int) -> Seq<char> {
    if v < 0 {
        "-"@ + dec_chars(-v)
    } else {
        dec_chars(v)
    }
}

/// The pretty-printed form of an expression: every compound form is fully
/// parenthesised, which the precedence tests rely on.
pub open spec fn pretty_expr(e: ExprV) -> Seq<char>
    decreases e, 0int, 0int,
{
    match e {
        ExprV::Ident(t) => token_text(t),
        ExprV::Int { token, value } => int_chars(value as int),
        ExprV::Str { token, value } => "\""@ + value + "\""@,
        ExprV::Prefix { token, right } => "("@ + token_text(token) + pretty_expr(*right) + ")"@,
        ExprV::Infix { token, left, right } => "("@ + pretty_expr(*left) + " "@ + token_text(token)
            + " "@ + pretty_expr(*right) + ")"@,
        ExprV::Bool { token, value } => if value {
            "true"@
        } else {
            "false"@
        },
        ExprV::If { condition, consequence, alternative } => "if "@ + pretty_expr(*condition)
            + " { "@ + pretty_stmts(consequence, 0) + " }"@ + match alternative {
            Some(alt) => " else { "@ + pretty_stmts(alt, 0) + " }"@,
            None => ""@,
        },
        ExprV::FunctionLit { parameters, body } => "fn("@ + pretty_params(parameters, 0) + ") { "@
            + pretty_stmts(body, 0) + " }"@,
        ExprV::Call { function, arguments } => pretty_expr(*function) + "("@ + pretty_exprs(
            arguments,
            0,
        ) + ")"@,
        ExprV::ArrayLit(es) => "["@ + pretty_exprs(es, 0) + "]"@,
        ExprV::Index { left, index } => "("@ + pretty_expr(*left) + "["@ + pretty_expr(*index)
            + "])"@,
        ExprV::HashLit(ps) => "{"@ + pretty_pairs(ps, 0) + "}"@,
    }
}

/// Expressions joined with `, `, from position `i` on.
pub open spec fn pretty_exprs(es: Seq<ExprV>, i: int) -> Seq<char>
    decreases es, 1int, es.len() - i,
{
    if i < 0 || i >= es.len() {
        Seq::empty()
    } else {
        (if i > 0 {
            ", "@
        } else {
            Seq::empty()
        }) + pretty_expr(es[i]) + pretty_exprs(es, i + 1)
    }
}

/// Parameter names joined with `, `, from position `i` on.
pub open spec fn pretty_params(ps: Seq<TokV>, i: int) -> Seq<char>
    decreases ps.len() - i,
{
    if i < 0 || i >= ps.len() {
        Seq::empty()
    } else {
        (if i > 0 {
            ", "@
        } else {
            Seq::empty()
        }) + token_text(ps[i]) + pretty_params(ps, i + 1)
    }
}

/// Key-value pairs joined with `, `, from position `i` on.
pub open spec fn pretty_pairs(ps: Seq<(ExprV, ExprV)>, i: int) -> Seq<char>
    decreases ps, 1int, ps.len() - i,
{
    if i < 0 || i >= ps.len() {
        Seq::empty()
    } else {
        (if i > 0 {
            ", "@
        } else {
            Seq::empty()
        }) + pretty_expr(ps[i].0) + ": "@ + pretty_expr(ps[i].1) + pretty_pairs(ps, i + 1)
    }
}

/// The pretty-printed form of a statement.
pub open spec fn pretty_stmt(s: StmtV) -> Seq<char>
    decreases s, 0int, 0int,
{
    match s {
        StmtV::Let { token, name, value } => "let "@ + token_text(name) + " = "@ + pretty_expr(
            *value,
        ) + ";"@,
        StmtV::Return { token, value } => "return "@ + pretty_expr(*value) + ";"@,
        StmtV::Expr { token, expression } => pretty_expr(*expression),
        StmtV::Block(ss) => pretty_stmts(ss, 0),
    }
}

/// Statements printed one after another, from position `i` on.
pub open spec fn pretty_stmts(ss: Seq<StmtV>, i: int) -> Seq<char>
    decreases ss, 1int, ss.len() - i,
{
    if i < 0 || i >= ss.len() {
        Seq::empty()
    } else {
        pretty_stmt(ss[i]) + pretty_stmts(ss, i + 1)
    }
}

/// Appends a token's source text.
pub fn push_token_text(s: &mut String, t: &Token)
    ensures
        final(s)@ == old(s)@ + token_text(t@),
{
    match t {
        Token::Illegal => s.append(""),
        Token::Assign => s.append("="),
        Token::Plus => s.append("+"),
        Token::Minus => s.append("-"),
        Token::Bang => s.append("!"),
        Token::Asterisk => s.append("*"),
        Token::Slash => s.append("/"),
        Token::Lt => s.append("<"),
        Token::Gt => s.append(">"),
        Token::Eq => s.append("=="),
        Token::Ne => s.append("!="),
        Token::Semicolon => s.append(";"),
        Token::LParen => s.append("("),
        Token::RParen => s.append(")"),
        Token::LBrace => s.append("{"),
        Token::RBrace => s.append("}"),
        Token::Let => s.append("let"),
        Token::Return => s.append("return"),
        Token::True => s.append("true"),
        Token::False => s.append("false"),
        Token::If => s.append("if"),
        Token::Else => s.append("else"),
        Token::Ident(name) => s.append(name.as_str()),
        Token::Int(digits) => s.append(digits.as_str()),
    }
}

/// Appends a signed integer in decimal.
pub fn push_int(s: &mut String, v: i64)
    ensures
        final(s)@ == old(s)@ + int_chars(v as int),
{
    if v < 0 {
        s.append("-");
        let m: u64 = if v == i64::MIN {
            9223372036854775808u64
        } else {
            (-v) as u64
        };
        proof {
            assert(m == -(v as int));
        }
        push_dec(s, m);
        proof {
            assert(s@ =~= old(s)@ + int_chars(v as int));
        }
    } else {
        push_dec(s, v as u64);
    }
}

#[verifier::rlimit(100)]
fn push_expr(s: &mut String, e: &Expression)
    ensures
        final(s)@ == old(s)@ + pretty_expr(e@),
    decreases *e, 0int, 0int,
{
    match e {
        Expression::Identifier(x) => push_token_text(s, &x.token),
        Expression::IntegerLiteral(x) => push_int(s, x.value),
        Expression::StringLiteral(x) => {
            s.append("\"");
            s.append(x.value.as_str());
            s.append("\"");
            proof {
                assert(s@ =~= old(s)@ + pretty_expr(e@));
            }
        },
        Expression::Prefix(x) => {
            s.append("(");
            push_token_text(s, &x.token);
            push_expr(s, &x.right);
            s.append(")");
            proof {
                assert(s@ =~= old(s)@ + pretty_expr(e@));
            }
        },
        Expression::Infix(x) => {
            s.append("(");
            push_expr(s, &x.left);
            s.append(" ");
            push_token_text(s, &x.token);
            s.append(" ");
            push_expr(s, &x.right);
            s.append(")");
            proof {
                assert(s@ =~= old(s)@ + pretty_expr(e@));
            }
        },
        Expression::Boolean(x) => {
            if x.value {
                s.append("true");
            } else {
                s.append("false");
            }
        },
        Expression::If(x) => {
            let ghost base = old(s)@;
            let ghost head = "if "@ + pretty_expr(expr_view(*x.condition)) + " { "@ + pretty_stmts(
                stmts_view(x.consequence.statements@),
                0,
            ) + " }"@;
            s.append("if ");
            push_expr(s, &x.condition);
            s.append(" { ");
            push_stmts(s, &x.consequence.statements);
            s.append(" }");
            proof {
                assert(s@ =~= base + head);
            }
            match &x.alternative {
                Some(alt) => {
                    let ghost tail = " else { "@ + pretty_stmts(stmts_view(alt.statements@), 0)
                        + " }"@;
                    s.append(" else { ");
                    push_stmts(s, &alt.statements);
                    s.append(" }");
                    proof {
                        assert(s@ =~= (base + head) + tail);
                        assert(pretty_expr(e@) =~= head + tail);
                        assert(s@ =~= old(s)@ + pretty_expr(e@));
                    }
                },
                None => {
                    proof {
                        assert(pretty_expr(e@) =~= head + ""@);
                        reveal_strlit("");
                        assert(s@ =~= old(s)@ + pretty_expr(e@));
                    }
                },
            }
        },
        Expression::FunctionLiteral(x) => {
            s.append("fn(");
            push_params(s, &x.parameters);
            s.append(") { ");
            push_stmts(s, &x.body.statements);
            s.append(" }");
            proof {
                assert(s@ =~= old(s)@ + pretty_expr(e@));
            }
        },
        Expression::Call(x) => {
            push_expr(s, &x.function);
            s.append("(");
            push_exprs(s, &x.arguments);
            s.append(")");
            proof {
                assert(s@ =~= old(s)@ + pretty_expr(e@));
            }
        },
        Expression::ArrayLiteral(x) => {
            s.append("[");
            push_exprs(s, &x.elements);
            s.append("]");
            proof {
                assert(s@ =~= old(s)@ + pretty_expr(e@));
            }
        },
        Expression::IndexExpression(x) => {
            s.append("(");
            push_expr(s, &x.left);
            s.append("[");
            push_expr(s, &x.index);
            s.append("])");
            proof {
                assert(s@ =~= old(s)@ + pretty_expr(e@));
            }
        },
        Expression::HashLiteral(x) => {
            s.append("{");
            push_pairs(s, &x.pairs);
            s.append("}");
            proof {
                assert(s@ =~= old(s)@ + pretty_expr(e@));
            }
        },
    }
}

fn push_exprs(s: &mut String, es: &Vec<Expression>)
    ensures
        final(s)@ == old(s)@ + pretty_exprs(exprs_view_from(es@, 0), 0),
    decreases es@, 1int, 0int,
{
    let ghost vs = exprs_view_from(es@, 0);
    proof {
        lemma_exprs_view_from(es@, 0);
    }
    let mut i: usize = 0;
    while i < es.len()
        invariant
            i <= es@.len(),
            vs == exprs_view_from(es@, 0),
            vs.len() == es@.len(),
            forall|j: int| 0 <= j < es@.len() ==> vs[j] == expr_view(#[trigger] es@[j]),
            s@ + pretty_exprs(vs, i as int) == old(s)@ + pretty_exprs(vs, 0),
        decreases es@.len() - i,
    {
        if i > 0 {
            s.append(", ");
        }
        push_expr(s, &es[i]);
        i = i + 1;
    }
}

fn push_params(s: &mut String, ps: &Vec<Identifier>)
    ensures
        final(s)@ == old(s)@ + pretty_params(Seq::new(ps@.len(), |i: int| ps@[i].token@), 0),
{
    let ghost vs = Seq::new(ps@.len(), |i: int| ps@[i].token@);
    let mut i: usize = 0;
    while i < ps.len()
        invariant
            i <= ps@.len(),
            vs == Seq::new(ps@.len(), |k: int| ps@[k].token@),
            s@ + pretty_params(vs, i as int) == old(s)@ + pretty_params(vs, 0),
        decreases ps@.len() - i,
    {
        if i > 0 {
            s.append(", ");
        }
        push_token_text(s, &ps[i].token);
        i = i + 1;
    }
}

fn push_pairs(s: &mut String, ps: &Vec<(Expression, Expression)>)
    ensures
        final(s)@ == old(s)@ + pretty_pairs(pairs_view_from(ps@, 0), 0),
    decreases ps@, 1int, 0int,
{
    let ghost vs = pairs_view_from(ps@, 0);
    proof {
        lemma_pairs_view_from(ps@, 0);
    }
    let mut i: usize = 0;
    while i < ps.len()
        invariant
            i <= ps@.len(),
            vs == pairs_view_from(ps@, 0),
            vs.len() == ps@.len(),
            forall|j: int|
                0 <= j < ps@.len() ==> vs[j] == (
                expr_view((#[trigger] ps@[j]).0),
                expr_view(ps@[j].1),
                ),
            s@ + pretty_pairs(vs, i as int) == old(s)@ + pretty_pairs(vs, 0),
        decreases ps@.len() - i,
    {
        if i > 0 {
            s.append(", ");
        }
        push_expr(s, &ps[i].0);
        s.append(": ");
        push_expr(s, &ps[i].1);
        i = i + 1;
    }
}

/// Element-wise description of a pair-list view.
pub proof fn lemma_pairs_view_from(ps: Seq<(Expression, Expression)>, i: int)
    requires
        0 <= i <= ps.len(),
    ensures
        pairs_view_from(ps, i).len() == ps.len() - i,
        forall|j: int|
            i <= j < ps.len() ==> pairs_view_from(ps, i)[j - i] == (
            expr_view((#[trigger] ps[j]).0),
            expr_view(ps[j].1),
            ),
    decreases ps.len() - i,
{
    if i < ps.len() {
        lemma_pairs_view_from(ps, i + 1);
        assert forall|j: int|
            i <= j < ps.len() implies pairs_view_from(ps, i)[j - i] == (
        expr_view((#[trigger] ps[j]).0),
        expr_view(ps[j].1),
        ) by {
            if j > i {
                assert(pairs_view_from(ps, i)[j - i] == pairs_view_from(ps, i + 1)[j - (i + 1)]);
            }
        }
    }
}

fn push_stmt(s: &mut String, st: &Statement)
    ensures
        final(s)@ == old(s)@ + pretty_stmt(st@),
    decreases *st, 0int, 0int,
{
    match st {
        Statement::Let(x) => {
            s.append("let ");
            push_token_text(s, &x.name.token);
            s.append(" = ");
            push_expr(s, &x.value);
            s.append(";");
            proof {
                assert(s@ =~= old(s)@ + pretty_stmt(st@));
            }
        },
        Statement::Return(x) => {
            s.append("return ");
            push_expr(s, &x.return_value);
            s.append(";");
            proof {
                assert(s@ =~= old(s)@ + pretty_stmt(st@));
            }
        },
        Statement::Expression(x) => {
            push_expr(s, &x.expression);
        },
        Statement::Block(x) => {
            push_stmts(s, &x.statements);
        },
    }
}

fn push_stmts(s: &mut String, ss: &Vec<Statement>)
    ensures
        final(s)@ == old(s)@ + pretty_stmts(stmts_view(ss@), 0),
    decreases ss@, 1int, 0int,
{
    let ghost vs = stmts_view(ss@);
    proof {
        lemma_stmts_view_from(ss@, 0);
    }
    let mut i: usize = 0;
    while i < ss.len()
        invariant
            i <= ss@.len(),
            vs == stmts_view(ss@),
            vs.len() == ss@.len(),
            forall|j: int| 0 <= j < ss@.len() ==> vs[j] == stmt_view(#[trigger] ss@[j]),
            s@ + pretty_stmts(vs, i as int) == old(s)@ + pretty_stmts(vs, 0),
        decreases ss@.len() - i,
    {
        push_stmt(s, &ss[i]);
        i = i + 1;
    }
}

impl Program {
    /// The pretty-printed source form of the whole program.
    pub fn pretty_print(&self) -> (r: String)
        ensures
            r@ == pretty_stmts(self@, 0),
    {
        let mut out = String::new();
        push_stmts(&mut out, &self.statements);
        out
    }
}

impl Clone for Identifier {
    fn clone(&self) -> (r: Self)
        ensures
            r.token@ == self.token@,
    {
        Identifier { token: self.token.clone() }
    }
}

/// A structurally equal copy of an expression.
pub fn clone_expression(e: &Expression) -> (r: Expression)
    ensures
        r@ == e@,
    decreases *e, 0int, 0int,
{
    match e {
        Expression::Identifier(x) => Expression::Identifier(Identifier { token: x.token.clone() }),
        Expression::IntegerLiteral(x) => Expression::IntegerLiteral(
            IntegerLiteral { token: x.token.clone(), value: x.value },
        ),
        Expression::StringLiteral(x) => Expression::StringLiteral(
            StringLiteral { token: x.token.clone(), value: x.value.clone() },
        ),
        Expression::Prefix(x) => Expression::Prefix(
            PrefixExpression {
                token: x.token.clone(),
                right: Box::new(clone_expression(&x.right)),
            },
        ),
        Expression::Infix(x) => Expression::Infix(
            InfixExpression {
                token: x.token.clone(),
                left: Box::new(clone_expression(&x.left)),
                right: Box::new(clone_expression(&x.right)),
            },
        ),
        Expression::Boolean(x) => Expression::Boolean(
            BooleanLiteral { token: x.token.clone(), value: x.value },
        ),
        Expression::If(x) => {
            let condition = Box::new(clone_expression(&x.condition));
            let consequence = BlockStatement { statements: clone_statements(
                &x.consequence.statements,
            ) };
            let alternative = match &x.alternative {
                Some(alt) => Some(
                    BlockStatement { statements: clone_statements(&alt.statements) },
                ),
                None => None,
            };
            let r = Expression::If(IfExpression { condition, consequence, alternative });
            proof {
                assert(expr_view(r) =~= expr_view(*e));
            }
            r
        },
        Expression::FunctionLiteral(x) => {
            let mut parameters: Vec<Identifier> = Vec::new();
            let mut i: usize = 0;
            while i < x.parameters.len()
                invariant
                    i <= x.parameters@.len(),
                    parameters@.len() == i,
                    forall|j: int|
                        0 <= j < i ==> #[trigger] parameters@[j].token@ == x.parameters@[j].token@,
                decreases x.parameters@.len() - i,
            {
                parameters.push(x.parameters[i].clone());
                i = i + 1;
            }
            let body = BlockStatement { statements: clone_statements(&x.body.statements) };
            let r = Expression::FunctionLiteral(FunctionLiteral { parameters, body });
            proof {
                assert(Seq::new(parameters@.len(), |k: int| parameters@[k].token@) =~= Seq::new(
                    x.parameters@.len(),
                    |k: int| x.parameters@[k].token@,
                ));
                assert(expr_view(r) =~= expr_view(*e));
            }
            r
        },
        Expression::Call(x) => {
            let function = Box::new(clone_expression(&x.function));
            let arguments = clone_expressions(&x.arguments);
            let r = Expression::Call(CallExpression { function, arguments });
            proof {
                assert(expr_view(r) =~= expr_view(*e));
            }
            r
        },
        Expression::ArrayLiteral(x) => {
            let elements = clone_expressions(&x.elements);
            let r = Expression::ArrayLiteral(ArrayLiteral { elements });
            proof {
                assert(expr_view(r) =~= expr_view(*e));
            }
            r
        },
        Expression::IndexExpression(x) => Expression::IndexExpression(
            IndexExpression {
                left: Box::new(clone_expression(&x.left)),
                index: Box::new(clone_expression(&x.index)),
            },
        ),
        Expression::HashLiteral(x) => {
            let pairs = clone_pairs(&x.pairs);
            let r = Expression::HashLiteral(HashLiteral { pairs });
            proof {
                assert(expr_view(r) =~= expr_view(*e));
            }
            r
        },
    }
}

/// A structurally equal copy of a list of expression pairs.
pub fn clone_pairs(ps: &Vec<(Expression, Expression)>) -> (r: Vec<(Expression, Expression)>)
    ensures
        r@.len() == ps@.len(),
        pairs_view_from(r@, 0) == pairs_view_from(ps@, 0),
    decreases ps@, 1int, 0int,
{
    let mut out: Vec<(Expression, Expression)> = Vec::new();
    let mut i: usize = 0;
    while i < ps.len()
        invariant
            i <= ps@.len(),
            out@.len() == i,
            forall|j: int|
                0 <= j < i ==> expr_view((#[trigger] out@[j]).0) == expr_view(ps@[j].0)
                    && expr_view(out@[j].1) == expr_view(ps@[j].1),
        decreases ps@.len() - i,
    {
        let k = clone_expression(&ps[i].0);
        let v = clone_expression(&ps[i].1);
        out.push((k, v));
        i = i + 1;
    }
    proof {
        lemma_pairs_view_from(out@, 0);
        lemma_pairs_view_from(ps@, 0);
        assert forall|k: int| 0 <= k < out@.len() implies pairs_view_from(out@, 0)[k]
            == pairs_view_from(ps@, 0)[k] by {
            assert(pairs_view_from(out@, 0)[k - 0] == (
                expr_view(out@[k].0),
                expr_view(out@[k].1),
            ));
            assert(pairs_view_from(ps@, 0)[k - 0] == (
                expr_view(ps@[k].0),
                expr_view(ps@[k].1),
            ));
        }
        assert(pairs_view_from(out@, 0) =~= pairs_view_from(ps@, 0));
    }
    out
}

/// A structurally equal copy of a list of expressions.
pub fn clone_expressions(es: &Vec<Expression>) -> (r: Vec<Expression>)
    ensures
        r@.len() == es@.len(),
        exprs_view_from(r@, 0) == exprs_view_from(es@, 0),
    decreases es@, 1int, 0int,
{
    let mut out: Vec<Expression> = Vec::new();
    let mut i: usize = 0;
    while i < es.len()
        invariant
            i <= es@.len(),
            out@.len() == i,
            forall|j: int| 0 <= j < i ==> expr_view(#[trigger] out@[j]) == expr_view(es@[j]),
        decreases es@.len() - i,
    {
        out.push(clone_expression(&es[i]));
        i = i + 1;
    }
    proof {
        lemma_exprs_view_from(out@, 0);
        lemma_exprs_view_from(es@, 0);
        assert forall|k: int| 0 <= k < out@.len() implies exprs_view_from(out@, 0)[k]
            == exprs_view_from(es@, 0)[k] by {
            assert(exprs_view_from(out@, 0)[k - 0] == expr_view(out@[k]));
            assert(exprs_view_from(es@, 0)[k - 0] == expr_view(es@[k]));
        }
        assert(exprs_view_from(out@, 0) =~= exprs_view_from(es@, 0));
    }
    out
}

/// A structurally equal copy of a statement.
pub fn clone_statement(st: &Statement) -> (r: Statement)
    ensures
        r@ == st@,
    decreases *st, 0int, 0int,
{
    match st {
        Statement::Let(x) => Statement::Let(
            LetStatement {
                token: x.token.clone(),
                name: Identifier { token: x.name.token.clone() },
                value: Box::new(clone_expression(&x.value)),
            },
        ),
        Statement::Return(x) => Statement::Return(
            ReturnStatement {
                token: x.token.clone(),
                return_value: Box::new(clone_expression(&x.return_value)),
            },
        ),
        Statement::Expression(x) => Statement::Expression(
            ExpressionStatement {
                token: x.token.clone(),
                expression: Box::new(clone_expression(&x.expression)),
            },
        ),
        Statement::Block(x) => {
            let r = Statement::Block(
                BlockStatement { statements: clone_statements(&x.statements) },
            );
            proof {
                assert(stmt_view(r) =~= stmt_view(*st));
            }
            r
        },
    }
}

/// A structurally equal copy of a list of statements.
pub fn clone_statements(ss: &Vec<Statement>) -> (r: Vec<Statement>)
    ensures
        r@.len() == ss@.len(),
        stmts_view(r@) == stmts_view(ss@),
    decreases ss@, 1int, 0int,
{
    let mut out: Vec<Statement> = Vec::new();
    let mut i: usize = 0;
    while i < ss.len()
        invariant
            i <= ss@.len(),
            out@.len() == i,
            forall|j: int| 0 <= j < i ==> stmt_view(#[trigger] out@[j]) == stmt_view(ss@[j]),
        decreases ss@.len() - i,
    {
        out.push(clone_statement(&ss[i]));
        i = i + 1;
    }
    proof {
        lemma_stmts_view_from(out@, 0);
        lemma_stmts_view_from(ss@, 0);
        assert forall|k: int| 0 <= k < out@.len() implies stmts_view(out@)[k] == stmts_view(
            ss@,
        )[k] by {
            assert(stmts_view_from(out@, 0)[k - 0] == stmt_view(out@[k]));
            assert(stmts_view_from(ss@, 0)[k - 0] == stmt_view(ss@[k]));
        }
        assert(stmts_view(out@) =~= stmts_view(ss@));
    }
    out
}

impl Clone for BlockStatement {
    fn clone(&self) -> (r: Self)
        ensures
            r@ == self@,
    {
        BlockStatement { statements: clone_statements(&self.statements) }
    }
}

} // verus!
