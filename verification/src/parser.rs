//! The Pratt parser: turns the token stream into an abstract syntax tree.

use vstd::prelude::*;

use crate::ast::{
    lemma_stmts_view_from, stmt_view, stmts_view, stmts_view_from, BlockStatement, BooleanLiteral, ExprV,
    Expression, ExpressionStatement, Identifier, IfExpression, InfixExpression, IntegerLiteral,
    LetStatement, PrefixExpression, Program, ReturnStatement, Statement, StmtV,
};
use crate::lexer::{tokens_from, Lexer};
use crate::token::{TokV, Token};

verus! {

/// Why a parse failed.
#[derive(Debug, Clone, Copy, PartialEq, Eq, Structural)]
pub enum ParseError {
    /// A `let` statement without an identifier after the keyword.
    LetIdentifierExpected,
    /// A `let` statement without `=` after its name.
    LetAssignExpected,
    /// A `let` or `return` statement without a closing semicolon.
    StatementEndMissing,
    /// A token no prefix parse rule exists for.
    UnsupportedPrefixToken,
    /// An integer literal that is empty, non-decimal or too large.
    IntegerLiteralInvalid,
    /// A grouped expression without its closing parenthesis.
    GroupUnclosed,
    /// An `if` without `(` after the keyword.
    IfParenExpected,
    /// An `if` condition without its closing parenthesis.
    IfParenUnclosed,
    /// An `if` or `else` without `{` where its block starts.
    BlockBraceExpected,
    /// A block without its closing brace.
    BlockUnclosed,
}

/// Operator precedence, as `get_precedence` assigns it: `==` and `!=` bind
/// weakest among the operators, then `<` and `>`, then `+` and `-`, then
/// `*` and `/`; prefix operators bind tightest.
pub open spec fn precedence_of(t: TokV) -> int {
    match t {
        TokV::Eq => 1,
        TokV::Ne => 1,
        TokV::Lt => 2,
        TokV::Gt => 2,
        TokV::Plus => 3,
        TokV::Minus => 3,
        TokV::Asterisk => 4,
        TokV::Slash => 4,
        _ => 0,
    }
}

/// The lowest precedence: every operator binds tighter.
pub open spec fn spec_lowest() -> int {
    0
}

/// The precedence a prefix operand is parsed with.
pub open spec fn spec_prefix_prec() -> int {
    5
}

pub open spec fn digit_of(c: char) -> int {
    if c == '0' {
        0
    } else if c == '1' {
        1
    } else if c == '2' {
        2
    } else if c == '3' {
        3
    } else if c == '4' {
        4
    } else if c == '5' {
        5
    } else if c == '6' {
        6
    } else if c == '7' {
        7
    } else if c == '8' {
        8
    } else {
        9
    }
}

/// The value of a decimal digit string, most significant digit first.
pub open spec fn digits_val(s: Seq<char>) -> int
    decreases s.len(),
{
    if s.len() == 0 {
        0
    } else {
        digits_val(s.drop_last()) * 10 + digit_of(s.last())
    }
}

pub open spec fn all_digits(s: Seq<char>) -> bool {
    forall|i: int| 0 <= i < s.len() ==> crate::lexer::is_digit(#[trigger] s[i])
}

/// What an integer token parses to: its value, if it is a non-empty decimal
/// digit string whose value fits in an `i64`.
pub open spec fn int_of_digits(s: Seq<char>) -> Option<i64> {
    if s.len() > 0 && all_digits(s) && digits_val(s) <= i64::MAX {
        Some(digits_val(s) as i64)
    } else {
        None
    }
}

/// The first position at or after `i` holding a semicolon.
pub open spec fn find_semi(toks: Seq<TokV>, i: int) -> Option<int>
    decreases toks.len() - i,
{
    if i < 0 || i >= toks.len() {
        None
    } else if toks[i] == TokV::Semicolon {
        Some(i)
    } else {
        find_semi(toks, i + 1)
    }
}

/// Parses the expression starting at `i` with binding power `prec`:
/// a prefix form first, then every infix operator that binds tighter than
/// `prec`.  Yields the expression and the position just past it.
pub open spec fn parse_expression_spec(toks: Seq<TokV>, i: int, prec: int) -> Result<
    (ExprV, int),
    ParseError,
>
    decreases toks.len() - i, 0int, 1int,
{
    if !(0 <= i < toks.len()) {
        Err(ParseError::UnsupportedPrefixToken)
    } else {
        let prefix = match toks[i] {
            TokV::Ident(name) => Ok((ExprV::Ident(TokV::Ident(name)), i + 1)),
            TokV::Int(ds) => match int_of_digits(ds) {
                Some(v) => Ok((ExprV::Int { token: TokV::Int(ds), value: v }, i + 1)),
                None => Err(ParseError::IntegerLiteralInvalid),
            },
            TokV::True => Ok((ExprV::Bool { token: TokV::True, value: true }, i + 1)),
            TokV::False => Ok((ExprV::Bool { token: TokV::False, value: false }, i + 1)),
            TokV::Minus => match parse_expression_spec(toks, i + 1, spec_prefix_prec()) {
                Ok((right, j)) => Ok(
                    (ExprV::Prefix { token: TokV::Minus, right: Box::new(right) }, j),
                ),
                Err(e) => Err(e),
            },
            TokV::Bang => match parse_expression_spec(toks, i + 1, spec_prefix_prec()) {
                Ok((right, j)) => Ok(
                    (ExprV::Prefix { token: TokV::Bang, right: Box::new(right) }, j),
                ),
                Err(e) => Err(e),
            },
            TokV::LParen => match parse_expression_spec(toks, i + 1, spec_lowest()) {
                Ok((inner, j)) => if 0 <= j < toks.len() && toks[j] == TokV::RParen {
                    Ok((inner, j + 1))
                } else {
                    Err(ParseError::GroupUnclosed)
                },
                Err(e) => Err(e),
            },
            TokV::If => parse_if_spec(toks, i),
            _ => Err(ParseError::UnsupportedPrefixToken),
        };
        match prefix {
            Ok((left, j)) => if i < j && j <= toks.len() {
                parse_infix_loop_spec(toks, j, prec, left)
            } else {
                Ok((left, j))
            },
            Err(e) => Err(e),
        }
    }
}

/// Folds infix operators onto `left` while they bind tighter than `prec`.
pub open spec fn parse_infix_loop_spec(toks: Seq<TokV>, i: int, prec: int, left: ExprV) -> Result<
    (ExprV, int),
    ParseError,
>
    decreases toks.len() - i, 0int, 0int,
{
    if !(0 <= i < toks.len() && toks[i] != TokV::Semicolon && prec < precedence_of(toks[i])) {
        Ok((left, i))
    } else {
        let op = toks[i];
        match parse_expression_spec(toks, i + 1, precedence_of(op)) {
            Ok((right, j)) => if i < j && j <= toks.len() {
                parse_infix_loop_spec(
                    toks,
                    j,
                    prec,
                    ExprV::Infix { token: op, left: Box::new(left), right: Box::new(right) },
                )
            } else {
                Ok((ExprV::Infix { token: op, left: Box::new(left), right: Box::new(right) }, j))
            },
            Err(e) => Err(e),
        }
    }
}

/// Parses an `if` expression at `i` (`toks[i]` is the `if` keyword):
/// `if (condition) { consequence }` with an optional `else { alternative }`.
pub open spec fn parse_if_spec(toks: Seq<TokV>, i: int) -> Result<(ExprV, int), ParseError>
    decreases toks.len() - i, 0int, 0int,
{
    if !(0 <= i < toks.len()) {
        Err(ParseError::UnsupportedPrefixToken)
    } else if !(i + 1 < toks.len() && toks[i + 1] == TokV::LParen) {
        Err(ParseError::IfParenExpected)
    } else {
        match parse_expression_spec(toks, i + 2, spec_lowest()) {
            Ok((cond, j)) => if !(i + 2 <= j && 0 <= j < toks.len() && toks[j] == TokV::RParen) {
                Err(ParseError::IfParenUnclosed)
            } else if !(j + 1 < toks.len() && toks[j + 1] == TokV::LBrace) {
                Err(ParseError::BlockBraceExpected)
            } else {
                match parse_block_spec(toks, j + 2) {
                    Ok((cons, k)) => if j + 2 <= k && k < toks.len() && toks[k] == TokV::Else {
                        if !(k + 1 < toks.len() && toks[k + 1] == TokV::LBrace) {
                            Err(ParseError::BlockBraceExpected)
                        } else {
                            match parse_block_spec(toks, k + 2) {
                                Ok((alt, m)) => Ok(
                                    (
                                        ExprV::If {
                                            condition: Box::new(cond),
                                            consequence: cons,
                                            alternative: Some(alt),
                                        },
                                        m,
                                    ),
                                ),
                                Err(e) => Err(e),
                            }
                        }
                    } else {
                        Ok(
                            (
                                ExprV::If {
                                    condition: Box::new(cond),
                                    consequence: cons,
                                    alternative: None,
                                },
                                k,
                            ),
                        )
                    },
                    Err(e) => Err(e),
                }
            },
            Err(e) => Err(e),
        }
    }
}

/// Parses block statements from `i` up to the closing brace, which is
/// consumed.  Yields the statements and the position just past the brace.
pub open spec fn parse_block_spec(toks: Seq<TokV>, i: int) -> Result<
    (Seq<StmtV>, int),
    ParseError,
>
    decreases toks.len() - i, 2int, 0int,
{
    if !(0 <= i <= toks.len()) {
        Err(ParseError::BlockUnclosed)
    } else if i == toks.len() {
        Err(ParseError::BlockUnclosed)
    } else if toks[i] == TokV::RBrace {
        Ok((Seq::empty(), i + 1))
    } else {
        match parse_statement_spec(toks, i) {
            Ok((st, j)) => if i < j && j <= toks.len() {
                match parse_block_spec(toks, j) {
                    Ok((rest, k)) => Ok((seq![st] + rest, k)),
                    Err(e) => Err(e),
                }
            } else {
                Err(ParseError::BlockUnclosed)
            },
            Err(e) => Err(e),
        }
    }
}

/// Parses the statement starting at `i`: a `let`, a `return`, or an
/// expression statement.  Yields the statement and the position just past
/// it, its trailing semicolon included.
pub open spec fn parse_statement_spec(toks: Seq<TokV>, i: int) -> Result<
    (StmtV, int),
    ParseError,
>
    decreases toks.len() - i, 1int, 0int,
{
    if !(0 <= i < toks.len()) {
        Err(ParseError::UnsupportedPrefixToken)
    } else if toks[i] == TokV::Let {
        if !(i + 1 < toks.len() && (toks[i + 1] is Ident || toks[i + 1] is Int)) {
            Err(ParseError::LetIdentifierExpected)
        } else if !(i + 2 < toks.len() && toks[i + 2] == TokV::Assign) {
            Err(ParseError::LetAssignExpected)
        } else {
            match find_semi(toks, i + 3) {
                Some(k) => Ok(
                    (
                        StmtV::Let {
                            token: TokV::Let,
                            name: toks[i + 1],
                            value: Box::new(ExprV::Ident(TokV::Illegal)),
                        },
                        k + 1,
                    ),
                ),
                None => Err(ParseError::StatementEndMissing),
            }
        }
    } else if toks[i] == TokV::Return {
        match find_semi(toks, i + 1) {
            Some(k) => Ok(
                (
                    StmtV::Return {
                        token: TokV::Return,
                        value: Box::new(ExprV::Ident(TokV::Illegal)),
                    },
                    k + 1,
                ),
            ),
            None => Err(ParseError::StatementEndMissing),
        }
    } else {
        match parse_expression_spec(toks, i, spec_lowest()) {
            Ok((e, j)) => {
                let stmt = StmtV::Expr { token: toks[i], expression: Box::new(e) };
                if 0 <= j < toks.len() && toks[j] == TokV::Semicolon {
                    Ok((stmt, j + 1))
                } else {
                    Ok((stmt, j))
                }
            },
            Err(e) => Err(e),
        }
    }
}

/// Parses statements from `i` to the end of the stream.
pub open spec fn parse_stmts_spec(toks: Seq<TokV>, i: int) -> Result<(Seq<StmtV>, int), ParseError>
    decreases toks.len() - i, 3int, 0int,
{
    if !(0 <= i < toks.len()) {
        Ok((Seq::empty(), i))
    } else {
        match parse_statement_spec(toks, i) {
            Ok((st, j)) => if i < j && j <= toks.len() {
                match parse_stmts_spec(toks, j) {
                    Ok((rest, k)) => Ok((seq![st] + rest, k)),
                    Err(e) => Err(e),
                }
            } else {
                Ok((seq![st], j))
            },
            Err(e) => Err(e),
        }
    }
}

/// What a whole token stream parses to.
pub open spec fn parse_program_spec(toks: Seq<TokV>) -> Result<Seq<StmtV>, ParseError> {
    match parse_stmts_spec(toks, 0) {
        Ok((ss, _)) => Ok(ss),
        Err(e) => Err(e),
    }
}

/// The views of a token list.
pub open spec fn toks_view(v: Seq<Token>) -> Seq<TokV> {
    Seq::new(v.len(), |i: int| v[i]@)
}

proof fn lemma_toks_view_index(v: Seq<Token>, i: int)
    requires
        0 <= i < v.len(),
    ensures
        toks_view(v)[i] == v[i]@,
{
}

proof fn lemma_stmts_view_push(v: Seq<Statement>, st: Statement)
    ensures
        stmts_view(v.push(st)) == stmts_view(v) + seq![stmt_view(st)],
{
    lemma_stmts_view_from(v, 0);
    lemma_stmts_view_from(v.push(st), 0);
    assert forall|k: int| 0 <= k < v.len() + 1 implies stmts_view(v.push(st))[k] == (stmts_view(v)
        + seq![stmt_view(st)])[k] by {
        assert(stmts_view_from(v.push(st), 0)[k - 0] == stmt_view(v.push(st)[k]));
        if k < v.len() {
            assert(stmts_view_from(v, 0)[k - 0] == stmt_view(v[k]));
            assert(v.push(st)[k] == v[k]);
        } else {
            assert(v.push(st)[k] == st);
        }
    }
    assert(stmts_view(v.push(st)) =~= stmts_view(v) + seq![stmt_view(st)]);
}

/// The precedence a token binds with as an infix operator.
pub fn get_precedence(token: &Token) -> (r: usize)
    ensures
        r == precedence_of(token@),
{
    match token {
        Token::Eq => 1,
        Token::Ne => 1,
        Token::Lt => 2,
        Token::Gt => 2,
        Token::Plus => 3,
        Token::Minus => 3,
        Token::Asterisk => 4,
        Token::Slash => 4,
        _ => 0,
    }
}

fn token_is_semicolon(t: &Token) -> (r: bool)
    ensures
        r == (t@ == TokV::Semicolon),
{
    matches!(t, Token::Semicolon)
}

fn digit_value(c: char) -> (r: u64)
    requires
        crate::lexer::is_digit(c),
    ensures
        r == digit_of(c),
{
    if c == '0' {
        0
    } else if c == '1' {
        1
    } else if c == '2' {
        2
    } else if c == '3' {
        3
    } else if c == '4' {
        4
    } else if c == '5' {
        5
    } else if c == '6' {
        6
    } else if c == '7' {
        7
    } else if c == '8' {
        8
    } else {
        9
    }
}

proof fn lemma_digits_val_nonneg(s: Seq<char>)
    ensures
        digits_val(s) >= 0,
    decreases s.len(),
{
    if s.len() > 0 {
        lemma_digits_val_nonneg(s.drop_last());
        assert(digit_of(s.last()) >= 0);
    }
}

/// If the value of a prefix of a digit string exceeds a bound, the value of
/// the whole string does too.
proof fn lemma_digits_prefix_overflow(s: Seq<char>, i: int)
    requires
        0 <= i <= s.len(),
    ensures
        digits_val(s) >= digits_val(s.take(i)),
    decreases s.len() - i,
{
    if i < s.len() {
        lemma_digits_prefix_overflow(s, i + 1);
        lemma_digits_val_nonneg(s.take(i));
        assert(s.take(i + 1).drop_last() =~= s.take(i));
        assert(digits_val(s.take(i + 1)) == digits_val(s.take(i)) * 10 + digit_of(
            s.take(i + 1).last(),
        ));
        assert(digit_of(s.take(i + 1).last()) >= 0);
        assert(digits_val(s.take(i)) * 10 >= digits_val(s.take(i)));
    } else {
        assert(s.take(i) =~= s);
    }
}

/// The parser: the whole token stream and the cursor into it.
#[derive(Debug)]
pub struct Parser {
    tokens: Vec<Token>,
    pos: usize,
}

/// The mathematical image of a parser.
pub struct ParserV {
    pub toks: Seq<TokV>,
    pub pos: int,
}

impl View for Parser {
    type V = ParserV;

    closed spec fn view(&self) -> ParserV {
        ParserV { toks: toks_view(self.tokens@), pos: self.pos as int }
    }
}

impl Parser {
    /// A parser over everything the lexer yields.
    pub fn new(lexer: Lexer) -> (r: Parser)
        requires
            lexer@.pos <= lexer@.input.len(),
        ensures
            r@.toks == tokens_from(lexer@.input, lexer@.pos as int),
            r@.pos == 0,
    {
        let ghost s = lexer@.input;
        let ghost p0 = lexer@.pos as int;
        let mut lexer = lexer;
        let mut tokens: Vec<Token> = Vec::new();
        loop
            invariant
                lexer@.input == s,
                0 <= lexer@.pos <= s.len(),
                toks_view(tokens@) + tokens_from(s, lexer@.pos as int) == tokens_from(s, p0),
            ensures
                toks_view(tokens@) == tokens_from(s, p0),
            decreases s.len() - lexer@.pos,
        {
            let ghost before = lexer@.pos as int;
            proof {
                crate::lexer::lemma_next_token_advances(s, before);
            }
            match lexer.next_token() {
                Some(t) => {
                    tokens.push(t);
                    proof {
                        assert(toks_view(tokens@) =~= toks_view(tokens@.drop_last()) + seq![
                            tokens@.last()@,
                        ]);
                        assert(toks_view(tokens@) + tokens_from(s, lexer@.pos as int)
                            =~= tokens_from(s, p0));
                    }
                },
                None => {
                    proof {
                        assert(tokens_from(s, before) =~= Seq::<TokV>::empty());
                        assert(toks_view(tokens@) =~= tokens_from(s, p0));
                    }
                    break ;
                },
            }
        }
        Parser { tokens, pos: 0 }
    }

    /// Parses the whole stream into a program.
    pub fn parse_program(&mut self) -> (r: Result<Program, ParseError>)
        requires
            old(self)@.pos == 0,
        ensures
            final(self)@.toks == old(self)@.toks,
            match r {
                Ok(p) => parse_program_spec(old(self)@.toks) == Ok::<_, ParseError>(p@),
                Err(e) => parse_program_spec(old(self)@.toks) == Err::<Seq<StmtV>, _>(e),
            },
    {
        let ghost toks = self@.toks;
        let n: usize = self.tokens.len();
        proof {
            assert(toks.len() == n);
        }
        let mut statements: Vec<Statement> = Vec::new();
        while self.pos < n
            invariant
                toks == old(self)@.toks,
                self@.toks == toks,
                n == toks.len(),
                0 <= self.pos <= n,
                match parse_stmts_spec(toks, self.pos as int) {
                    Ok(rk) => parse_stmts_spec(toks, 0) == Ok::<_, ParseError>(
                        (stmts_view(statements@) + rk.0, rk.1),
                    ),
                    Err(e) => parse_stmts_spec(toks, 0) == Err::<(Seq<StmtV>, int), _>(e),
                },
            decreases n - self.pos,
        {
            let pos = self.pos;
            match self.parse_statement(pos) {
                Ok((st, j)) => {
                    let ghost prev = statements@;
                    let ghost pos0 = self.pos as int;
                    statements.push(st);
                    self.pos = j;
                    proof {
                        lemma_stmts_view_push(prev, st);
                        assert(statements@ == prev.push(st));
                        match parse_stmts_spec(toks, j as int) {
                            Ok(rk) => {
                                assert(parse_stmts_spec(toks, pos0) == Ok::<_, ParseError>(
                                    (seq![stmt_view(st)] + rk.0, rk.1),
                                ));
                                assert(stmts_view(prev) + (seq![stmt_view(st)] + rk.0)
                                    =~= stmts_view(prev.push(st)) + rk.0);
                                assert(parse_stmts_spec(toks, 0) == Ok::<_, ParseError>(
                                    (stmts_view(statements@) + rk.0, rk.1),
                                ));
                            },
                            Err(_) => {},
                        }
                    }
                },
                Err(e) => {
                    proof {
                        assert(parse_stmts_spec(toks, self.pos as int) == Err::<
                            (Seq<StmtV>, int),
                            _,
                        >(e));
                    }
                    return Err(e);
                },
            }
        }
        proof {
            assert(parse_stmts_spec(toks, self.pos as int) == Ok::<_, ParseError>(
                (Seq::<StmtV>::empty(), self.pos as int),
            ));
            assert(stmts_view(statements@) + Seq::<StmtV>::empty() =~= stmts_view(statements@));
        }
        Ok(Program { statements })
    }

    /// Parses one statement at `pos`.
    fn parse_statement(&self, pos: usize) -> (r: Result<(Statement, usize), ParseError>)
        requires
            pos < self@.toks.len(),
        ensures
            match r {
                Ok(sj) => parse_statement_spec(self@.toks, pos as int) == Ok::<_, ParseError>(
                    (sj.0@, sj.1 as int),
                ) && pos < sj.1 <= self@.toks.len(),
                Err(e) => parse_statement_spec(self@.toks, pos as int) == Err::<(StmtV, int), _>(
                    e,
                ),
            },
        decreases self@.toks.len() - pos, 1int, 0int,
    {
        let ghost toks = self@.toks;
        let n: usize = self.tokens.len();
        proof {
            lemma_toks_view_index(self.tokens@, pos as int);
        }
        match &self.tokens[pos] {
            Token::Let => self.parse_let_statement(pos),
            Token::Return => self.parse_return_statement(pos),
            _ => self.parse_expression_statement(pos),
        }
    }

    /// Parses a `let` statement: the name is kept, the initialiser is
    /// skipped up to the closing semicolon.
    fn parse_let_statement(&self, pos: usize) -> (r: Result<(Statement, usize), ParseError>)
        requires
            pos < self@.toks.len(),
            self@.toks[pos as int] == TokV::Let,
        ensures
            match r {
                Ok(sj) => parse_statement_spec(self@.toks, pos as int) == Ok::<_, ParseError>(
                    (sj.0@, sj.1 as int),
                ) && pos < sj.1 <= self@.toks.len(),
                Err(e) => parse_statement_spec(self@.toks, pos as int) == Err::<(StmtV, int), _>(
                    e,
                ),
            },
    {
        let ghost toks = self@.toks;
        let n: usize = self.tokens.len();
        proof {
            if pos + 1 < n {
                lemma_toks_view_index(self.tokens@, pos + 1);
            }
        }
        if !(pos + 1 < n && matches!(&self.tokens[pos + 1], Token::Ident(_) | Token::Int(_))) {
            return Err(ParseError::LetIdentifierExpected);
        }
        proof {
            if pos + 2 < n {
                lemma_toks_view_index(self.tokens@, pos + 2);
            }
        }
        if !(pos + 2 < n && matches!(&self.tokens[pos + 2], Token::Assign)) {
            return Err(ParseError::LetAssignExpected);
        }
        let mut k: usize = pos + 3;
        while k < n && !token_is_semicolon(&self.tokens[k])
            invariant
                self@.toks == toks,
                n == toks.len(),
                pos + 3 <= k <= n,
                find_semi(toks, k as int) == find_semi(toks, pos + 3),
            decreases n - k,
        {
            proof {
                lemma_toks_view_index(self.tokens@, k as int);
            }
            k = k + 1;
        }
        proof {
            if k < n {
                lemma_toks_view_index(self.tokens@, k as int);
            }
        }
        if k >= n {
            proof {
                assert(find_semi(toks, pos + 3) is None);
            }
            return Err(ParseError::StatementEndMissing);
        }
        proof {
            assert(find_semi(toks, pos + 3) == Some(k as int));
        }
        let name = Identifier { token: self.tokens[pos + 1].clone() };
        let st = Statement::Let(
            LetStatement {
                token: Token::Let,
                name,
                value: Box::new(Expression::Identifier(Identifier { token: Token::Illegal })),
            },
        );
        Ok((st, k + 1))
    }

    /// Parses a `return` statement: the returned expression is skipped up
    /// to the closing semicolon.
    fn parse_return_statement(&self, pos: usize) -> (r: Result<(Statement, usize), ParseError>)
        requires
            pos < self@.toks.len(),
            self@.toks[pos as int] == TokV::Return,
        ensures
            match r {
                Ok(sj) => parse_statement_spec(self@.toks, pos as int) == Ok::<_, ParseError>(
                    (sj.0@, sj.1 as int),
                ) && pos < sj.1 <= self@.toks.len(),
                Err(e) => parse_statement_spec(self@.toks, pos as int) == Err::<(StmtV, int), _>(
                    e,
                ),
            },
    {
        let ghost toks = self@.toks;
        let n: usize = self.tokens.len();
        let mut k: usize = pos + 1;
        while k < n && !token_is_semicolon(&self.tokens[k])
            invariant
                self@.toks == toks,
                n == toks.len(),
                pos + 1 <= k <= n,
                find_semi(toks, k as int) == find_semi(toks, pos + 1),
            decreases n - k,
        {
            proof {
                lemma_toks_view_index(self.tokens@, k as int);
            }
            k = k + 1;
        }
        proof {
            if k < n {
                lemma_toks_view_index(self.tokens@, k as int);
            }
        }
        if k >= n {
            proof {
                assert(find_semi(toks, pos + 1) is None);
            }
            return Err(ParseError::StatementEndMissing);
        }
        proof {
            assert(find_semi(toks, pos + 1) == Some(k as int));
        }
        let st = Statement::Return(
            ReturnStatement {
                token: Token::Return,
                return_value: Box::new(
                    Expression::Identifier(Identifier { token: Token::Illegal }),
                ),
            },
        );
        Ok((st, k + 1))
    }

    /// Parses an expression statement, consuming a trailing semicolon.
    fn parse_expression_statement(&self, pos: usize) -> (r: Result<
        (Statement, usize),
        ParseError,
    >)
        requires
            pos < self@.toks.len(),
            self@.toks[pos as int] != TokV::Let,
            self@.toks[pos as int] != TokV::Return,
        ensures
            match r {
                Ok(sj) => parse_statement_spec(self@.toks, pos as int) == Ok::<_, ParseError>(
                    (sj.0@, sj.1 as int),
                ) && pos < sj.1 <= self@.toks.len(),
                Err(e) => parse_statement_spec(self@.toks, pos as int) == Err::<(StmtV, int), _>(
                    e,
                ),
            },
        decreases self@.toks.len() - pos, 0int, 2int,
    {
        let ghost toks = self@.toks;
        let n: usize = self.tokens.len();
        let cur = self.tokens[pos].clone();
        match self.parse_expression(pos, 0) {
            Ok((e, j)) => {
                let st = Statement::Expression(
                    ExpressionStatement { token: cur, expression: Box::new(e) },
                );
                proof {
                    if j < n {
                        lemma_toks_view_index(self.tokens@, j as int);
                    }
                }
                if j < n && token_is_semicolon(&self.tokens[j]) {
                    Ok((st, j + 1))
                } else {
                    Ok((st, j))
                }
            },
            Err(e) => Err(e),
        }
    }

    /// Parses the expression at `pos` with the given binding power.
    fn parse_expression(&self, pos: usize, precedence: usize) -> (r: Result<
        (Expression, usize),
        ParseError,
    >)
        requires
            pos <= self@.toks.len(),
        ensures
            match r {
                Ok(ej) => parse_expression_spec(self@.toks, pos as int, precedence as int)
                    == Ok::<_, ParseError>((ej.0@, ej.1 as int)) && pos < ej.1
                    <= self@.toks.len(),
                Err(e) => parse_expression_spec(self@.toks, pos as int, precedence as int)
                    == Err::<(ExprV, int), _>(e),
            },
        decreases self@.toks.len() - pos, 0int, 1int,
    {
        let ghost toks = self@.toks;
        let n: usize = self.tokens.len();
        if pos >= n {
            return Err(ParseError::UnsupportedPrefixToken);
        }
        proof {
            lemma_toks_view_index(self.tokens@, pos as int);
        }
        let prefix = match &self.tokens[pos] {
            Token::Ident(_) => self.parse_identifier(pos),
            Token::Int(_) => self.parse_integer_literal(pos),
            Token::True => Ok(
                (
                    Expression::Boolean(BooleanLiteral { token: Token::True, value: true }),
                    pos + 1,
                ),
            ),
            Token::False => Ok(
                (
                    Expression::Boolean(BooleanLiteral { token: Token::False, value: false }),
                    pos + 1,
                ),
            ),
            Token::Minus => self.parse_prefix_expression(pos),
            Token::Bang => self.parse_prefix_expression(pos),
            Token::LParen => self.parse_grouped_expression(pos),
            Token::If => self.parse_if_expression(pos),
            _ => Err(ParseError::UnsupportedPrefixToken),
        };
        match prefix {
            Ok((first, start)) => {
                let mut left = first;
                let mut j = start;
                proof {
                    assert(parse_expression_spec(toks, pos as int, precedence as int)
                        == parse_infix_loop_spec(toks, j as int, precedence as int, left@));
                }
                while j < n && !token_is_semicolon(&self.tokens[j]) && precedence
                    < get_precedence(&self.tokens[j])
                    invariant
                        self@.toks == toks,
                        n == toks.len(),
                        pos < j <= n,
                        parse_expression_spec(toks, pos as int, precedence as int)
                            == parse_infix_loop_spec(toks, j as int, precedence as int, left@),
                    decreases n - j,
                {
                    proof {
                        lemma_toks_view_index(self.tokens@, j as int);
                    }
                    let op = self.tokens[j].clone();
                    let op_prec = get_precedence(&op);
                    match self.parse_expression(j + 1, op_prec) {
                        Ok((right, j2)) => {
                            left = Expression::Infix(
                                InfixExpression {
                                    token: op,
                                    left: Box::new(left),
                                    right: Box::new(right),
                                },
                            );
                            j = j2;
                        },
                        Err(e) => {
                            return Err(e);
                        },
                    }
                }
                proof {
                    if j < n {
                        lemma_toks_view_index(self.tokens@, j as int);
                    }
                    assert(parse_infix_loop_spec(toks, j as int, precedence as int, left@)
                        == Ok::<_, ParseError>((left@, j as int)));
                }
                Ok((left, j))
            },
            Err(e) => Err(e),
        }
    }

    /// Parses an identifier expression.
    fn parse_identifier(&self, pos: usize) -> (r: Result<(Expression, usize), ParseError>)
        requires
            pos < self@.toks.len(),
            self@.toks[pos as int] is Ident,
        ensures
            match r {
                Ok(ej) => ej.0@ == ExprV::Ident(self@.toks[pos as int]) && ej.1 == pos + 1,
                Err(e) => false,
            },
    {
        let n: usize = self.tokens.len();
        proof {
            assert(pos < n);
        }
        Ok(
            (
                Expression::Identifier(Identifier { token: self.tokens[pos].clone() }),
                pos + 1,
            ),
        )
    }

    /// Parses an integer literal: a non-empty decimal digit string whose
    /// value fits in an `i64`; anything else is an error.
    fn parse_integer_literal(&self, pos: usize) -> (r: Result<(Expression, usize), ParseError>)
        requires
            pos < self@.toks.len(),
            self@.toks[pos as int] is Int,
        ensures
            match r {
                Ok(ej) => ({
                    let ds = self@.toks[pos as int]->Int_0;
                    int_of_digits(ds) is Some && ej.0@ == ExprV::Int {
                        token: self@.toks[pos as int],
                        value: int_of_digits(ds)->0,
                    } && ej.1 == pos + 1
                }),
                Err(e) => int_of_digits(self@.toks[pos as int]->Int_0) is None && e
                    == ParseError::IntegerLiteralInvalid,
            },
    {
        let n: usize = self.tokens.len();
        proof {
            assert(pos < n);
            lemma_toks_view_index(self.tokens@, pos as int);
        }
        let token = self.tokens[pos].clone();
        proof {
            assert(token@ == self@.toks[pos as int]);
        }
        match &token {
            Token::Int(digits) => {
                let ghost ds = digits@;
                proof {
                    assert(self@.toks[pos as int] == TokV::Int(ds));
                }
                let m: usize = digits.as_str().unicode_len();
                if m == 0 {
                    return Err(ParseError::IntegerLiteralInvalid);
                }
                let mut value: u64 = 0;
                let mut i: usize = 0;
                while i < m
                    invariant
                        ds == digits@,
                        m == ds.len(),
                        pos < self@.toks.len(),
                        self@.toks[pos as int] == TokV::Int(ds),
                        0 <= i <= m,
                        all_digits(ds.take(i as int)),
                        value == digits_val(ds.take(i as int)),
                        value <= i64::MAX,
                    decreases m - i,
                {
                    let c = digits.as_str().get_char(i);
                    if !('0' <= c && c <= '9') {
                        proof {
                            assert(!crate::lexer::is_digit(ds[i as int]));
                            assert(!all_digits(ds));
                        }
                        return Err(ParseError::IntegerLiteralInvalid);
                    }
                    let d = digit_value(c);
                    if value > (9223372036854775807u64 - d) / 10 {
                        proof {
                            assert(value * 10 + d > i64::MAX) by {
                                vstd::arithmetic::div_mod::lemma_fundamental_div_mod(
                                    (9223372036854775807u64 - d) as int,
                                    10,
                                );
                            }
                            assert(ds.take(i + 1).drop_last() =~= ds.take(i as int));
                            assert(ds.take(i + 1).last() == ds[i as int]);
                            assert(digits_val(ds.take(i + 1)) > i64::MAX);
                            lemma_digits_prefix_overflow(ds, i + 1);
                            assert(digits_val(ds) > i64::MAX);
                        }
                        return Err(ParseError::IntegerLiteralInvalid);
                    }
                    proof {
                        assert(value * 10 + d <= i64::MAX) by {
                            vstd::arithmetic::div_mod::lemma_fundamental_div_mod(
                                (9223372036854775807u64 - d) as int,
                                10,
                            );
                        }
                        assert(ds.take(i + 1).drop_last() =~= ds.take(i as int));
                        assert(ds.take(i + 1).last() == ds[i as int]);
                        assert(all_digits(ds.take(i + 1)));
                    }
                    value = value * 10 + d;
                    i = i + 1;
                }
                proof {
                    assert(ds.take(m as int) =~= ds);
                }
                Ok(
                    (
                        Expression::IntegerLiteral(
                            IntegerLiteral { token, value: value as i64 },
                        ),
                        pos + 1,
                    ),
                )
            },
            _ => {
                proof {
                    assert(false);
                }
                Err(ParseError::IntegerLiteralInvalid)
            },
        }
    }

    /// Parses a prefix `!` or `-` expression.
    fn parse_prefix_expression(&self, pos: usize) -> (r: Result<(Expression, usize), ParseError>)
        requires
            pos < self@.toks.len(),
            self@.toks[pos as int] == TokV::Minus || self@.toks[pos as int] == TokV::Bang,
        ensures
            match r {
                Ok(ej) => ({
                    let inner = parse_expression_spec(self@.toks, pos + 1, spec_prefix_prec());
                    inner is Ok && ej.0@ == ExprV::Prefix {
                        token: self@.toks[pos as int],
                        right: Box::new(inner->Ok_0.0),
                    } && ej.1 == inner->Ok_0.1 && pos < ej.1 <= self@.toks.len()
                }),
                Err(e) => parse_expression_spec(self@.toks, pos + 1, spec_prefix_prec())
                    == Err::<(ExprV, int), _>(e),
            },
        decreases self@.toks.len() - pos, 0int, 0int,
    {
        let n: usize = self.tokens.len();
        proof {
            assert(pos < n);
        }
        let token = self.tokens[pos].clone();
        match self.parse_expression(pos + 1, 5) {
            Ok((right, j)) => Ok(
                (
                    Expression::Prefix(PrefixExpression { token, right: Box::new(right) }),
                    j,
                ),
            ),
            Err(e) => Err(e),
        }
    }

    /// Parses a parenthesised expression.
    fn parse_grouped_expression(&self, pos: usize) -> (r: Result<(Expression, usize), ParseError>)
        requires
            pos < self@.toks.len(),
            self@.toks[pos as int] == TokV::LParen,
        ensures
            match r {
                Ok(ej) => ({
                    let inner = parse_expression_spec(self@.toks, pos + 1, spec_lowest());
                    inner is Ok && ej.0@ == inner->Ok_0.0 && inner->Ok_0.1 + 1 == ej.1
                        && self@.toks[inner->Ok_0.1] == TokV::RParen && pos < ej.1
                        <= self@.toks.len()
                }),
                Err(e) => ({
                    let inner = parse_expression_spec(self@.toks, pos + 1, spec_lowest());
                    match inner {
                        Ok(ij) => e == ParseError::GroupUnclosed && !(ij.1 < self@.toks.len()
                            && self@.toks[ij.1] == TokV::RParen),
                        Err(e2) => e == e2,
                    }
                }),
            },
        decreases self@.toks.len() - pos, 0int, 0int,
    {
        let n: usize = self.tokens.len();
        match self.parse_expression(pos + 1, 0) {
            Ok((inner, j)) => {
                proof {
                    if j < n {
                        lemma_toks_view_index(self.tokens@, j as int);
                    }
                }
                if j < n && matches!(&self.tokens[j], Token::RParen) {
                    Ok((inner, j + 1))
                } else {
                    Err(ParseError::GroupUnclosed)
                }
            },
            Err(e) => Err(e),
        }
    }

    /// Parses an `if` expression with its blocks.
    fn parse_if_expression(&self, pos: usize) -> (r: Result<(Expression, usize), ParseError>)
        requires
            pos < self@.toks.len(),
            self@.toks[pos as int] == TokV::If,
        ensures
            match r {
                Ok(ej) => parse_if_spec(self@.toks, pos as int) == Ok::<_, ParseError>(
                    (ej.0@, ej.1 as int),
                ) && pos < ej.1 <= self@.toks.len(),
                Err(e) => parse_if_spec(self@.toks, pos as int) == Err::<(ExprV, int), _>(e),
            },
        decreases self@.toks.len() - pos, 0int, 0int,
    {
        let ghost toks = self@.toks;
        let n: usize = self.tokens.len();
        proof {
            if pos + 1 < n {
                lemma_toks_view_index(self.tokens@, pos + 1);
            }
        }
        if !(pos + 1 < n && matches!(&self.tokens[pos + 1], Token::LParen)) {
            return Err(ParseError::IfParenExpected);
        }
        match self.parse_expression(pos + 2, 0) {
            Ok((cond, j)) => {
                proof {
                    if j < n {
                        lemma_toks_view_index(self.tokens@, j as int);
                    }
                    if j + 1 < n {
                        lemma_toks_view_index(self.tokens@, j + 1);
                    }
                }
                if !(j < n && matches!(&self.tokens[j], Token::RParen)) {
                    return Err(ParseError::IfParenUnclosed);
                }
                if !(j + 1 < n && matches!(&self.tokens[j + 1], Token::LBrace)) {
                    return Err(ParseError::BlockBraceExpected);
                }
                match self.parse_block_statement(j + 2) {
                    Ok((cons, k)) => {
                        proof {
                            if k < n {
                                lemma_toks_view_index(self.tokens@, k as int);
                            }
                            if k + 1 < n {
                                lemma_toks_view_index(self.tokens@, k + 1);
                            }
                        }
                        if k < n && matches!(&self.tokens[k], Token::Else) {
                            if !(k + 1 < n && matches!(&self.tokens[k + 1], Token::LBrace)) {
                                return Err(ParseError::BlockBraceExpected);
                            }
                            match self.parse_block_statement(k + 2) {
                                Ok((alt, m)) => Ok(
                                    (
                                        Expression::If(
                                            IfExpression {
                                                condition: Box::new(cond),
                                                consequence: cons,
                                                alternative: Some(alt),
                                            },
                                        ),
                                        m,
                                    ),
                                ),
                                Err(e) => Err(e),
                            }
                        } else {
                            Ok(
                                (
                                    Expression::If(
                                        IfExpression {
                                            condition: Box::new(cond),
                                            consequence: cons,
                                            alternative: None,
                                        },
                                    ),
                                    k,
                                ),
                            )
                        }
                    },
                    Err(e) => Err(e),
                }
            },
            Err(e) => Err(e),
        }
    }

    /// Parses statements up to and including the closing brace.
    fn parse_block_statement(&self, pos: usize) -> (r: Result<
        (BlockStatement, usize),
        ParseError,
    >)
        requires
            pos <= self@.toks.len(),
        ensures
            match r {
                Ok(bj) => parse_block_spec(self@.toks, pos as int) == Ok::<_, ParseError>(
                    (bj.0@, bj.1 as int),
                ) && pos < bj.1 <= self@.toks.len(),
                Err(e) => parse_block_spec(self@.toks, pos as int) == Err::<
                    (Seq<StmtV>, int),
                    _,
                >(e),
            },
        decreases self@.toks.len() - pos, 2int, 0int,
    {
        let ghost toks = self@.toks;
        let ghost start = pos as int;
        let n: usize = self.tokens.len();
        let mut statements: Vec<Statement> = Vec::new();
        let mut j = pos;
        loop
            invariant
                self@.toks == toks,
                n == toks.len(),
                pos <= j <= n,
                pos == start,
                match parse_block_spec(toks, j as int) {
                    Ok(rk) => parse_block_spec(toks, start) == Ok::<_, ParseError>(
                        (stmts_view(statements@) + rk.0, rk.1),
                    ),
                    Err(e) => parse_block_spec(toks, start) == Err::<(Seq<StmtV>, int), _>(e),
                },
            ensures
                j < n,
                toks[j as int] == TokV::RBrace,
                parse_block_spec(toks, start) == Ok::<_, ParseError>(
                    (stmts_view(statements@), j + 1),
                ),
            decreases n - j,
        {
            if j >= n {
                proof {
                    assert(parse_block_spec(toks, j as int) is Err);
                }
                return Err(ParseError::BlockUnclosed);
            }
            proof {
                lemma_toks_view_index(self.tokens@, j as int);
            }
            if matches!(&self.tokens[j], Token::RBrace) {
                proof {
                    assert(parse_block_spec(toks, j as int) == Ok::<_, ParseError>(
                        (Seq::<StmtV>::empty(), j + 1),
                    ));
                    assert(stmts_view(statements@) + Seq::<StmtV>::empty() =~= stmts_view(
                        statements@,
                    ));
                }
                break ;
            }
            match self.parse_statement(j) {
                Ok((st, j2)) => {
                    proof {
                        lemma_stmts_view_push(statements@, st);
                        match parse_block_spec(toks, j2 as int) {
                            Ok(rk) => {
                                assert((stmts_view(statements@) + (seq![stmt_view(st)] + rk.0))
                                    =~= (stmts_view(statements@.push(st)) + rk.0));
                            },
                            Err(_) => {},
                        }
                    }
                    statements.push(st);
                    j = j2;
                },
                Err(e) => {
                    return Err(e);
                },
            }
        }
        Ok((BlockStatement { statements }, j + 1))
    }
}

} // verus!
