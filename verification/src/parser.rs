//! Parser: a single-cursor recursive descent over the lexer's token sequence,
//! producing statement and expression trees.
//!
//! The parser is fail-fast: the first grammar violation ends the whole run
//! with an error naming the violated expectation; there is no recovery and no
//! partial result.

use vstd::prelude::*;

use crate::lexer::{Token, TokenV, token_views};

verus! {

/// Mathematical model of one expression node.
pub enum ExprV {
    Literal(TokenV),
    Binary(Box<ExprV>, TokenV, Box<ExprV>),
    Unary(TokenV, Box<ExprV>),
    Identifier(Seq<char>),
    Call(Seq<char>, Seq<ExprV>),
}

/// Mathematical model of one statement node.
pub enum StmtV {
    Expression(ExprV),
    Print(ExprV),
    Assignment(Seq<char>, ExprV),
    Block(Seq<StmtV>),
    Match(ExprV, Seq<(ExprV, StmtV)>),
}

/// One expression node: a strict tree that owns its children.
#[derive(Debug, PartialEq)]
pub enum Expr {
    Literal(Token),
    Binary(Box<Expr>, Token, Box<Expr>),
    Unary(Token, Box<Expr>),
    Identifier(String),
    Call(String, Vec<Expr>),
}

/// One statement node. `Block` and `Match` are reserved extension points: no
/// production of the current grammar builds them.
#[derive(Debug, PartialEq)]
pub enum Stmt {
    Expression(Expr),
    Print(Expr),
    Assignment(String, Expr),
    Block(Vec<Stmt>),
    Match(Expr, Vec<(Expr, Stmt)>),
}

pub open spec fn expr_view(e: Expr) -> ExprV
    decreases e,
    via expr_view_dec
{
    match e {
        Expr::Literal(t) => ExprV::Literal(t@),
        Expr::Binary(l, op, r) => ExprV::Binary(
            Box::new(expr_view(*l)),
            op@,
            Box::new(expr_view(*r)),
        ),
        Expr::Unary(op, inner) => ExprV::Unary(op@, Box::new(expr_view(*inner))),
        Expr::Identifier(name) => ExprV::Identifier(name@),
        Expr::Call(name, args) => ExprV::Call(name@, exprs_view(args@)),
    }
}

#[via_fn]
proof fn expr_view_dec(e: Expr) {
    match e {
        Expr::Call(name, args) => {
            assert(decreases_to!(e => args));
            assert(decreases_to!(args => args@));
        },
        _ => {},
    }
}

/// The views of the expressions in a sequence.
pub open spec fn exprs_view(args: Seq<Expr>) -> Seq<ExprV>
    decreases args,
{
    if args.len() == 0 {
        Seq::empty()
    } else {
        exprs_view(args.drop_last()).push(expr_view(args.last()))
    }
}

impl View for Expr {
    type V = ExprV;

    open spec fn view(&self) -> ExprV {
        expr_view(*self)
    }
}

pub open spec fn stmt_view(st: Stmt) -> StmtV
    decreases st,
    via stmt_view_dec
{
    match st {
        Stmt::Expression(e) => StmtV::Expression(expr_view(e)),
        Stmt::Print(e) => StmtV::Print(expr_view(e)),
        Stmt::Assignment(name, e) => StmtV::Assignment(name@, expr_view(e)),
        Stmt::Block(sts) => StmtV::Block(stmts_view(sts@)),
        Stmt::Match(e, arms) => StmtV::Match(expr_view(e), arms_view(arms@)),
    }
}

#[via_fn]
proof fn stmt_view_dec(st: Stmt) {
    match st {
        Stmt::Block(sts) => {
            assert(decreases_to!(st => sts));
            assert(decreases_to!(sts => sts@));
        },
        Stmt::Match(e, arms) => {
            assert(decreases_to!(st => arms));
            assert(decreases_to!(arms => arms@));
        },
        _ => {},
    }
}

/// The views of the statements in a sequence.
pub open spec fn stmts_view(sts: Seq<Stmt>) -> Seq<StmtV>
    decreases sts,
{
    if sts.len() == 0 {
        Seq::empty()
    } else {
        stmts_view(sts.drop_last()).push(stmt_view(sts.last()))
    }
}

/// The views of the arms of a match statement.
pub open spec fn arms_view(arms: Seq<(Expr, Stmt)>) -> Seq<(ExprV, StmtV)>
    decreases arms,
{
    if arms.len() == 0 {
        Seq::empty()
    } else {
        arms_view(arms.drop_last()).push(
            (expr_view(arms.last().0), stmt_view(arms.last().1)),
        )
    }
}

impl View for Stmt {
    type V = StmtV;

    open spec fn view(&self) -> StmtV {
        stmt_view(*self)
    }
}

/// A grammar violation; each variant names the expectation that failed, as
/// the run's final message.
#[derive(Debug, PartialEq, Eq, Clone, Copy)]
pub enum ParseError {
    ExpectedAssignAfterStdout,
    ExpectedSemicolonAfterStdout,
    ExpectedSemicolonAfterAssignment,
    ExpectedRightParenAfterArgs,
    ExpectedAssignOrParen,
    ExpectedRightParenAfterExpr,
    ExpectedExpression,
}

impl ParseError {
    /// The message identifying the violated expectation.
    pub fn message(&self) -> (m: &'static str)
        ensures
            m@ == match self {
                ParseError::ExpectedAssignAfterStdout => "Expect '=' after 'stdout'."@,
                ParseError::ExpectedSemicolonAfterStdout => "Expect ';' after 'stdout' statement."@,
                ParseError::ExpectedSemicolonAfterAssignment => "Expect ';' after assignment."@,
                ParseError::ExpectedRightParenAfterArgs => "Expect ')' after function arguments."@,
                ParseError::ExpectedAssignOrParen => "Expected '=' or '('."@,
                ParseError::ExpectedRightParenAfterExpr => "Expect ')' after expression."@,
                ParseError::ExpectedExpression => "Expected expression."@,
            },
    {
        match self {
            ParseError::ExpectedAssignAfterStdout => "Expect '=' after 'stdout'.",
            ParseError::ExpectedSemicolonAfterStdout => "Expect ';' after 'stdout' statement.",
            ParseError::ExpectedSemicolonAfterAssignment => "Expect ';' after assignment.",
            ParseError::ExpectedRightParenAfterArgs => "Expect ')' after function arguments.",
            ParseError::ExpectedAssignOrParen => "Expected '=' or '('.",
            ParseError::ExpectedRightParenAfterExpr => "Expect ')' after expression.",
            ParseError::ExpectedExpression => "Expected expression.",
        }
    }
}

// ---------------------------------------------------------------------------
// The grammar as spec functions
// ---------------------------------------------------------------------------

/// The token at a cursor position; the end marker when out of range.
pub open spec fn peek_tok(toks: Seq<TokenV>, i: int) -> TokenV {
    if 0 <= i < toks.len() {
        toks[i]
    } else {
        TokenV::EOF
    }
}

/// An operator of the loosest binary level.
pub open spec fn is_equality_op(t: TokenV) -> bool {
    t is And || t is Or || t is Xor
}

/// An operator of the comparison level.
pub open spec fn is_comparison_op(t: TokenV) -> bool {
    t is Match
}

/// An operator of the additive level.
pub open spec fn is_term_op(t: TokenV) -> bool {
    t is Plus || t is Minus
}

/// An operator of the multiplicative level.
pub open spec fn is_factor_op(t: TokenV) -> bool {
    t is Star || t is Slash || t is Percent
}

/// A full expression: the loosest precedence level.
pub open spec fn spec_expression(toks: Seq<TokenV>, i: int) -> Result<(ExprV, int), ParseError>
    decreases toks.len() - i, 11int,
{
    spec_equality(toks, i)
}

pub open spec fn spec_equality(toks: Seq<TokenV>, i: int) -> Result<(ExprV, int), ParseError>
    decreases toks.len() - i, 10int,
{
    match spec_comparison(toks, i) {
        Err(e) => Err(e),
        Ok((e1, j)) => if i <= j && j <= toks.len() {
            spec_equality_rest(toks, j, e1)
        } else {
            Err(ParseError::ExpectedExpression)
        },
    }
}

/// Left-associative folding of `and`/`or`/`xor` operators onto `acc`.
pub open spec fn spec_equality_rest(toks: Seq<TokenV>, i: int, acc: ExprV) -> Result<
    (ExprV, int),
    ParseError,
>
    decreases toks.len() - i, 9int,
{
    let t = peek_tok(toks, i);
    if is_equality_op(t) {
        match spec_comparison(toks, i + 1) {
            Err(e) => Err(e),
            Ok((e2, j)) => if i < j && j <= toks.len() {
                spec_equality_rest(toks, j, ExprV::Binary(Box::new(acc), t, Box::new(e2)))
            } else {
                Err(ParseError::ExpectedExpression)
            },
        }
    } else {
        Ok((acc, i))
    }
}

pub open spec fn spec_comparison(toks: Seq<TokenV>, i: int) -> Result<(ExprV, int), ParseError>
    decreases toks.len() - i, 8int,
{
    match spec_term(toks, i) {
        Err(e) => Err(e),
        Ok((e1, j)) => if i <= j && j <= toks.len() {
            spec_comparison_rest(toks, j, e1)
        } else {
            Err(ParseError::ExpectedExpression)
        },
    }
}

/// Left-associative folding of `match` operators onto `acc`.
pub open spec fn spec_comparison_rest(toks: Seq<TokenV>, i: int, acc: ExprV) -> Result<
    (ExprV, int),
    ParseError,
>
    decreases toks.len() - i, 7int,
{
    let t = peek_tok(toks, i);
    if is_comparison_op(t) {
        match spec_term(toks, i + 1) {
            Err(e) => Err(e),
            Ok((e2, j)) => if i < j && j <= toks.len() {
                spec_comparison_rest(toks, j, ExprV::Binary(Box::new(acc), t, Box::new(e2)))
            } else {
                Err(ParseError::ExpectedExpression)
            },
        }
    } else {
        Ok((acc, i))
    }
}

pub open spec fn spec_term(toks: Seq<TokenV>, i: int) -> Result<(ExprV, int), ParseError>
    decreases toks.len() - i, 6int,
{
    match spec_factor(toks, i) {
        Err(e) => Err(e),
        Ok((e1, j)) => if i <= j && j <= toks.len() {
            spec_term_rest(toks, j, e1)
        } else {
            Err(ParseError::ExpectedExpression)
        },
    }
}

/// Left-associative folding of `+`/`-` operators onto `acc`.
pub open spec fn spec_term_rest(toks: Seq<TokenV>, i: int, acc: ExprV) -> Result<
    (ExprV, int),
    ParseError,
>
    decreases toks.len() - i, 5int,
{
    let t = peek_tok(toks, i);
    if is_term_op(t) {
        match spec_factor(toks, i + 1) {
            Err(e) => Err(e),
            Ok((e2, j)) => if i < j && j <= toks.len() {
                spec_term_rest(toks, j, ExprV::Binary(Box::new(acc), t, Box::new(e2)))
            } else {
                Err(ParseError::ExpectedExpression)
            },
        }
    } else {
        Ok((acc, i))
    }
}

pub open spec fn spec_factor(toks: Seq<TokenV>, i: int) -> Result<(ExprV, int), ParseError>
    decreases toks.len() - i, 4int,
{
    match spec_unary(toks, i) {
        Err(e) => Err(e),
        Ok((e1, j)) => if i <= j && j <= toks.len() {
            spec_factor_rest(toks, j, e1)
        } else {
            Err(ParseError::ExpectedExpression)
        },
    }
}

/// Left-associative folding of `*`/`/`/`%` operators onto `acc`.
pub open spec fn spec_factor_rest(toks: Seq<TokenV>, i: int, acc: ExprV) -> Result<
    (ExprV, int),
    ParseError,
>
    decreases toks.len() - i, 3int,
{
    let t = peek_tok(toks, i);
    if is_factor_op(t) {
        match spec_unary(toks, i + 1) {
            Err(e) => Err(e),
            Ok((e2, j)) => if i < j && j <= toks.len() {
                spec_factor_rest(toks, j, ExprV::Binary(Box::new(acc), t, Box::new(e2)))
            } else {
                Err(ParseError::ExpectedExpression)
            },
        }
    } else {
        Ok((acc, i))
    }
}

/// A chain of `-` prefixes, then a primary expression.
pub open spec fn spec_unary(toks: Seq<TokenV>, i: int) -> Result<(ExprV, int), ParseError>
    decreases toks.len() - i, 2int,
{
    if peek_tok(toks, i) is Minus {
        match spec_unary(toks, i + 1) {
            Err(e) => Err(e),
            Ok((e, j)) => Ok((ExprV::Unary(TokenV::Minus, Box::new(e)), j)),
        }
    } else {
        spec_primary(toks, i)
    }
}

/// A literal, an identifier, or a parenthesized expression; anything else is
/// the `expected expression` violation.
pub open spec fn spec_primary(toks: Seq<TokenV>, i: int) -> Result<(ExprV, int), ParseError>
    decreases toks.len() - i, 1int,
{
    let t = peek_tok(toks, i);
    if t is True || t is False || t is Number || t is String {
        Ok((ExprV::Literal(t), i + 1))
    } else if t is Identifier {
        Ok((ExprV::Identifier(t->Identifier_0), i + 1))
    } else if t is LeftParen {
        match spec_expression(toks, i + 1) {
            Err(e) => Err(e),
            Ok((e, j)) => if peek_tok(toks, j) is RightParen {
                Ok((e, j + 1))
            } else {
                Err(ParseError::ExpectedRightParenAfterExpr)
            },
        }
    } else {
        Err(ParseError::ExpectedExpression)
    }
}

/// A comma-separated expression list, empty only when the use site's
/// designated closing token — `)` for call arguments, `;` for the print
/// statement — stands right at the cursor. The closing token itself is left
/// unconsumed.
pub open spec fn spec_expr_list(toks: Seq<TokenV>, i: int, closer: TokenV) -> Result<
    (Seq<ExprV>, int),
    ParseError,
>
    decreases toks.len() - i, 13int,
{
    if peek_tok(toks, i) == closer {
        Ok((Seq::empty(), i))
    } else {
        match spec_expression(toks, i) {
            Err(e) => Err(e),
            Ok((e1, j)) => if i < j && j <= toks.len() {
                spec_expr_list_rest(toks, j, seq![e1])
            } else {
                Err(ParseError::ExpectedExpression)
            },
        }
    }
}

pub open spec fn spec_expr_list_rest(toks: Seq<TokenV>, i: int, acc: Seq<ExprV>) -> Result<
    (Seq<ExprV>, int),
    ParseError,
>
    decreases toks.len() - i, 12int,
{
    if peek_tok(toks, i) is Comma {
        match spec_expression(toks, i + 1) {
            Err(e) => Err(e),
            Ok((e2, j)) => if i < j && j <= toks.len() {
                spec_expr_list_rest(toks, j, acc.push(e2))
            } else {
                Err(ParseError::ExpectedExpression)
            },
        }
    } else {
        Ok((acc, i))
    }
}

/// The rest of a print statement, after the `stdout` keyword: `=`, an
/// expression list, `;`.
pub open spec fn spec_stdout_tail(toks: Seq<TokenV>, i: int) -> Result<(StmtV, int), ParseError> {
    if !(peek_tok(toks, i) is Assign) {
        Err(ParseError::ExpectedAssignAfterStdout)
    } else {
        match spec_expr_list(toks, i + 1, TokenV::Semicolon) {
            Err(e) => Err(e),
            Ok((es, j)) => if peek_tok(toks, j) is Semicolon {
                Ok((StmtV::Print(ExprV::Call("stdout"@, es)), j + 1))
            } else {
                Err(ParseError::ExpectedSemicolonAfterStdout)
            },
        }
    }
}

/// The rest of a statement that began with an identifier: either `= expr ;`
/// (an assignment) or `( args )` (a call, with a trailing `;` consumed when
/// one stands there); anything else is fatal.
pub open spec fn spec_assign_or_call_tail(toks: Seq<TokenV>, i: int, name: Seq<char>) -> Result<
    (StmtV, int),
    ParseError,
> {
    if peek_tok(toks, i) is Assign {
        match spec_expression(toks, i + 1) {
            Err(e) => Err(e),
            Ok((e, j)) => if peek_tok(toks, j) is Semicolon {
                Ok((StmtV::Assignment(name, e), j + 1))
            } else {
                Err(ParseError::ExpectedSemicolonAfterAssignment)
            },
        }
    } else if peek_tok(toks, i) is LeftParen {
        match spec_expr_list(toks, i + 1, TokenV::RightParen) {
            Err(e) => Err(e),
            Ok((es, j)) => if !(peek_tok(toks, j) is RightParen) {
                Err(ParseError::ExpectedRightParenAfterArgs)
            } else if peek_tok(toks, j + 1) is Semicolon {
                Ok((StmtV::Expression(ExprV::Call(name, es)), j + 2))
            } else {
                Ok((StmtV::Expression(ExprV::Call(name, es)), j + 1))
            },
        }
    } else {
        Err(ParseError::ExpectedAssignOrParen)
    }
}

/// One statement, dispatched on the first token.
pub open spec fn spec_statement(toks: Seq<TokenV>, i: int) -> Result<(StmtV, int), ParseError> {
    let t = peek_tok(toks, i);
    if t is Stdout {
        spec_stdout_tail(toks, i + 1)
    } else if t is Identifier {
        spec_assign_or_call_tail(toks, i + 1, t->Identifier_0)
    } else {
        match spec_expression(toks, i) {
            Err(e) => Err(e),
            Ok((e, j)) => Ok((StmtV::Expression(e), j)),
        }
    }
}

/// All statements from position `i` to the end marker, in source order.
pub open spec fn spec_parse_from(toks: Seq<TokenV>, i: int) -> Result<Seq<StmtV>, ParseError>
    decreases toks.len() - i,
{
    if peek_tok(toks, i) is EOF {
        Ok(Seq::empty())
    } else {
        match spec_statement(toks, i) {
            Err(e) => Err(e),
            Ok((st, j)) => if i < j && j <= toks.len() {
                match spec_parse_from(toks, j) {
                    Err(e) => Err(e),
                    Ok(sts) => Ok(seq![st] + sts),
                }
            } else {
                Err(ParseError::ExpectedExpression)
            },
        }
    }
}

// ---------------------------------------------------------------------------
// The parser
// ---------------------------------------------------------------------------

fn tok_eq(a: &Token, b: &Token) -> (r: bool)
    ensures
        r == (a@ == b@),
{
    match b {
        Token::Each => matches!(a, Token::Each),
        Token::Match => matches!(a, Token::Match),
        Token::True => matches!(a, Token::True),
        Token::False => matches!(a, Token::False),
        Token::And => matches!(a, Token::And),
        Token::Or => matches!(a, Token::Or),
        Token::Xor => matches!(a, Token::Xor),
        Token::Stdout => matches!(a, Token::Stdout),
        Token::Join => matches!(a, Token::Join),
        Token::Plus => matches!(a, Token::Plus),
        Token::Minus => matches!(a, Token::Minus),
        Token::Star => matches!(a, Token::Star),
        Token::Slash => matches!(a, Token::Slash),
        Token::Percent => matches!(a, Token::Percent),
        Token::Assign => matches!(a, Token::Assign),
        Token::Arrow => matches!(a, Token::Arrow),
        Token::ReverseArrow => matches!(a, Token::ReverseArrow),
        Token::LeftBrace => matches!(a, Token::LeftBrace),
        Token::RightBrace => matches!(a, Token::RightBrace),
        Token::LeftBracket => matches!(a, Token::LeftBracket),
        Token::RightBracket => matches!(a, Token::RightBracket),
        Token::Comma => matches!(a, Token::Comma),
        Token::Semicolon => matches!(a, Token::Semicolon),
        Token::LeftParen => matches!(a, Token::LeftParen),
        Token::RightParen => matches!(a, Token::RightParen),
        Token::EOF => matches!(a, Token::EOF),
        Token::Identifier(nb) => match a {
            Token::Identifier(na) => *na == *nb,
            _ => false,
        },
        Token::Number(vb) => match a {
            Token::Number(va) => *va == *vb,
            _ => false,
        },
        Token::String(sb) => match a {
            Token::String(sa) => *sa == *sb,
            _ => false,
        },
    }
}

proof fn lemma_exprs_view_push(s: Seq<Expr>, e: Expr)
    ensures
        exprs_view(s.push(e)) == exprs_view(s).push(e@),
{
    assert(s.push(e).drop_last() =~= s);
    assert(s.push(e).last() == e);
}

proof fn lemma_stmts_view_push(s: Seq<Stmt>, st: Stmt)
    ensures
        stmts_view(s.push(st)) == stmts_view(s).push(st@),
{
    assert(s.push(st).drop_last() =~= s);
    assert(s.push(st).last() == st);
}

/// Parsing the rest of the statements, with those already produced in front.
pub open spec fn parse_concat(done: Seq<StmtV>, rest: Result<Seq<StmtV>, ParseError>) -> Result<
    Seq<StmtV>,
    ParseError,
> {
    match rest {
        Ok(sts) => Ok(done + sts),
        Err(e) => Err(e),
    }
}

proof fn lemma_parse_step(done: Seq<StmtV>, st: StmtV, rest: Result<Seq<StmtV>, ParseError>)
    ensures
        parse_concat(
            done,
            (match rest {
                Ok(sts) => Ok(seq![st] + sts),
                Err(e) => Err(e),
            }),
        ) == parse_concat(done.push(st), rest),
{
    match rest {
        Ok(sts) => {
            assert(done + (seq![st] + sts) =~= done.push(st) + sts);
        },
        Err(e) => {},
    }
}

/// The parser: owns the token sequence it was given and a single cursor that
/// only moves forward.
pub struct Parser {
    tokens: Vec<Token>,
    current: usize,
}

impl Parser {
    /// The token views of the owned sequence.
    pub closed spec fn toks(&self) -> Seq<TokenV> {
        token_views(self.tokens@)
    }

    /// The cursor position.
    pub closed spec fn pos(&self) -> int {
        self.current as int
    }

    /// Well-formed parser state: the sequence ends with the end marker, as
    /// the lexer guarantees, and the cursor stands on some token.
    pub closed spec fn wf(&self) -> bool {
        &&& self.tokens@.len() >= 1
        &&& token_views(self.tokens@).last() is EOF
        &&& self.current < self.tokens@.len()
    }

    pub fn new(tokens: Vec<Token>) -> (r: Parser)
        ensures
            r.toks() == token_views(tokens@),
            r.pos() == 0,
            (tokens@.len() >= 1 && token_views(tokens@).last() is EOF) ==> r.wf(),
    {
        Parser { tokens, current: 0 }
    }

    fn is_at_end(&self) -> (r: bool)
        requires
            self.wf(),
        ensures
            r == (peek_tok(self.toks(), self.pos()) is EOF),
    {
        self.current >= self.tokens.len() || matches!(self.tokens[self.current], Token::EOF)
    }

    /// Whether the token at the cursor equals `token`, payloads included;
    /// always false at the end marker.
    fn check(&self, token: &Token) -> (r: bool)
        requires
            self.wf(),
        ensures
            r == (!(peek_tok(self.toks(), self.pos()) is EOF) && peek_tok(self.toks(), self.pos())
                == token@),
    {
        if self.is_at_end() {
            return false;
        }
        tok_eq(&self.tokens[self.current], token)
    }

    fn advance(&mut self)
        requires
            old(self).wf(),
            !(peek_tok(old(self).toks(), old(self).pos()) is EOF),
        ensures
            final(self).wf(),
            final(self).toks() == old(self).toks(),
            final(self).pos() == old(self).pos() + 1,
    {
        proof {
            assert(self.toks()[self.tokens@.len() - 1] is EOF);
        }
        if self.current < self.tokens.len() {
            self.current = self.current + 1;
        }
    }

    fn consume(&mut self, token: &Token, err: ParseError) -> (r: Result<(), ParseError>)
        requires
            old(self).wf(),
        ensures
            final(self).wf(),
            final(self).toks() == old(self).toks(),
            if !(peek_tok(old(self).toks(), old(self).pos()) is EOF) && peek_tok(
                old(self).toks(),
                old(self).pos(),
            ) == token@ {
                r is Ok && final(self).pos() == old(self).pos() + 1
            } else {
                r == Err::<(), ParseError>(err) && final(self).pos() == old(self).pos()
            },
    {
        if self.check(token) {
            self.advance();
            Ok(())
        } else {
            Err(err)
        }
    }

    /// Take the identifier at the cursor, if one stands there.
    fn take_identifier(&mut self) -> (r: Option<String>)
        requires
            old(self).wf(),
        ensures
            final(self).wf(),
            final(self).toks() == old(self).toks(),
            (match r {
                Some(name) => peek_tok(old(self).toks(), old(self).pos()) == TokenV::Identifier(
                    name@,
                ) && final(self).pos() == old(self).pos() + 1,
                None => !(peek_tok(old(self).toks(), old(self).pos()) is Identifier)
                    && *final(self) == *old(self),
            }),
    {
        proof {
            assert(self.toks()[self.tokens@.len() - 1] is EOF);
        }
        match &self.tokens[self.current] {
            Token::Identifier(name) => {
                let taken = name.clone();
                if self.current < self.tokens.len() {
                    self.current = self.current + 1;
                }
                Some(taken)
            },
            _ => None,
        }
    }

    /// Take the number or string literal at the cursor, if one stands there.
    fn match_literal(&mut self) -> (r: Option<Token>)
        requires
            old(self).wf(),
        ensures
            final(self).wf(),
            final(self).toks() == old(self).toks(),
            (match r {
                Some(t) => (t@ is Number || t@ is String) && t@ == peek_tok(
                    old(self).toks(),
                    old(self).pos(),
                ) && final(self).pos() == old(self).pos() + 1,
                None => !(peek_tok(old(self).toks(), old(self).pos()) is Number) && !(peek_tok(
                    old(self).toks(),
                    old(self).pos(),
                ) is String) && *final(self) == *old(self),
            }),
    {
        proof {
            assert(self.toks()[self.tokens@.len() - 1] is EOF);
        }
        match &self.tokens[self.current] {
            Token::Number(value) => {
                let t = Token::Number(*value);
                if self.current < self.tokens.len() {
                    self.current = self.current + 1;
                }
                Some(t)
            },
            Token::String(text) => {
                let t = Token::String(text.clone());
                if self.current < self.tokens.len() {
                    self.current = self.current + 1;
                }
                Some(t)
            },
            _ => None,
        }
    }

    fn expression(&mut self) -> (r: Result<Expr, ParseError>)
        requires
            old(self).wf(),
        ensures
            final(self).wf(),
            final(self).toks() == old(self).toks(),
            final(self).pos() >= old(self).pos(),
            ({
                let res = spec_expression(old(self).toks(), old(self).pos());
                match r {
                    Ok(e) => res is Ok && e@ == res->Ok_0.0 && final(self).pos() == res->Ok_0.1
                        && final(self).pos() > old(self).pos(),
                    Err(pe) => res == Err::<(ExprV, int), ParseError>(pe),
                }
            }),
        decreases old(self).toks().len() - old(self).pos(), 11int,
    {
        self.equality()
    }

    fn equality(&mut self) -> (r: Result<Expr, ParseError>)
        requires
            old(self).wf(),
        ensures
            final(self).wf(),
            final(self).toks() == old(self).toks(),
            final(self).pos() >= old(self).pos(),
            ({
                let res = spec_equality(old(self).toks(), old(self).pos());
                match r {
                    Ok(e) => res is Ok && e@ == res->Ok_0.0 && final(self).pos() == res->Ok_0.1
                        && final(self).pos() > old(self).pos(),
                    Err(pe) => res == Err::<(ExprV, int), ParseError>(pe),
                }
            }),
        decreases old(self).toks().len() - old(self).pos(), 10int,
    {
        let mut e = match self.comparison() {
            Ok(e1) => e1,
            Err(pe) => {
                return Err(pe);
            },
        };
        loop
            invariant
                self.wf(),
                self.toks() == old(self).toks(),
                self.pos() > old(self).pos(),
                spec_equality(old(self).toks(), old(self).pos()) == spec_equality_rest(
                    self.toks(),
                    self.pos(),
                    e@,
                ),
            ensures
                self.wf(),
                self.toks() == old(self).toks(),
                self.pos() > old(self).pos(),
                spec_equality(old(self).toks(), old(self).pos()) == spec_equality_rest(
                    self.toks(),
                    self.pos(),
                    e@,
                ),
                !is_equality_op(peek_tok(self.toks(), self.pos())),
            decreases self.toks().len() - self.pos(),
        {
            let op: Token;
            if self.check(&Token::And) {
                op = Token::And;
            } else if self.check(&Token::Or) {
                op = Token::Or;
            } else if self.check(&Token::Xor) {
                op = Token::Xor;
            } else {
                break ;
            }
            self.advance();
            let right = match self.comparison() {
                Ok(e2) => e2,
                Err(pe) => {
                    return Err(pe);
                },
            };
            e = Expr::Binary(Box::new(e), op, Box::new(right));
        }
        Ok(e)
    }

    fn comparison(&mut self) -> (r: Result<Expr, ParseError>)
        requires
            old(self).wf(),
        ensures
            final(self).wf(),
            final(self).toks() == old(self).toks(),
            final(self).pos() >= old(self).pos(),
            ({
                let res = spec_comparison(old(self).toks(), old(self).pos());
                match r {
                    Ok(e) => res is Ok && e@ == res->Ok_0.0 && final(self).pos() == res->Ok_0.1
                        && final(self).pos() > old(self).pos(),
                    Err(pe) => res == Err::<(ExprV, int), ParseError>(pe),
                }
            }),
        decreases old(self).toks().len() - old(self).pos(), 8int,
    {
        let mut e = match self.term() {
            Ok(e1) => e1,
            Err(pe) => {
                return Err(pe);
            },
        };
        loop
            invariant
                self.wf(),
                self.toks() == old(self).toks(),
                self.pos() > old(self).pos(),
                spec_comparison(old(self).toks(), old(self).pos()) == spec_comparison_rest(
                    self.toks(),
                    self.pos(),
                    e@,
                ),
            ensures
                self.wf(),
                self.toks() == old(self).toks(),
                self.pos() > old(self).pos(),
                spec_comparison(old(self).toks(), old(self).pos()) == spec_comparison_rest(
                    self.toks(),
                    self.pos(),
                    e@,
                ),
                !is_comparison_op(peek_tok(self.toks(), self.pos())),
            decreases self.toks().len() - self.pos(),
        {
            if !self.check(&Token::Match) {
                break ;
            }
            let op = Token::Match;
            self.advance();
            let right = match self.term() {
                Ok(e2) => e2,
                Err(pe) => {
                    return Err(pe);
                },
            };
            e = Expr::Binary(Box::new(e), op, Box::new(right));
        }
        Ok(e)
    }

    fn term(&mut self) -> (r: Result<Expr, ParseError>)
        requires
            old(self).wf(),
        ensures
            final(self).wf(),
            final(self).toks() == old(self).toks(),
            final(self).pos() >= old(self).pos(),
            ({
                let res = spec_term(old(self).toks(), old(self).pos());
                match r {
                    Ok(e) => res is Ok && e@ == res->Ok_0.0 && final(self).pos() == res->Ok_0.1
                        && final(self).pos() > old(self).pos(),
                    Err(pe) => res == Err::<(ExprV, int), ParseError>(pe),
                }
            }),
        decreases old(self).toks().len() - old(self).pos(), 6int,
    {
        let mut e = match self.factor() {
            Ok(e1) => e1,
            Err(pe) => {
                return Err(pe);
            },
        };
        loop
            invariant
                self.wf(),
                self.toks() == old(self).toks(),
                self.pos() > old(self).pos(),
                spec_term(old(self).toks(), old(self).pos()) == spec_term_rest(
                    self.toks(),
                    self.pos(),
                    e@,
                ),
            ensures
                self.wf(),
                self.toks() == old(self).toks(),
                self.pos() > old(self).pos(),
                spec_term(old(self).toks(), old(self).pos()) == spec_term_rest(
                    self.toks(),
                    self.pos(),
                    e@,
                ),
                !is_term_op(peek_tok(self.toks(), self.pos())),
            decreases self.toks().len() - self.pos(),
        {
            let op: Token;
            if self.check(&Token::Plus) {
                op = Token::Plus;
            } else if self.check(&Token::Minus) {
                op = Token::Minus;
            } else {
                break ;
            }
            self.advance();
            let right = match self.factor() {
                Ok(e2) => e2,
                Err(pe) => {
                    return Err(pe);
                },
            };
            e = Expr::Binary(Box::new(e), op, Box::new(right));
        }
        Ok(e)
    }

    fn factor(&mut self) -> (r: Result<Expr, ParseError>)
        requires
            old(self).wf(),
        ensures
            final(self).wf(),
            final(self).toks() == old(self).toks(),
            final(self).pos() >= old(self).pos(),
            ({
                let res = spec_factor(old(self).toks(), old(self).pos());
                match r {
                    Ok(e) => res is Ok && e@ == res->Ok_0.0 && final(self).pos() == res->Ok_0.1
                        && final(self).pos() > old(self).pos(),
                    Err(pe) => res == Err::<(ExprV, int), ParseError>(pe),
                }
            }),
        decreases old(self).toks().len() - old(self).pos(), 4int,
    {
        let mut e = match self.unary() {
            Ok(e1) => e1,
            Err(pe) => {
                return Err(pe);
            },
        };
        loop
            invariant
                self.wf(),
                self.toks() == old(self).toks(),
                self.pos() > old(self).pos(),
                spec_factor(old(self).toks(), old(self).pos()) == spec_factor_rest(
                    self.toks(),
                    self.pos(),
                    e@,
                ),
            ensures
                self.wf(),
                self.toks() == old(self).toks(),
                self.pos() > old(self).pos(),
                spec_factor(old(self).toks(), old(self).pos()) == spec_factor_rest(
                    self.toks(),
                    self.pos(),
                    e@,
                ),
                !is_factor_op(peek_tok(self.toks(), self.pos())),
            decreases self.toks().len() - self.pos(),
        {
            let op: Token;
            if self.check(&Token::Star) {
                op = Token::Star;
            } else if self.check(&Token::Slash) {
                op = Token::Slash;
            } else if self.check(&Token::Percent) {
                op = Token::Percent;
            } else {
                break ;
            }
            self.advance();
            let right = match self.unary() {
                Ok(e2) => e2,
                Err(pe) => {
                    return Err(pe);
                },
            };
            e = Expr::Binary(Box::new(e), op, Box::new(right));
        }
        Ok(e)
    }

    fn unary(&mut self) -> (r: Result<Expr, ParseError>)
        requires
            old(self).wf(),
        ensures
            final(self).wf(),
            final(self).toks() == old(self).toks(),
            final(self).pos() >= old(self).pos(),
            ({
                let res = spec_unary(old(self).toks(), old(self).pos());
                match r {
                    Ok(e) => res is Ok && e@ == res->Ok_0.0 && final(self).pos() == res->Ok_0.1
                        && final(self).pos() > old(self).pos(),
                    Err(pe) => res == Err::<(ExprV, int), ParseError>(pe),
                }
            }),
        decreases old(self).toks().len() - old(self).pos(), 2int,
    {
        if self.check(&Token::Minus) {
            self.advance();
            match self.unary() {
                Ok(right) => Ok(Expr::Unary(Token::Minus, Box::new(right))),
                Err(pe) => Err(pe),
            }
        } else {
            self.primary()
        }
    }

    fn primary(&mut self) -> (r: Result<Expr, ParseError>)
        requires
            old(self).wf(),
        ensures
            final(self).wf(),
            final(self).toks() == old(self).toks(),
            final(self).pos() >= old(self).pos(),
            ({
                let res = spec_primary(old(self).toks(), old(self).pos());
                match r {
                    Ok(e) => res is Ok && e@ == res->Ok_0.0 && final(self).pos() == res->Ok_0.1
                        && final(self).pos() > old(self).pos(),
                    Err(pe) => res == Err::<(ExprV, int), ParseError>(pe),
                }
            }),
        decreases old(self).toks().len() - old(self).pos(), 1int,
    {
        if self.check(&Token::True) {
            self.advance();
            return Ok(Expr::Literal(Token::True));
        }
        if self.check(&Token::False) {
            self.advance();
            return Ok(Expr::Literal(Token::False));
        }
        match self.match_literal() {
            Some(t) => {
                return Ok(Expr::Literal(t));
            },
            None => {},
        }
        match self.take_identifier() {
            Some(name) => {
                return Ok(Expr::Identifier(name));
            },
            None => {},
        }
        if self.check(&Token::LeftParen) {
            self.advance();
            let e = match self.expression() {
                Ok(e1) => e1,
                Err(pe) => {
                    return Err(pe);
                },
            };
            match self.consume(&Token::RightParen, ParseError::ExpectedRightParenAfterExpr) {
                Ok(u) => Ok(e),
                Err(pe) => Err(pe),
            }
        } else {
            Err(ParseError::ExpectedExpression)
        }
    }

    /// A comma-separated expression list; empty only when the use site's
    /// designated closing token stands right at the cursor, which is left
    /// unconsumed.
    fn expression_list(&mut self, closer: &Token) -> (r: Result<Vec<Expr>, ParseError>)
        requires
            old(self).wf(),
            !(closer@ is EOF),
        ensures
            final(self).wf(),
            final(self).toks() == old(self).toks(),
            final(self).pos() >= old(self).pos(),
            ({
                let res = spec_expr_list(old(self).toks(), old(self).pos(), closer@);
                match r {
                    Ok(es) => res is Ok && exprs_view(es@) == res->Ok_0.0 && final(self).pos()
                        == res->Ok_0.1,
                    Err(pe) => res == Err::<(Seq<ExprV>, int), ParseError>(pe),
                }
            }),
    {
        let mut exprs: Vec<Expr> = Vec::new();
        if self.check(closer) {
            return Ok(exprs);
        }
        let e1 = match self.expression() {
            Ok(e) => e,
            Err(pe) => {
                return Err(pe);
            },
        };
        proof {
            lemma_exprs_view_push(Seq::empty(), e1);
            assert(Seq::<ExprV>::empty().push(e1@) =~= seq![e1@]);
        }
        exprs.push(e1);
        loop
            invariant
                self.wf(),
                self.toks() == old(self).toks(),
                self.pos() > old(self).pos(),
                spec_expr_list(old(self).toks(), old(self).pos(), closer@)
                    == spec_expr_list_rest(self.toks(), self.pos(), exprs_view(exprs@)),
            ensures
                self.wf(),
                self.toks() == old(self).toks(),
                self.pos() > old(self).pos(),
                spec_expr_list(old(self).toks(), old(self).pos(), closer@)
                    == spec_expr_list_rest(self.toks(), self.pos(), exprs_view(exprs@)),
                !(peek_tok(self.toks(), self.pos()) is Comma),
            decreases self.toks().len() - self.pos(),
        {
            if !self.check(&Token::Comma) {
                break ;
            }
            self.advance();
            let en = match self.expression() {
                Ok(e) => e,
                Err(pe) => {
                    return Err(pe);
                },
            };
            proof {
                lemma_exprs_view_push(exprs@, en);
            }
            exprs.push(en);
        }
        Ok(exprs)
    }

    /// The rest of a print statement, after the `stdout` keyword: `=`, an
    /// expression list, `;`.
    fn stdout_statement(&mut self) -> (r: Result<Stmt, ParseError>)
        requires
            old(self).wf(),
        ensures
            final(self).wf(),
            final(self).toks() == old(self).toks(),
            final(self).pos() >= old(self).pos(),
            ({
                let res = spec_stdout_tail(old(self).toks(), old(self).pos());
                match r {
                    Ok(st) => res is Ok && st@ == res->Ok_0.0 && final(self).pos() == res->Ok_0.1
                        && final(self).pos() > old(self).pos(),
                    Err(pe) => res == Err::<(StmtV, int), ParseError>(pe),
                }
            }),
    {
        match self.consume(&Token::Assign, ParseError::ExpectedAssignAfterStdout) {
            Ok(u) => {},
            Err(pe) => {
                return Err(pe);
            },
        }
        let exprs = match self.expression_list(&Token::Semicolon) {
            Ok(es) => es,
            Err(pe) => {
                return Err(pe);
            },
        };
        match self.consume(&Token::Semicolon, ParseError::ExpectedSemicolonAfterStdout) {
            Ok(u) => Ok(Stmt::Print(Expr::Call(String::from_str("stdout"), exprs))),
            Err(pe) => Err(pe),
        }
    }

    /// The rest of a statement that began with an identifier: an assignment
    /// after `=`, a call after `(`, and a fatal violation otherwise.
    #[verifier::rlimit(40)]
    fn assignment_or_call(&mut self, identifier: String) -> (r: Result<Stmt, ParseError>)
        requires
            old(self).wf(),
        ensures
            final(self).wf(),
            final(self).toks() == old(self).toks(),
            final(self).pos() >= old(self).pos(),
            ({
                let res = spec_assign_or_call_tail(old(self).toks(), old(self).pos(), identifier@);
                match r {
                    Ok(st) => res is Ok && st@ == res->Ok_0.0 && final(self).pos() == res->Ok_0.1
                        && final(self).pos() > old(self).pos(),
                    Err(pe) => res == Err::<(StmtV, int), ParseError>(pe),
                }
            }),
    {
        if self.check(&Token::Assign) {
            self.advance();
            let value = match self.expression() {
                Ok(e) => e,
                Err(pe) => {
                    return Err(pe);
                },
            };
            match self.consume(&Token::Semicolon, ParseError::ExpectedSemicolonAfterAssignment) {
                Ok(u) => Ok(Stmt::Assignment(identifier, value)),
                Err(pe) => Err(pe),
            }
        } else if self.check(&Token::LeftParen) {
            self.advance();
            let args = match self.expression_list(&Token::RightParen) {
                Ok(es) => es,
                Err(pe) => {
                    return Err(pe);
                },
            };
            match self.consume(&Token::RightParen, ParseError::ExpectedRightParenAfterArgs) {
                Ok(u) => {},
                Err(pe) => {
                    return Err(pe);
                },
            }
            if self.check(&Token::Semicolon) {
                self.advance();
            }
            Ok(Stmt::Expression(Expr::Call(identifier, args)))
        } else {
            Err(ParseError::ExpectedAssignOrParen)
        }
    }

    /// One statement, dispatched on the first token: a print statement after
    /// `stdout`, an assignment or call after an identifier, and otherwise a
    /// bare expression statement.
    fn statement(&mut self) -> (r: Result<Stmt, ParseError>)
        requires
            old(self).wf(),
        ensures
            final(self).wf(),
            final(self).toks() == old(self).toks(),
            final(self).pos() >= old(self).pos(),
            ({
                let res = spec_statement(old(self).toks(), old(self).pos());
                match r {
                    Ok(st) => res is Ok && st@ == res->Ok_0.0 && final(self).pos() == res->Ok_0.1
                        && final(self).pos() > old(self).pos(),
                    Err(pe) => res == Err::<(StmtV, int), ParseError>(pe),
                }
            }),
    {
        if self.check(&Token::Stdout) {
            self.advance();
            self.stdout_statement()
        } else {
            match self.take_identifier() {
                Some(name) => self.assignment_or_call(name),
                None => {
                    match self.expression() {
                        Ok(e) => Ok(Stmt::Expression(e)),
                        Err(pe) => Err(pe),
                    }
                },
            }
        }
    }

    /// Parse every statement up to the end marker, in source order; the first
    /// grammar violation ends the run with its error and no partial result.
    pub fn parse(&mut self) -> (r: Result<Vec<Stmt>, ParseError>)
        requires
            old(self).wf(),
        ensures
            final(self).wf(),
            final(self).toks() == old(self).toks(),
            ({
                let res = spec_parse_from(old(self).toks(), old(self).pos());
                match r {
                    Ok(sts) => res is Ok && stmts_view(sts@) == res->Ok_0,
                    Err(pe) => res == Err::<Seq<StmtV>, ParseError>(pe),
                }
            }),
    {
        let mut statements: Vec<Stmt> = Vec::new();
        proof {
            assert(stmts_view(statements@) =~= Seq::<StmtV>::empty());
            assert(match spec_parse_from(self.toks(), self.pos()) {
                Ok(sts) => Seq::<StmtV>::empty() + sts =~= sts,
                Err(pe) => true,
            });
        }
        loop
            invariant
                self.wf(),
                self.toks() == old(self).toks(),
                self.pos() >= old(self).pos(),
                spec_parse_from(old(self).toks(), old(self).pos()) == parse_concat(
                    stmts_view(statements@),
                    spec_parse_from(self.toks(), self.pos()),
                ),
            ensures
                self.wf(),
                self.toks() == old(self).toks(),
                spec_parse_from(old(self).toks(), old(self).pos()) == parse_concat(
                    stmts_view(statements@),
                    spec_parse_from(self.toks(), self.pos()),
                ),
                peek_tok(self.toks(), self.pos()) is EOF,
            decreases self.toks().len() - self.pos(),
        {
            if self.is_at_end() {
                break ;
            }
            let ghost done = stmts_view(statements@);
            let st = match self.statement() {
                Ok(st) => st,
                Err(pe) => {
                    return Err(pe);
                },
            };
            proof {
                lemma_stmts_view_push(statements@, st);
                lemma_parse_step(done, st@, spec_parse_from(self.toks(), self.pos()));
            }
            statements.push(st);
        }
        proof {
            assert(spec_parse_from(self.toks(), self.pos()) == Ok::<Seq<StmtV>, ParseError>(
                Seq::empty(),
            ));
            assert(stmts_view(statements@) + Seq::<StmtV>::empty() =~= stmts_view(statements@));
        }
        Ok(statements)
    }
}

} // verus!
