use vstd::prelude::*;
use vstd::string::StringExecFns;
use crate::ast::Expr;
use crate::lexer::{lemma_scan_ends_with_eof, scan_errors, scan_tokens, LexError, Lexer};
use crate::token::{views, Literal, Token, TokenType};

verus! {

/// What the parser looked for where it failed.
#[derive(Debug, Clone, Copy, PartialEq, Eq, Structural)]
pub enum Expected {
    /// An expression: a literal, a prefix operator or `(`.
    Expression,
    /// The `)` that closes a grouping.
    RightParen,
}

/// A syntax error: the offending token and what was expected there.
#[derive(Debug, PartialEq)]
pub struct ParseError {
    pub token: Token,
    pub expected: Expected,
}

pub open spec fn message_text(e: Expected) -> Seq<char> {
    match e {
        Expected::Expression => "Expect expression."@,
        Expected::RightParen => "Expect ')' after expression."@,
    }
}

impl ParseError {
    /// A description of what was expected.
    pub fn message(&self) -> (r: String)
        ensures
            r@ == message_text(self.expected),
    {
        match self.expected {
            Expected::Expression => String::from_str("Expect expression."),
            Expected::RightParen => String::from_str("Expect ')' after expression."),
        }
    }
}

/// A tree and the position of the first token after it, or a syntax error.
pub type Parsed = Result<(Expr, int), ParseError>;

pub open spec fn fail(ts: Seq<Token>, p: int, expected: Expected) -> Parsed {
    Err(ParseError { token: ts[p], expected })
}

/// The operators of a binary level: 0 equality, 1 comparison, 2 term, 3 factor.
pub open spec fn level_ops(level: int) -> Seq<TokenType> {
    if level == 0 {
        seq![TokenType::BangEqual, TokenType::EqualEqual]
    } else if level == 1 {
        seq![TokenType::Greater, TokenType::GreaterEqual, TokenType::Less, TokenType::LessEqual]
    } else if level == 2 {
        seq![TokenType::Minus, TokenType::Plus]
    } else {
        seq![TokenType::Slash, TokenType::Star]
    }
}

pub open spec fn unary_ops() -> Seq<TokenType> {
    seq![TokenType::Bang, TokenType::Minus]
}

/// Whether the token at `p` is one of `ops` (the end of input never is).
pub open spec fn at_one_of(ts: Seq<Token>, p: int, ops: Seq<TokenType>) -> bool {
    ts[p].kind != TokenType::Eof && ops.contains(ts[p].kind)
}

pub open spec fn level_rank(level: int) -> int {
    3 + 2 * (3 - level)
}

/// `level → next ( op next )*` from position `p`, where `next` is the
/// following level, or `unary` after the last one.
pub open spec fn parse_binary(ts: Seq<Token>, p: int, level: int) -> Parsed
    decreases ts.len() - p, level_rank(level),
{
    if 0 <= level <= 3 && 0 <= p < ts.len() {
        let first = if level == 3 {
            parse_unary(ts, p)
        } else {
            parse_binary(ts, p, level + 1)
        };
        match first {
            Ok((e, q)) => if p < q < ts.len() {
                binary_tail(ts, q, level, e)
            } else {
                fail(ts, p, Expected::Expression)
            },
            Err(x) => Err(x),
        }
    } else {
        fail(ts, p, Expected::Expression)
    }
}

/// The loop of a binary level: while an operator of the level follows,
/// fold it and the next operand into a left-leaning `Binary` node.
pub open spec fn binary_tail(ts: Seq<Token>, q: int, level: int, acc: Expr) -> Parsed
    decreases ts.len() - q, level_rank(level) - 1,
{
    if 0 <= level <= 3 && 0 <= q < ts.len() {
        if at_one_of(ts, q, level_ops(level)) {
            let right = if level == 3 {
                parse_unary(ts, q + 1)
            } else {
                parse_binary(ts, q + 1, level + 1)
            };
            match right {
                Ok((r, q2)) => if q < q2 < ts.len() {
                    binary_tail(ts, q2, level, Expr::Binary { left: Box::new(acc), operator: ts[q], right: Box::new(r) })
                } else {
                    fail(ts, q, Expected::Expression)
                },
                Err(x) => Err(x),
            }
        } else {
            Ok((acc, q))
        }
    } else {
        fail(ts, q, Expected::Expression)
    }
}

/// `unary → ( "!" | "-" ) unary | primary`
pub open spec fn parse_unary(ts: Seq<Token>, p: int) -> Parsed
    decreases ts.len() - p, 1int,
{
    if 0 <= p < ts.len() {
        if at_one_of(ts, p, unary_ops()) {
            match parse_unary(ts, p + 1) {
                Ok((r, q)) => Ok((Expr::Unary { operator: ts[p], right: Box::new(r) }, q)),
                Err(x) => Err(x),
            }
        } else {
            parse_primary(ts, p)
        }
    } else {
        fail(ts, p, Expected::Expression)
    }
}

/// `primary → NUMBER | STRING | "true" | "false" | "nil" | "(" expression ")"`
pub open spec fn parse_primary(ts: Seq<Token>, p: int) -> Parsed
    decreases ts.len() - p, 0int,
{
    if 0 <= p < ts.len() {
        let k = ts[p].kind;
        if k == TokenType::False {
            Ok((Expr::Literal(Literal::Bool(false)), p + 1))
        } else if k == TokenType::True {
            Ok((Expr::Literal(Literal::Bool(true)), p + 1))
        } else if k == TokenType::Nil {
            Ok((Expr::Literal(Literal::Nil), p + 1))
        } else if k == TokenType::Number || k == TokenType::String {
            match ts[p].literal {
                Some(l) => Ok((Expr::Literal(l), p + 1)),
                None => fail(ts, p, Expected::Expression),
            }
        } else if k == TokenType::LeftParen {
            match parse_binary(ts, p + 1, 0) {
                Ok((e, q)) => if 0 <= q < ts.len() && ts[q].kind == TokenType::RightParen {
                    Ok((Expr::Grouping { expr: Box::new(e) }, q + 1))
                } else {
                    fail(ts, q, Expected::RightParen)
                },
                Err(x) => Err(x),
            }
        } else {
            fail(ts, p, Expected::Expression)
        }
    } else {
        fail(ts, p, Expected::Expression)
    }
}

/// The tree that the whole token sequence starts with, or the first syntax error.
pub open spec fn parse_result(ts: Seq<Token>) -> Result<Expr, ParseError> {
    match parse_binary(ts, 0, 0) {
        Ok((e, _)) => Ok(e),
        Err(x) => Err(x),
    }
}

/// A token sequence the parser can walk: it ends with the end-of-input token.
pub open spec fn parsable(ts: Seq<Token>) -> bool {
    ts.len() > 0 && ts.last().kind == TokenType::Eof
}

/// A recursive-descent parser over one token sequence, used once.
pub struct Parser {
    tokens: Vec<Token>,
    current: usize,
}

impl Parser {
    /// The token sequence.
    pub closed spec fn input(&self) -> Seq<Token> {
        self.tokens@
    }

    /// The cursor: the position of the next token to read.
    pub closed spec fn cursor(&self) -> int {
        self.current as int
    }

    closed spec fn wf(&self) -> bool {
        parsable(self.tokens@) && self.current < self.tokens@.len() && self.tokens@.len() <= usize::MAX
    }

    /// A parser that has read nothing yet.
    pub closed spec fn ready(&self) -> bool {
        self.wf() && self.current == 0
    }

    /// `r` and the new cursor `cur` are what `s` says, and a
    /// success has moved the cursor past `start`.
    pub open spec fn agrees(r: Result<Expr, ParseError>, start: int, cur: int, s: Parsed) -> bool {
        match s {
            Ok((e, q)) => r == Ok::<Expr, ParseError>(e) && cur == q && start < cur,
            Err(x) => r == Err::<Expr, ParseError>(x),
        }
    }

    pub fn new(tokens: Vec<Token>) -> (r: Self)
        requires
            parsable(tokens@),
        ensures
            r.input() == tokens@,
            r.ready(),
    {
        let _n = tokens.len();
        Self { tokens, current: 0 }
    }

    fn peek(&self) -> (r: &Token)
        requires
            self.wf(),
        ensures
            *r == self.tokens@[self.current as int],
    {
        &self.tokens[self.current]
    }

    fn previous(&self) -> (r: Token)
        requires
            self.wf(),
            self.current > 0,
        ensures
            r == self.tokens@[self.current - 1],
    {
        self.tokens[self.current - 1].clone()
    }

    fn at_end(&self) -> (r: bool)
        requires
            self.wf(),
        ensures
            r == (self.tokens@[self.current as int].kind == TokenType::Eof),
    {
        self.peek().kind == TokenType::Eof
    }

    fn advance(&mut self) -> (r: Token)
        requires
            old(self).wf(),
            old(self).tokens@[old(self).current as int].kind != TokenType::Eof,
        ensures
            final(self).wf(),
            final(self).tokens@ == old(self).tokens@,
            final(self).current == old(self).current + 1,
            r == old(self).tokens@[old(self).current as int],
    {
        if !self.at_end() {
            self.current = self.current + 1;
        }
        self.previous()
    }

    fn check(&self, t: TokenType) -> (r: bool)
        requires
            self.wf(),
        ensures
            r == (self.tokens@[self.current as int].kind != TokenType::Eof
                && self.tokens@[self.current as int].kind == t),
    {
        if self.at_end() {
            return false;
        }
        self.peek().kind == t
    }

    fn match_next(&mut self, types: Vec<TokenType>) -> (r: bool)
        requires
            old(self).wf(),
        ensures
            final(self).wf(),
            final(self).tokens@ == old(self).tokens@,
            r == at_one_of(old(self).tokens@, old(self).current as int, types@),
            final(self).current == old(self).current + if r { 1int } else { 0int },
    {
        let mut i: usize = 0;
        while i < types.len()
            invariant
                self.wf(),
                self.tokens@ == old(self).tokens@,
                self.current == old(self).current,
                i <= types@.len(),
                forall|j: int| 0 <= j < i ==> types@[j] != self.tokens@[self.current as int].kind,
            decreases types@.len() - i,
        {
            if self.check(types[i]) {
                self.advance();
                return true;
            }
            if self.at_end() {
                assert(!at_one_of(self.tokens@, self.current as int, types@));
                return false;
            }
            i = i + 1;
        }
        false
    }

    fn consume(&mut self, t: TokenType, expected: Expected) -> (r: Result<Token, ParseError>)
        requires
            old(self).wf(),
        ensures
            final(self).wf(),
            final(self).tokens@ == old(self).tokens@,
            ({
                let tok = old(self).tokens@[old(self).current as int];
                if tok.kind != TokenType::Eof && tok.kind == t {
                    r == Ok::<Token, ParseError>(tok) && final(self).current == old(self).current + 1
                } else {
                    r == Err::<Token, ParseError>(ParseError { token: tok, expected })
                }
            }),
    {
        if self.check(t) {
            Ok(self.advance())
        } else {
            Err(ParseError { token: self.peek().clone(), expected })
        }
    }

    /// Parses one expression from the start of the tokens.
    pub fn parse(self) -> (r: Result<Expr, ParseError>)
        requires
            self.ready(),
        ensures
            r == parse_result(self.input()),
    {
        let mut p = self;
        p.expression()
    }

    fn expression(&mut self) -> (r: Result<Expr, ParseError>)
        requires
            old(self).wf(),
        ensures
            final(self).wf(),
            final(self).tokens@ == old(self).tokens@,
            Self::agrees(r, old(self).current as int, final(self).current as int,
                parse_binary(old(self).tokens@, old(self).current as int, 0)),
        decreases old(self).tokens@.len() - old(self).current, 10int,
    {
        self.equality()
    }

    fn equality(&mut self) -> (r: Result<Expr, ParseError>)
        requires
            old(self).wf(),
        ensures
            final(self).wf(),
            final(self).tokens@ == old(self).tokens@,
            Self::agrees(r, old(self).current as int, final(self).current as int,
                parse_binary(old(self).tokens@, old(self).current as int, 0)),
        decreases old(self).tokens@.len() - old(self).current, 9int,
    {
        let ghost ts = self.tokens@;
        let ghost p0 = self.current as int;
        let first = self.comparison();
        let mut expr = match first {
            Ok(e) => e,
            Err(x) => return Err(x),
        };
        loop
            invariant
                self.wf(),
                self.tokens@ == ts,
                ts == old(self).tokens@,
                p0 == old(self).current,
                p0 < self.current,
                parse_binary(ts, p0, 0) == binary_tail(ts, self.current as int, 0, expr),
            decreases ts.len() - self.current,
        {
            let ops = vec![TokenType::BangEqual, TokenType::EqualEqual];
            proof {
                assert(ops@ =~= level_ops(0));
            }
            if !self.match_next(ops) {
                return Ok(expr);
            }
            let operator = self.previous();
            let right = match self.comparison() {
                Ok(e) => e,
                Err(x) => return Err(x),
            };
            expr = Expr::Binary { left: Box::new(expr), operator, right: Box::new(right) };
        }
    }

    fn comparison(&mut self) -> (r: Result<Expr, ParseError>)
        requires
            old(self).wf(),
        ensures
            final(self).wf(),
            final(self).tokens@ == old(self).tokens@,
            Self::agrees(r, old(self).current as int, final(self).current as int,
                parse_binary(old(self).tokens@, old(self).current as int, 1)),
        decreases old(self).tokens@.len() - old(self).current, 7int,
    {
        let ghost ts = self.tokens@;
        let ghost p0 = self.current as int;
        let first = self.term();
        let mut expr = match first {
            Ok(e) => e,
            Err(x) => return Err(x),
        };
        loop
            invariant
                self.wf(),
                self.tokens@ == ts,
                ts == old(self).tokens@,
                p0 == old(self).current,
                p0 < self.current,
                parse_binary(ts, p0, 1) == binary_tail(ts, self.current as int, 1, expr),
            decreases ts.len() - self.current,
        {
            let ops = vec![TokenType::Greater, TokenType::GreaterEqual, TokenType::Less, TokenType::LessEqual];
            proof {
                assert(ops@ =~= level_ops(1));
            }
            if !self.match_next(ops) {
                return Ok(expr);
            }
            let operator = self.previous();
            let right = match self.term() {
                Ok(e) => e,
                Err(x) => return Err(x),
            };
            expr = Expr::Binary { left: Box::new(expr), operator, right: Box::new(right) };
        }
    }

    fn term(&mut self) -> (r: Result<Expr, ParseError>)
        requires
            old(self).wf(),
        ensures
            final(self).wf(),
            final(self).tokens@ == old(self).tokens@,
            Self::agrees(r, old(self).current as int, final(self).current as int,
                parse_binary(old(self).tokens@, old(self).current as int, 2)),
        decreases old(self).tokens@.len() - old(self).current, 5int,
    {
        let ghost ts = self.tokens@;
        let ghost p0 = self.current as int;
        let first = self.factor();
        let mut expr = match first {
            Ok(e) => e,
            Err(x) => return Err(x),
        };
        loop
            invariant
                self.wf(),
                self.tokens@ == ts,
                ts == old(self).tokens@,
                p0 == old(self).current,
                p0 < self.current,
                parse_binary(ts, p0, 2) == binary_tail(ts, self.current as int, 2, expr),
            decreases ts.len() - self.current,
        {
            let ops = vec![TokenType::Minus, TokenType::Plus];
            proof {
                assert(ops@ =~= level_ops(2));
            }
            if !self.match_next(ops) {
                return Ok(expr);
            }
            let operator = self.previous();
            let right = match self.factor() {
                Ok(e) => e,
                Err(x) => return Err(x),
            };
            expr = Expr::Binary { left: Box::new(expr), operator, right: Box::new(right) };
        }
    }

    fn factor(&mut self) -> (r: Result<Expr, ParseError>)
        requires
            old(self).wf(),
        ensures
            final(self).wf(),
            final(self).tokens@ == old(self).tokens@,
            Self::agrees(r, old(self).current as int, final(self).current as int,
                parse_binary(old(self).tokens@, old(self).current as int, 3)),
        decreases old(self).tokens@.len() - old(self).current, 3int,
    {
        let ghost ts = self.tokens@;
        let ghost p0 = self.current as int;
        let first = self.unary();
        let mut expr = match first {
            Ok(e) => e,
            Err(x) => return Err(x),
        };
        loop
            invariant
                self.wf(),
                self.tokens@ == ts,
                ts == old(self).tokens@,
                p0 == old(self).current,
                p0 < self.current,
                parse_binary(ts, p0, 3) == binary_tail(ts, self.current as int, 3, expr),
            decreases ts.len() - self.current,
        {
            let ops = vec![TokenType::Slash, TokenType::Star];
            proof {
                assert(ops@ =~= level_ops(3));
            }
            if !self.match_next(ops) {
                return Ok(expr);
            }
            let operator = self.previous();
            let right = match self.unary() {
                Ok(e) => e,
                Err(x) => return Err(x),
            };
            expr = Expr::Binary { left: Box::new(expr), operator, right: Box::new(right) };
        }
    }

    fn unary(&mut self) -> (r: Result<Expr, ParseError>)
        requires
            old(self).wf(),
        ensures
            final(self).wf(),
            final(self).tokens@ == old(self).tokens@,
            Self::agrees(r, old(self).current as int, final(self).current as int,
                parse_unary(old(self).tokens@, old(self).current as int)),
        decreases old(self).tokens@.len() - old(self).current, 1int,
    {
        let ops = vec![TokenType::Bang, TokenType::Minus];
        proof {
            assert(ops@ =~= unary_ops());
        }
        if self.match_next(ops) {
            let operator = self.previous();
            let right = match self.unary() {
                Ok(e) => e,
                Err(x) => return Err(x),
            };
            return Ok(Expr::Unary { operator, right: Box::new(right) });
        }
        self.primary()
    }

    fn primary(&mut self) -> (r: Result<Expr, ParseError>)
        requires
            old(self).wf(),
        ensures
            final(self).wf(),
            final(self).tokens@ == old(self).tokens@,
            Self::agrees(r, old(self).current as int, final(self).current as int,
                parse_primary(old(self).tokens@, old(self).current as int)),
        decreases old(self).tokens@.len() - old(self).current, 0int,
    {
        // true, false and nil are literal values of their own, not strings
        if self.check(TokenType::False) {
            self.advance();
            return Ok(Expr::Literal(Literal::Bool(false)));
        }
        if self.check(TokenType::True) {
            self.advance();
            return Ok(Expr::Literal(Literal::Bool(true)));
        }
        if self.check(TokenType::Nil) {
            self.advance();
            return Ok(Expr::Literal(Literal::Nil));
        }
        if self.check(TokenType::Number) || self.check(TokenType::String) {
            let t = self.peek();
            match &t.literal {
                Some(l) => {
                    let l = l.clone();
                    self.advance();
                    return Ok(Expr::Literal(l));
                },
                None => {
                    return Err(ParseError { token: t.clone(), expected: Expected::Expression });
                },
            }
        }
        if self.check(TokenType::LeftParen) {
            self.advance();
            let expr = match self.expression() {
                Ok(e) => e,
                Err(x) => return Err(x),
            };
            return match self.consume(TokenType::RightParen, Expected::RightParen) {
                Ok(_) => Ok(Expr::Grouping { expr: Box::new(expr) }),
                Err(x) => Err(x),
            };
        }
        Err(ParseError { token: self.peek().clone(), expected: Expected::Expression })
    }
}

/// Scans `source` and parses one expression from its tokens: the lexical
/// diagnostics, and the tree or the first syntax error.
pub fn parse_source(source: String) -> (r: (Vec<LexError>, Result<Expr, ParseError>))
    requires
        source@.len() + 2 <= usize::MAX,
    ensures
        r.0@ == scan_errors(source@),
        exists|ts: Seq<Token>| views(ts) == scan_tokens(source@) && r.1 == parse_result(ts),
{
    let ghost src = source@;
    let (tokens, errors) = Lexer::new(source).lex_tokens();
    proof {
        lemma_scan_ends_with_eof(src);
        let n = tokens@.len();
        assert(views(tokens@)[n - 1] == tokens@[n - 1]@);
    }
    let tree = Parser::new(tokens).parse();
    (errors, tree)
}

} // verus!
