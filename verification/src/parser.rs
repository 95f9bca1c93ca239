//! The statement/block parser: `let`, `return`, expression statements and
//! block syntax around the expression engine.

use vstd::prelude::*;
use crate::ast::{
    exprs_view, expr_view, stmts_view, stmt_view, ExprV, Expression, Program, Statement, StmtV,
};
use crate::lexer::{tokenize_v, toks_view, LexError, Lexer};
use crate::pratt::{expr_bp, parse_expression_v, ParseErrV, ParseError, ParseErrorKind};
use crate::token::{Token, TokenV};

verus! {

broadcast use vstd::std_specs::vec::group_vec_axioms;

/// How many tokens remain from position `i` on.
pub open spec fn rem(ts: Seq<TokenV>, i: nat) -> nat {
    if i <= ts.len() {
        (ts.len() - i) as nat
    } else {
        0
    }
}

/// The position a parse continues at after a sub-parse that must have
/// consumed at least one token: the sub-parse's end, held inside the bounds
/// that every reachable parse keeps anyway.
pub open spec fn advance(ts: Seq<TokenV>, i: nat, e: nat) -> nat {
    let b = if e > i {
        e
    } else {
        i + 1
    };
    if b <= ts.len() {
        b
    } else {
        ts.len()
    }
}

/// The position a parse continues at after a sub-parse that may have
/// consumed nothing: the sub-parse's end, held inside the same bounds.
pub open spec fn within(ts: Seq<TokenV>, i: nat, e: nat) -> nat {
    if e < i {
        i
    } else if e <= ts.len() {
        e
    } else {
        ts.len()
    }
}

/// One function-literal parameter list after its opening parenthesis: one or
/// more comma-separated identifiers up to the closing parenthesis.
pub open spec fn params_loop_v(ts: Seq<TokenV>, i: nat) -> Result<
    (Seq<Seq<char>>, nat),
    ParseErrV,
>
    decreases rem(ts, i),
        when i <= ts.len()
{
    if i >= ts.len() {
        Err(ParseErrV { kind: ParseErrorKind::UnexpectedEnd, pos: i })
    } else {
        match ts[i as int] {
            TokenV::Ident(name) => {
                if i + 1 < ts.len() && ts[i as int + 1] is Comma {
                    match params_loop_v(ts, i + 2) {
                        Ok(q) => Ok((seq![name] + q.0, q.1)),
                        Err(e) => Err(e),
                    }
                } else if i + 1 < ts.len() && ts[i as int + 1] is RightParen {
                    Ok((seq![name], i + 2))
                } else {
                    Err(
                        ParseErrV {
                            kind: if i + 1 >= ts.len() {
                                ParseErrorKind::UnexpectedEnd
                            } else {
                                ParseErrorKind::UnexpectedToken
                            },
                            pos: i + 1,
                        },
                    )
                }
            },
            _ => Err(ParseErrV { kind: ParseErrorKind::UnexpectedToken, pos: i }),
        }
    }
}

/// A function literal's parameter list, starting at its opening parenthesis.
pub open spec fn parse_params_v(ts: Seq<TokenV>, i: nat) -> Result<
    (Seq<Seq<char>>, nat),
    ParseErrV,
> {
    if i >= ts.len() {
        Err(ParseErrV { kind: ParseErrorKind::UnexpectedEnd, pos: i })
    } else if !(ts[i as int] is LeftParen) {
        Err(ParseErrV { kind: ParseErrorKind::UnexpectedToken, pos: i })
    } else if i + 1 < ts.len() && ts[i as int + 1] is RightParen {
        Ok((Seq::empty(), i + 2))
    } else {
        params_loop_v(ts, i + 1)
    }
}

/// A full expression at a statement position: a block expression, a function
/// literal, or an operator expression from the engine; in every case
/// followed by any chain of call-argument lists.
pub open spec fn parse_expr_full_v(ts: Seq<TokenV>, i: nat) -> Result<(ExprV, nat), ParseErrV>
    decreases rem(ts, i), 2nat,
        when i <= ts.len()
{
    if i < ts.len() && ts[i as int] is LeftBrace {
        match parse_block_v(ts, i + 1) {
            Ok(p) => chain_v(ts, ExprV::BlockExpression(p.0), advance(ts, i, p.1)),
            Err(e) => Err(e),
        }
    } else if i < ts.len() && ts[i as int] is Function {
        match parse_params_v(ts, i + 1) {
            Ok(p) => match parse_expr_full_v(ts, advance(ts, i, p.1)) {
                Ok(b) => chain_v(
                    ts,
                    ExprV::Function { params: p.0, body: Box::new(b.0) },
                    advance(ts, i, b.1),
                ),
                Err(e) => Err(e),
            },
            Err(e) => Err(e),
        }
    } else {
        match parse_expression_v(ts, i) {
            Ok(p) => chain_v(ts, p.0, within(ts, i, p.1)),
            Err(e) => Err(e),
        }
    }
}

/// The chain of call-argument lists after a complete expression: as long as
/// the next token is an opening parenthesis, the expression so far becomes
/// the called lambda.
pub open spec fn chain_v(ts: Seq<TokenV>, e: ExprV, i: nat) -> Result<(ExprV, nat), ParseErrV>
    decreases rem(ts, i), 0nat,
        when i <= ts.len()
{
    if i < ts.len() && ts[i as int] is LeftParen {
        if i + 1 < ts.len() && ts[i as int + 1] is RightParen {
            chain_v(
                ts,
                ExprV::CallExpression { lambda: Box::new(e), parameters: Seq::empty() },
                i + 2,
            )
        } else {
            match args_loop_v(ts, i + 1) {
                Ok(p) => chain_v(
                    ts,
                    ExprV::CallExpression { lambda: Box::new(e), parameters: p.0 },
                    advance(ts, i, p.1),
                ),
                Err(err) => Err(err),
            }
        }
    } else {
        Ok((e, i))
    }
}

/// One or more comma-separated call arguments up to the closing parenthesis.
pub open spec fn args_loop_v(ts: Seq<TokenV>, i: nat) -> Result<(Seq<ExprV>, nat), ParseErrV>
    decreases rem(ts, i), 3nat,
        when i <= ts.len()
{
    if i >= ts.len() {
        Err(ParseErrV { kind: ParseErrorKind::UnexpectedEnd, pos: i })
    } else {
        match parse_expr_full_v(ts, i) {
            Ok(p) => {
                if p.1 < ts.len() && ts[p.1 as int] is Comma {
                    match args_loop_v(ts, advance(ts, i, p.1 + 1)) {
                        Ok(q) => Ok((seq![p.0] + q.0, q.1)),
                        Err(e) => Err(e),
                    }
                } else if p.1 < ts.len() && ts[p.1 as int] is RightParen {
                    Ok((seq![p.0], p.1 + 1))
                } else {
                    Err(
                        ParseErrV {
                            kind: if p.1 >= ts.len() {
                                ParseErrorKind::UnexpectedEnd
                            } else {
                                ParseErrorKind::UnexpectedToken
                            },
                            pos: p.1,
                        },
                    )
                }
            },
            Err(e) => Err(e),
        }
    }
}

/// One statement: a `let` binding with its required terminator, a `return`
/// or bare expression statement whose terminator is optional only at the
/// end of the input or right before a closing brace, and which a block
/// expression never needs.
pub open spec fn parse_stmt_v(ts: Seq<TokenV>, i: nat) -> Result<(StmtV, nat), ParseErrV>
    decreases rem(ts, i), 4nat,
        when i <= ts.len()
{
    if i >= ts.len() {
        Err(ParseErrV { kind: ParseErrorKind::UnexpectedEnd, pos: i })
    } else {
        match ts[i as int] {
            TokenV::Let => {
                if i + 1 >= ts.len() {
                    Err(ParseErrV { kind: ParseErrorKind::UnexpectedEnd, pos: i + 1 })
                } else {
                    match ts[i as int + 1] {
                        TokenV::Ident(name) => {
                            if i + 2 >= ts.len() {
                                Err(ParseErrV { kind: ParseErrorKind::UnexpectedEnd, pos: i + 2 })
                            } else {
                                match ts[i as int + 2] {
                                    TokenV::Assign => match parse_expr_full_v(ts, i + 3) {
                                        Ok(p) => {
                                            if p.1 < ts.len() && ts[p.1 as int] is Semicolon {
                                                Ok(
                                                    (
                                                        StmtV::Let { name, value: p.0 },
                                                        (p.1 + 1) as nat,
                                                    ),
                                                )
                                            } else {
                                                Err(
                                                    ParseErrV {
                                                        kind: ParseErrorKind::MissingTerminator,
                                                        pos: p.1,
                                                    },
                                                )
                                            }
                                        },
                                        Err(e) => Err(e),
                                    },
                                    _ => Err(
                                        ParseErrV {
                                            kind: ParseErrorKind::UnexpectedToken,
                                            pos: i + 2,
                                        },
                                    ),
                                }
                            }
                        },
                        _ => Err(ParseErrV { kind: ParseErrorKind::UnexpectedToken, pos: i + 1 }),
                    }
                }
            },
            TokenV::Return => match parse_expr_full_v(ts, i + 1) {
                Ok(p) => {
                    if p.1 < ts.len() && ts[p.1 as int] is Semicolon {
                        Ok((StmtV::Return(p.0), (p.1 + 1) as nat))
                    } else if p.1 >= ts.len() || ts[p.1 as int] is RightBrace {
                        Ok((StmtV::Return(p.0), p.1))
                    } else {
                        Err(ParseErrV { kind: ParseErrorKind::MissingTerminator, pos: p.1 })
                    }
                },
                Err(e) => Err(e),
            },
            _ => match parse_expr_full_v(ts, i) {
                Ok(p) => {
                    if p.0 is BlockExpression {
                        Ok((StmtV::Expr(p.0), p.1))
                    } else if p.1 < ts.len() && ts[p.1 as int] is Semicolon {
                        Ok((StmtV::Expr(p.0), (p.1 + 1) as nat))
                    } else if p.1 >= ts.len() || ts[p.1 as int] is RightBrace {
                        Ok((StmtV::Expr(p.0), p.1))
                    } else {
                        Err(ParseErrV { kind: ParseErrorKind::MissingTerminator, pos: p.1 })
                    }
                },
                Err(e) => Err(e),
            },
        }
    }
}

/// The statements of a block, after its opening brace, up to and past the
/// matching closing brace.
pub open spec fn parse_block_v(ts: Seq<TokenV>, i: nat) -> Result<(Seq<StmtV>, nat), ParseErrV>
    decreases rem(ts, i), 5nat,
        when i <= ts.len()
{
    if i >= ts.len() {
        Err(ParseErrV { kind: ParseErrorKind::UnmatchedGroup, pos: i })
    } else if ts[i as int] is RightBrace {
        Ok((Seq::empty(), i + 1))
    } else {
        match parse_stmt_v(ts, i) {
            Ok(p) => match parse_block_v(ts, advance(ts, i, p.1)) {
                Ok(q) => Ok((seq![p.0] + q.0, q.1)),
                Err(e) => Err(e),
            },
            Err(e) => Err(e),
        }
    }
}

/// The statements of a whole program, to the end of the input.
pub open spec fn program_loop_v(ts: Seq<TokenV>, i: nat) -> Result<Seq<StmtV>, ParseErrV>
    decreases rem(ts, i), 6nat,
        when i <= ts.len()
{
    if i >= ts.len() {
        Ok(Seq::empty())
    } else {
        match parse_stmt_v(ts, i) {
            Ok(p) => match program_loop_v(ts, advance(ts, i, p.1)) {
                Ok(q) => Ok(seq![p.0] + q),
                Err(e) => Err(e),
            },
            Err(e) => Err(e),
        }
    }
}

/// The abstract syntax of a whole token sequence: the reference description
/// of parsing a program.
pub open spec fn parse_program_v(ts: Seq<TokenV>) -> Result<Seq<StmtV>, ParseErrV> {
    program_loop_v(ts, 0)
}

/// The views of a sequence of parameter names.
pub open spec fn names_view(v: Seq<String>) -> Seq<Seq<char>> {
    v.map_values(|s: String| s@)
}

/// The parser state: the token buffer and a cursor into it.
pub struct Parser {
    tokens: Vec<Token>,
    cur_token: usize,
}

impl Parser {
    /// The token sequence being parsed.
    pub closed spec fn toks(&self) -> Seq<TokenV> {
        toks_view(self.tokens@)
    }

    /// The cursor: an index into the token sequence.
    pub closed spec fn pos(&self) -> nat {
        self.cur_token as nat
    }

    /// The cursor sits inside the token sequence (or just past it).
    pub closed spec fn wf(&self) -> bool {
        self.cur_token <= self.tokens@.len()
    }

    /// Runs the lexer over the whole input and readies the parser at the
    /// first token; the lexer's first fatal error is handed through.
    pub fn new(string: String) -> (r: Result<Parser, LexError>)
        ensures
            match tokenize_v(string@) {
                Ok(ts) => r matches Ok(p) && p.toks() == ts && p.pos() == 0 && p.wf(),
                Err(pe) => r matches Err(le) && le.pos as nat == pe,
            },
    {
        let mut lx = Lexer::new(string);
        match lx.tokenize() {
            Ok(toks) => Ok(Parser { tokens: toks, cur_token: 0 }),
            Err(e) => Err(e),
        }
    }

    /// Parses one statement at the cursor: a `let` binding, a `return`, or an
    /// expression statement with its terminator rules.
    pub fn parse_statement(&mut self) -> (r: Result<Statement, ParseError>)
        requires
            old(self).wf(),
        ensures
            final(self).wf(),
            final(self).toks() == old(self).toks(),
            match parse_stmt_v(old(self).toks(), old(self).pos()) {
                Ok(p) => {
                    &&& r matches Ok(s) && stmt_view(&s) == p.0
                    &&& final(self).pos() == p.1
                    &&& old(self).pos() < p.1 <= old(self).toks().len()
                },
                Err(ev) => r matches Err(pe) && pe@ == ev,
            },
        decreases old(self).toks().len() - old(self).pos(), 4nat,
    {
        if self.cur_token >= self.tokens.len() {
            return Err(ParseError { kind: ParseErrorKind::UnexpectedEnd, pos: self.cur_token });
        }
        let ghost ts = self.toks();
        let ghost i0 = self.pos();
        proof {
            assert(ts[i0 as int] == self.tokens@[i0 as int]@);
        }
        if matches!(self.tokens[self.cur_token], Token::Let) {
            self.parse_let_statement()
        } else if matches!(self.tokens[self.cur_token], Token::Return) {
            self.parse_return_statement()
        } else {
            let e = match self.parse_expression() {
                Ok(e) => e,
                Err(pe) => {
                    return Err(pe);
                },
            };
            if matches!(e, Expression::BlockExpression(_)) {
                Ok(Statement::Expr(e))
            } else if self.cur_token < self.tokens.len() && matches!(
                self.tokens[self.cur_token],
                Token::Semicolon,
            ) {
                proof {
                    assert(ts[self.pos() as int] == self.tokens@[self.pos() as int]@);
                }
                self.cur_token = self.cur_token + 1;
                Ok(Statement::Expr(e))
            } else if self.cur_token >= self.tokens.len() || matches!(
                self.tokens[self.cur_token],
                Token::RightBrace,
            ) {
                proof {
                    if self.pos() < ts.len() {
                        assert(ts[self.pos() as int] == self.tokens@[self.pos() as int]@);
                    }
                }
                Ok(Statement::Expr(e))
            } else {
                proof {
                    assert(ts[self.pos() as int] == self.tokens@[self.pos() as int]@);
                }
                Err(ParseError { kind: ParseErrorKind::MissingTerminator, pos: self.cur_token })
            }
        }
    }

    /// Parses a `let` statement: `let` IDENT `=` expression `;`. A missing
    /// piece is an ordinary parse error at the offending token, never an
    /// abort.
    pub fn parse_let_statement(&mut self) -> (r: Result<Statement, ParseError>)
        requires
            old(self).wf(),
        ensures
            final(self).wf(),
            final(self).toks() == old(self).toks(),
            old(self).pos() < old(self).toks().len() && old(self).toks()[old(self).pos() as int]
                is Let ==> match parse_stmt_v(old(self).toks(), old(self).pos()) {
                Ok(p) => {
                    &&& r matches Ok(s) && stmt_view(&s) == p.0
                    &&& final(self).pos() == p.1
                    &&& old(self).pos() < p.1 <= old(self).toks().len()
                },
                Err(ev) => r matches Err(pe) && pe@ == ev,
            },
        decreases old(self).toks().len() - old(self).pos(), 3nat,
    {
        let ghost ts = self.toks();
        let ghost i0 = self.pos();
        if self.cur_token >= self.tokens.len() || !matches!(
            self.tokens[self.cur_token],
            Token::Let,
        ) {
            return Err(ParseError { kind: ParseErrorKind::UnexpectedToken, pos: self.cur_token });
        }
        proof {
            assert(ts[i0 as int] == self.tokens@[i0 as int]@);
        }
        if self.cur_token + 1 >= self.tokens.len() {
            return Err(
                ParseError { kind: ParseErrorKind::UnexpectedEnd, pos: self.cur_token + 1 },
            );
        }
        proof {
            assert(ts[i0 as int + 1] == self.tokens@[i0 as int + 1]@);
        }
        let name = match &self.tokens[self.cur_token + 1] {
            Token::Ident(s) => s.clone(),
            _ => {
                return Err(
                    ParseError { kind: ParseErrorKind::UnexpectedToken, pos: self.cur_token + 1 },
                );
            },
        };
        if self.cur_token + 2 >= self.tokens.len() {
            return Err(
                ParseError { kind: ParseErrorKind::UnexpectedEnd, pos: self.cur_token + 2 },
            );
        }
        proof {
            assert(ts[i0 as int + 2] == self.tokens@[i0 as int + 2]@);
        }
        if !matches!(self.tokens[self.cur_token + 2], Token::Assign) {
            return Err(
                ParseError { kind: ParseErrorKind::UnexpectedToken, pos: self.cur_token + 2 },
            );
        }
        self.cur_token = self.cur_token + 3;
        let value = match self.parse_expression() {
            Ok(e) => e,
            Err(pe) => {
                return Err(pe);
            },
        };
        if self.cur_token < self.tokens.len() && matches!(
            self.tokens[self.cur_token],
            Token::Semicolon,
        ) {
            proof {
                assert(ts[self.pos() as int] == self.tokens@[self.pos() as int]@);
            }
            self.cur_token = self.cur_token + 1;
            Ok(Statement::Let { name, value })
        } else {
            Err(ParseError { kind: ParseErrorKind::MissingTerminator, pos: self.cur_token })
        }
    }

    /// Parses a `return` statement; its terminator is optional only at the
    /// end of the input or right before a closing brace.
    pub fn parse_return_statement(&mut self) -> (r: Result<Statement, ParseError>)
        requires
            old(self).wf(),
        ensures
            final(self).wf(),
            final(self).toks() == old(self).toks(),
            old(self).pos() < old(self).toks().len() && old(self).toks()[old(self).pos() as int]
                is Return ==> match parse_stmt_v(old(self).toks(), old(self).pos()) {
                Ok(p) => {
                    &&& r matches Ok(s) && stmt_view(&s) == p.0
                    &&& final(self).pos() == p.1
                    &&& old(self).pos() < p.1 <= old(self).toks().len()
                },
                Err(ev) => r matches Err(pe) && pe@ == ev,
            },
        decreases old(self).toks().len() - old(self).pos(), 3nat,
    {
        let ghost ts = self.toks();
        let ghost i0 = self.pos();
        if self.cur_token >= self.tokens.len() || !matches!(
            self.tokens[self.cur_token],
            Token::Return,
        ) {
            return Err(ParseError { kind: ParseErrorKind::UnexpectedToken, pos: self.cur_token });
        }
        proof {
            assert(ts[i0 as int] == self.tokens@[i0 as int]@);
        }
        self.cur_token = self.cur_token + 1;
        let value = match self.parse_expression() {
            Ok(e) => e,
            Err(pe) => {
                return Err(pe);
            },
        };
        if self.cur_token < self.tokens.len() && matches!(
            self.tokens[self.cur_token],
            Token::Semicolon,
        ) {
            proof {
                assert(ts[self.pos() as int] == self.tokens@[self.pos() as int]@);
            }
            self.cur_token = self.cur_token + 1;
            Ok(Statement::Return(value))
        } else if self.cur_token >= self.tokens.len() || matches!(
            self.tokens[self.cur_token],
            Token::RightBrace,
        ) {
            proof {
                if self.pos() < ts.len() {
                    assert(ts[self.pos() as int] == self.tokens@[self.pos() as int]@);
                }
            }
            Ok(Statement::Return(value))
        } else {
            proof {
                assert(ts[self.pos() as int] == self.tokens@[self.pos() as int]@);
            }
            Err(ParseError { kind: ParseErrorKind::MissingTerminator, pos: self.cur_token })
        }
    }

    /// Parses a full expression at the cursor: a block, a function literal,
    /// or an operator expression from the engine, then any chain of
    /// call-argument lists.
    pub fn parse_expression(&mut self) -> (r: Result<Expression, ParseError>)
        requires
            old(self).wf(),
        ensures
            final(self).wf(),
            final(self).toks() == old(self).toks(),
            match parse_expr_full_v(old(self).toks(), old(self).pos()) {
                Ok(p) => {
                    &&& r matches Ok(e) && expr_view(&e) == p.0
                    &&& final(self).pos() == p.1
                    &&& old(self).pos() <= p.1 <= old(self).toks().len()
                    &&& (old(self).pos() < old(self).toks().len() ==> old(self).pos() < p.1)
                },
                Err(ev) => r matches Err(pe) && pe@ == ev,
            },
        decreases old(self).toks().len() - old(self).pos(), 2nat,
    {
        let ghost ts = self.toks();
        let ghost i0 = self.pos();
        proof {
            if i0 < ts.len() {
                assert(ts[i0 as int] == self.tokens@[i0 as int]@);
            }
        }
        let mut e: Expression;
        if self.cur_token < self.tokens.len() && matches!(
            self.tokens[self.cur_token],
            Token::LeftBrace,
        ) {
            match self.parse_block_statement() {
                Ok(stmts) => {
                    e = Expression::BlockExpression(stmts);
                    proof {
                        crate::ast::lemma_stmts_view_index(Seq::empty());
                    }
                },
                Err(pe) => {
                    return Err(pe);
                },
            }
        } else if self.cur_token < self.tokens.len() && matches!(
            self.tokens[self.cur_token],
            Token::Function,
        ) {
            match self.parse_function() {
                Ok(f) => {
                    e = f;
                },
                Err(pe) => {
                    return Err(pe);
                },
            }
        } else {
            match expr_bp(&self.tokens, self.cur_token) {
                Ok(p) => {
                    self.cur_token = p.1;
                    e = p.0;
                },
                Err(pe) => {
                    return Err(pe);
                },
            }
        }
        proof {
            assert(chain_v(ts, expr_view(&e), self.pos()) == parse_expr_full_v(ts, i0));
        }
        loop
            invariant
                self.wf(),
                self.toks() == ts,
                ts == old(self).toks(),
                i0 == old(self).pos(),
                i0 <= self.pos() <= ts.len(),
                i0 < ts.len() ==> i0 < self.pos(),
                chain_v(ts, expr_view(&e), self.pos()) == parse_expr_full_v(ts, i0),
            decreases ts.len() - self.pos(),
        {
            proof {
                if self.pos() < ts.len() {
                    assert(ts[self.pos() as int] == self.tokens@[self.pos() as int]@);
                }
            }
            if self.cur_token < self.tokens.len() && matches!(
                self.tokens[self.cur_token],
                Token::LeftParen,
            ) {
                match self.parse_call_expression(e) {
                    Ok(e2) => {
                        e = e2;
                    },
                    Err(pe) => {
                        return Err(pe);
                    },
                }
            } else {
                return Ok(e);
            }
        }
    }

    /// Parses one call-argument list at an opening parenthesis and applies
    /// it to the given lambda expression.
    #[verifier::rlimit(60)]
    pub fn parse_call_expression(&mut self, lambda: Expression) -> (r: Result<
        Expression,
        ParseError,
    >)
        requires
            old(self).wf(),
            old(self).pos() < old(self).toks().len(),
            old(self).toks()[old(self).pos() as int] is LeftParen,
        ensures
            final(self).wf(),
            final(self).toks() == old(self).toks(),
            ({
                let ts = old(self).toks();
                let i = old(self).pos();
                if i + 1 < ts.len() && ts[i as int + 1] is RightParen {
                    &&& r matches Ok(c) && expr_view(&c) == ExprV::CallExpression {
                        lambda: Box::new(expr_view(&lambda)),
                        parameters: Seq::empty(),
                    }
                    &&& final(self).pos() == i + 2
                } else {
                    match args_loop_v(ts, i + 1) {
                        Ok(p) => {
                            &&& r matches Ok(c) && expr_view(&c) == ExprV::CallExpression {
                                lambda: Box::new(expr_view(&lambda)),
                                parameters: p.0,
                            }
                            &&& final(self).pos() == p.1
                            &&& i < p.1 <= ts.len()
                        },
                        Err(ev) => r matches Err(pe) && pe@ == ev,
                    }
                }
            }),
        decreases old(self).toks().len() - old(self).pos(), 1nat,
    {
        let ghost ts = self.toks();
        let ghost i0 = self.pos();
        proof {
            assert(vstd::std_specs::vec::spec_vec_len(&self.tokens) == self.tokens@.len());
            assert(ts.len() == self.tokens@.len());
            assert(ts[i0 as int] == self.tokens@[i0 as int]@);
            if i0 + 1 < ts.len() {
                assert(ts[i0 as int + 1] == self.tokens@[i0 as int + 1]@);
            }
        }
        proof {
            assert(self.cur_token < self.tokens@.len());
        }
        if self.cur_token + 1 < self.tokens.len() && matches!(
            self.tokens[self.cur_token + 1],
            Token::RightParen,
        ) {
            self.cur_token = self.cur_token + 2;
            let c = Expression::CallExpression {
                lambda: Box::new(lambda),
                parameters: Vec::new(),
            };
            proof {
                crate::ast::lemma_exprs_view_index(Seq::empty());
                assert(exprs_view(Seq::empty()) =~= Seq::<ExprV>::empty());
            }
            return Ok(c);
        }
        self.cur_token = self.cur_token + 1;
        let mut parameters: Vec<Expression> = Vec::new();
        let ghost a0 = self.pos();
        proof {
            crate::ast::lemma_exprs_view_index(parameters@);
            if let Ok(p) = args_loop_v(ts, a0) {
                assert(exprs_view(parameters@) + p.0 =~= p.0);
            }
        }
        loop
            invariant
                self.wf(),
                self.toks() == ts,
                ts == old(self).toks(),
                i0 == old(self).pos(),
                a0 == i0 + 1,
                !(i0 + 1 < ts.len() && ts[i0 as int + 1] is RightParen),
                a0 <= self.pos() <= ts.len(),
                match args_loop_v(ts, self.pos()) {
                    Ok(p) => args_loop_v(ts, a0) == Ok::<(Seq<ExprV>, nat), ParseErrV>(
                        (exprs_view(parameters@) + p.0, p.1),
                    ),
                    Err(ev) => args_loop_v(ts, a0) == Err::<(Seq<ExprV>, nat), ParseErrV>(ev),
                },
            decreases ts.len() - self.pos(),
        {
            let ghost li = self.pos();
            let ghost old_params = parameters@;
            let arg = match self.parse_expression() {
                Ok(e) => e,
                Err(pe) => {
                    proof {
                        if li >= ts.len() {
                            assert(parse_expression_v(ts, li) == Ok::<(ExprV, nat), ParseErrV>(
                                (ExprV::Unit, li),
                            ));
                            assert(parse_expr_full_v(ts, li) == chain_v(ts, ExprV::Unit, li));
                            assert(false);
                        }
                        assert(args_loop_v(ts, li) == Err::<(Seq<ExprV>, nat), ParseErrV>(pe@));
                    }
                    return Err(pe);
                },
            };
            proof {
                if self.pos() < ts.len() {
                    assert(ts[self.pos() as int] == self.tokens@[self.pos() as int]@);
                }
            }
            if self.cur_token < self.tokens.len() && matches!(
                self.tokens[self.cur_token],
                Token::Comma,
            ) {
                let ghost av = expr_view(&arg);
                parameters.push(arg);
                self.cur_token = self.cur_token + 1;
                proof {
                    crate::ast::lemma_exprs_view_index(parameters@);
                    crate::ast::lemma_exprs_view_index(old_params);
                    assert(exprs_view(parameters@) =~= exprs_view(old_params) + seq![av]);
                    if let Ok(p) = args_loop_v(ts, self.pos()) {
                        assert((exprs_view(old_params) + seq![av]) + p.0 =~= exprs_view(old_params)
                            + (seq![av] + p.0));
                    }
                }
            } else if self.cur_token < self.tokens.len() && matches!(
                self.tokens[self.cur_token],
                Token::RightParen,
            ) {
                let ghost av = expr_view(&arg);
                parameters.push(arg);
                self.cur_token = self.cur_token + 1;
                let ghost newpv = parameters@;
                let c = Expression::CallExpression {
                    lambda: Box::new(lambda),
                    parameters,
                };
                proof {
                    crate::ast::lemma_exprs_view_index(newpv);
                    crate::ast::lemma_exprs_view_index(old_params);
                    assert(exprs_view(newpv) =~= exprs_view(old_params) + seq![av]);
                    assert(args_loop_v(ts, li) == Ok::<(Seq<ExprV>, nat), ParseErrV>(
                        (seq![av], self.pos() as nat),
                    ));
                    assert(args_loop_v(ts, a0) == Ok::<(Seq<ExprV>, nat), ParseErrV>(
                        (exprs_view(newpv), self.pos() as nat),
                    ));
                }
                return Ok(c);
            } else {
                let kind = if self.cur_token >= self.tokens.len() {
                    ParseErrorKind::UnexpectedEnd
                } else {
                    ParseErrorKind::UnexpectedToken
                };
                return Err(ParseError { kind, pos: self.cur_token });
            }
        }
    }

    /// Parses a block expression's statement list: the opening brace, the
    /// statements, and the matching closing brace.
    #[verifier::rlimit(60)]
    pub fn parse_block_statement(&mut self) -> (r: Result<Vec<Statement>, ParseError>)
        requires
            old(self).wf(),
        ensures
            final(self).wf(),
            final(self).toks() == old(self).toks(),
            ({
                let ts = old(self).toks();
                let i = old(self).pos();
                if i < ts.len() && ts[i as int] is LeftBrace {
                    match parse_block_v(ts, i + 1) {
                        Ok(p) => {
                            &&& r matches Ok(v) && stmts_view(v@) == p.0
                            &&& final(self).pos() == p.1
                            &&& i < p.1 <= ts.len()
                        },
                        Err(ev) => r matches Err(pe) && pe@ == ev,
                    }
                } else {
                    r matches Err(pe) && pe.kind == ParseErrorKind::UnexpectedToken && pe.pos
                        == old(self).pos()
                }
            }),
        decreases old(self).toks().len() - old(self).pos(), 1nat,
    {
        let ghost ts = self.toks();
        let ghost i0 = self.pos();
        proof {
            if i0 < ts.len() {
                assert(ts[i0 as int] == self.tokens@[i0 as int]@);
            }
        }
        if self.cur_token >= self.tokens.len() || !matches!(
            self.tokens[self.cur_token],
            Token::LeftBrace,
        ) {
            return Err(ParseError { kind: ParseErrorKind::UnexpectedToken, pos: self.cur_token });
        }
        self.cur_token = self.cur_token + 1;
        let mut stmts: Vec<Statement> = Vec::new();
        proof {
            crate::ast::lemma_stmts_view_index(stmts@);
            if let Ok(p) = parse_block_v(ts, i0 + 1) {
                assert(stmts_view(stmts@) + p.0 =~= p.0);
            }
        }
        loop
            invariant
                self.wf(),
                self.toks() == ts,
                ts == old(self).toks(),
                i0 == old(self).pos(),
                i0 < ts.len() && ts[i0 as int] is LeftBrace,
                i0 + 1 <= self.pos() <= ts.len(),
                match parse_block_v(ts, self.pos()) {
                    Ok(p) => parse_block_v(ts, i0 + 1) == Ok::<(Seq<StmtV>, nat), ParseErrV>(
                        (stmts_view(stmts@) + p.0, p.1),
                    ),
                    Err(ev) => parse_block_v(ts, i0 + 1) == Err::<(Seq<StmtV>, nat), ParseErrV>(
                        ev,
                    ),
                },
            decreases ts.len() - self.pos(),
        {
            proof {
                if self.pos() < ts.len() {
                    assert(ts[self.pos() as int] == self.tokens@[self.pos() as int]@);
                }
            }
            if self.cur_token >= self.tokens.len() {
                return Err(
                    ParseError { kind: ParseErrorKind::UnmatchedGroup, pos: self.cur_token },
                );
            }
            if matches!(self.tokens[self.cur_token], Token::RightBrace) {
                self.cur_token = self.cur_token + 1;
                proof {
                    assert(stmts_view(stmts@) + Seq::<StmtV>::empty() =~= stmts_view(stmts@));
                }
                return Ok(stmts);
            }
            let ghost old_stmts = stmts@;
            match self.parse_statement() {
                Ok(s) => {
                    let ghost sv = stmt_view(&s);
                    stmts.push(s);
                    proof {
                        crate::ast::lemma_stmts_view_index(stmts@);
                        crate::ast::lemma_stmts_view_index(old_stmts);
                        assert(stmts_view(stmts@) =~= stmts_view(old_stmts) + seq![sv]);
                        if let Ok(p) = parse_block_v(ts, self.pos()) {
                            assert((stmts_view(old_stmts) + seq![sv]) + p.0 =~= stmts_view(
                                old_stmts,
                            ) + (seq![sv] + p.0));
                        }
                    }
                },
                Err(pe) => {
                    return Err(pe);
                },
            }
        }
    }

    /// Parses a function literal: `fn`, a parenthesised parameter list of
    /// identifiers, and a body expression.
    #[verifier::rlimit(60)]
    pub fn parse_function(&mut self) -> (r: Result<Expression, ParseError>)
        requires
            old(self).wf(),
            old(self).pos() < old(self).toks().len(),
            old(self).toks()[old(self).pos() as int] is Function,
        ensures
            final(self).wf(),
            final(self).toks() == old(self).toks(),
            ({
                let ts = old(self).toks();
                let i = old(self).pos();
                match parse_params_v(ts, i + 1) {
                    Ok(p) => match parse_expr_full_v(ts, advance(ts, i, p.1)) {
                        Ok(b) => {
                            &&& r matches Ok(f) && expr_view(&f) == ExprV::Function {
                                params: p.0,
                                body: Box::new(b.0),
                            }
                            &&& final(self).pos() == advance(ts, i, b.1)
                            &&& i < final(self).pos() <= ts.len()
                        },
                        Err(ev) => r matches Err(pe) && pe@ == ev,
                    },
                    Err(ev) => r matches Err(pe) && pe@ == ev,
                }
            }),
        decreases old(self).toks().len() - old(self).pos(), 1nat,
    {
        let ghost ts = self.toks();
        let ghost i0 = self.pos();
        proof {
            assert(vstd::std_specs::vec::spec_vec_len(&self.tokens) == self.tokens@.len());
            assert(ts.len() == self.tokens@.len());
            assert(ts[i0 as int] == self.tokens@[i0 as int]@);
            if i0 + 1 < ts.len() {
                assert(ts[i0 as int + 1] == self.tokens@[i0 as int + 1]@);
            }
        }
        self.cur_token = self.cur_token + 1;
        if self.cur_token >= self.tokens.len() {
            return Err(ParseError { kind: ParseErrorKind::UnexpectedEnd, pos: self.cur_token });
        }
        if !matches!(self.tokens[self.cur_token], Token::LeftParen) {
            return Err(ParseError { kind: ParseErrorKind::UnexpectedToken, pos: self.cur_token });
        }
        let mut params: Vec<String> = Vec::new();
        proof {
            assert(names_view(params@) =~= Seq::<Seq<char>>::empty());
            if i0 + 2 < ts.len() {
                assert(ts[i0 as int + 2] == self.tokens@[i0 as int + 2]@);
            }
        }
        if self.cur_token + 1 < self.tokens.len() && matches!(
            self.tokens[self.cur_token + 1],
            Token::RightParen,
        ) {
            self.cur_token = self.cur_token + 2;
            proof {
                assert(parse_params_v(ts, i0 + 1) == Ok::<(Seq<Seq<char>>, nat), ParseErrV>(
                    (Seq::empty(), i0 + 3),
                ));
            }
            let body = match self.parse_expression() {
                Ok(e) => e,
                Err(pe) => {
                    return Err(pe);
                },
            };
            let ghost pv = params@;
            let f = Expression::Function { params, body: Box::new(body) };
            proof {
                assert(names_view(pv) =~= Seq::<Seq<char>>::empty());
                assert(Seq::new(pv.len(), |i: int| pv[i]@) =~= names_view(pv));
            }
            return Ok(f);
        } else {
            self.cur_token = self.cur_token + 1;
            let ghost p0 = self.pos();
            proof {
                if let Ok(p) = params_loop_v(ts, p0) {
                    assert(names_view(params@) + p.0 =~= p.0);
                }
            }
            loop
                invariant
                    self.wf(),
                    self.toks() == ts,
                    ts == old(self).toks(),
                    i0 == old(self).pos(),
                    p0 == i0 + 2,
                    p0 <= self.pos() <= ts.len(),
                    match params_loop_v(ts, self.pos()) {
                        Ok(p) => params_loop_v(ts, p0) == Ok::<(Seq<Seq<char>>, nat), ParseErrV>(
                            (names_view(params@) + p.0, p.1),
                        ),
                        Err(ev) => params_loop_v(ts, p0) == Err::<(Seq<Seq<char>>, nat), ParseErrV>(
                            ev,
                        ),
                    },
                    params_loop_v(ts, p0) == parse_params_v(ts, i0 + 1),
                decreases ts.len() - self.pos(),
            {
                proof {
                    if self.pos() < ts.len() {
                        assert(ts[self.pos() as int] == self.tokens@[self.pos() as int]@);
                    }
                    if self.pos() + 1 < ts.len() {
                        assert(ts[self.pos() as int + 1] == self.tokens@[self.pos() as int + 1]@);
                    }
                }
                if self.cur_token >= self.tokens.len() {
                    return Err(
                        ParseError { kind: ParseErrorKind::UnexpectedEnd, pos: self.cur_token },
                    );
                }
                let name = match &self.tokens[self.cur_token] {
                    Token::Ident(s) => s.clone(),
                    _ => {
                        return Err(
                            ParseError {
                                kind: ParseErrorKind::UnexpectedToken,
                                pos: self.cur_token,
                            },
                        );
                    },
                };
                let ghost old_params = params@;
                let ghost nv = name@;
                if self.cur_token + 1 < self.tokens.len() && matches!(
                    self.tokens[self.cur_token + 1],
                    Token::Comma,
                ) {
                    params.push(name);
                    self.cur_token = self.cur_token + 2;
                    proof {
                        assert(names_view(params@) =~= names_view(old_params) + seq![nv]);
                        if let Ok(p) = params_loop_v(ts, self.pos()) {
                            assert((names_view(old_params) + seq![nv]) + p.0 =~= names_view(
                                old_params,
                            ) + (seq![nv] + p.0));
                        }
                    }
                } else if self.cur_token + 1 < self.tokens.len() && matches!(
                    self.tokens[self.cur_token + 1],
                    Token::RightParen,
                ) {
                    params.push(name);
                    self.cur_token = self.cur_token + 2;
                    proof {
                        assert(names_view(params@) =~= names_view(old_params) + seq![nv]);
                        assert(names_view(params@) + Seq::<Seq<char>>::empty() =~= names_view(
                            params@,
                        ));
                    }
                    let body = match self.parse_expression() {
                        Ok(e) => e,
                        Err(pe) => {
                            return Err(pe);
                        },
                    };
                    let ghost pv = params@;
                    let f = Expression::Function { params, body: Box::new(body) };
                    proof {
                        assert(Seq::new(pv.len(), |i: int| pv[i]@) =~= names_view(pv));
                    }
                    return Ok(f);
                } else {
                    let kind = if self.cur_token + 1 >= self.tokens.len() {
                        ParseErrorKind::UnexpectedEnd
                    } else {
                        ParseErrorKind::UnexpectedToken
                    };
                    return Err(ParseError { kind, pos: self.cur_token + 1 });
                }
            }
        }
    }

    /// Parses statements from the cursor to the end of the input.
    pub fn parse(&mut self) -> (r: Result<Vec<Statement>, ParseError>)
        requires
            old(self).wf(),
        ensures
            final(self).wf(),
            match program_loop_v(old(self).toks(), old(self).pos()) {
                Ok(ss) => r matches Ok(v) && stmts_view(v@) == ss,
                Err(ev) => r matches Err(pe) && pe@ == ev,
            },
        decreases old(self).toks().len() - old(self).pos(), 5nat,
    {
        let ghost ts = self.toks();
        let ghost i0 = self.pos();
        let mut stmts: Vec<Statement> = Vec::new();
        proof {
            assert(stmts_view(stmts@) =~= Seq::<StmtV>::empty());
            if let Ok(ss) = program_loop_v(ts, i0) {
                assert(stmts_view(stmts@) + ss =~= ss);
            }
        }
        loop
            invariant
                self.wf(),
                self.toks() == ts,
                ts == old(self).toks(),
                i0 == old(self).pos(),
                i0 <= self.pos() <= ts.len(),
                match program_loop_v(ts, self.pos()) {
                    Ok(ss) => program_loop_v(ts, i0) == Ok::<Seq<StmtV>, ParseErrV>(
                        stmts_view(stmts@) + ss,
                    ),
                    Err(ev) => program_loop_v(ts, i0) == Err::<Seq<StmtV>, ParseErrV>(ev),
                },
            decreases ts.len() - self.pos(),
        {
            if self.cur_token >= self.tokens.len() {
                proof {
                    assert(stmts_view(stmts@) + Seq::<StmtV>::empty() =~= stmts_view(stmts@));
                }
                return Ok(stmts);
            }
            let ghost old_stmts = stmts@;
            match self.parse_statement() {
                Ok(s) => {
                    let ghost sv = stmt_view(&s);
                    stmts.push(s);
                    proof {
                        crate::ast::lemma_stmts_view_index(stmts@);
                        crate::ast::lemma_stmts_view_index(old_stmts);
                        assert(stmts_view(stmts@) =~= stmts_view(old_stmts) + seq![sv]);
                        if let Ok(ss) = program_loop_v(ts, self.pos()) {
                            assert((stmts_view(old_stmts) + seq![sv]) + ss =~= stmts_view(
                                old_stmts,
                            ) + (seq![sv] + ss));
                        }
                    }
                },
                Err(pe) => {
                    return Err(pe);
                },
            }
        }
    }

    /// Parses a whole program: the statement list of the outermost block.
    pub fn parse_program(&mut self) -> (r: Result<Program, ParseError>)
        requires
            old(self).wf(),
        ensures
            final(self).wf(),
            match program_loop_v(old(self).toks(), old(self).pos()) {
                Ok(ss) => r matches Ok(p) && p@ == ss,
                Err(ev) => r matches Err(pe) && pe@ == ev,
            },
        decreases old(self).toks().len() - old(self).pos(), 6nat,
    {
        match self.parse() {
            Ok(global) => Ok(Program { global }),
            Err(pe) => Err(pe),
        }
    }
}

} // verus!
