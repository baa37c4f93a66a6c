//! Recursive-descent parsing with one token of lookahead and no
//! backtracking. The grammar, per statement:
//!
//! ```text
//! Program      := Statement* EndOfInput
//! Statement    := LetStmt | PrintStmt | PrintLnStmt | ExprStmt
//! LetStmt      := 'let' Identifier '=' Expression ';'
//! PrintStmt    := 'pn' Expression ';'
//! PrintLnStmt  := 'pnl' Expression ';'
//! ExprStmt     := Expression ';'
//! Expression   := Identifier | Term
//! Term         := Factor (('+' | '-') Factor)*
//! Factor       := NumberLiteral
//! ```
//!
//! An identifier in expression position resolves to a bare variable
//! reference and returns at once, so a variable can never be an operand of a
//! binary operation; this restriction of the grammar is kept deliberately.
//! Any token mismatch aborts the parse with an error naming the expected and
//! the actual token; there is no statement-level recovery.
//!
//! The parser is mirrored by spec functions over `Seq<SpecToken>`, and
//! `parse` is proved to return exactly what the spec parser describes.

use vstd::prelude::*;

use crate::lexer::{spec_tokens, token_at, Lexer, SpecToken, Token};

verus! {

/// The mathematical face of an abstract syntax tree node.
pub enum SpecNode {
    VariableDeclaration { name: Seq<char>, expr: Box<SpecNode> },
    Variable(Seq<char>),
    Print(Box<SpecNode>),
    PrintLn(Box<SpecNode>),
    Number(i64),
    BinaryOp { left: Box<SpecNode>, operator: SpecToken, right: Box<SpecNode> },
}

/// One node of the abstract syntax tree. Each node exclusively owns its
/// children; the tree is acyclic and immutable once built.
#[derive(Debug, PartialEq)]
pub enum ASTNode {
    VariableDeclaration(String, Box<ASTNode>),
    Variable(String),
    Print(Box<ASTNode>),
    PrintLn(Box<ASTNode>),
    Number(i64),
    BinaryOp { left: Box<ASTNode>, operator: Token, right: Box<ASTNode> },
}

pub open spec fn node_view(node: ASTNode) -> SpecNode
    decreases node,
{
    match node {
        ASTNode::VariableDeclaration(name, expr) => SpecNode::VariableDeclaration {
            name: name@,
            expr: Box::new(node_view(*expr)),
        },
        ASTNode::Variable(name) => SpecNode::Variable(name@),
        ASTNode::Print(expr) => SpecNode::Print(Box::new(node_view(*expr))),
        ASTNode::PrintLn(expr) => SpecNode::PrintLn(Box::new(node_view(*expr))),
        ASTNode::Number(n) => SpecNode::Number(n),
        ASTNode::BinaryOp { left, operator, right } => SpecNode::BinaryOp {
            left: Box::new(node_view(*left)),
            operator: operator.deep_view(),
            right: Box::new(node_view(*right)),
        },
    }
}

impl DeepView for ASTNode {
    type V = SpecNode;

    open spec fn deep_view(&self) -> SpecNode {
        node_view(*self)
    }
}

/// A fatal parse failure: the offending token, and what was expected of it.
#[derive(Debug, PartialEq)]
pub enum ParseError {
    /// A particular token was required and something else was found.
    ExpectedToken { expected: Token, found: Token },
    /// The keyword `let` must be followed by an identifier.
    ExpectedIdentifier { found: Token },
    /// No production starts with this token.
    UnexpectedToken { found: Token },
}

/// The mathematical face of a parse failure.
pub enum SpecParseError {
    ExpectedToken { expected: SpecToken, found: SpecToken },
    ExpectedIdentifier { found: SpecToken },
    UnexpectedToken { found: SpecToken },
}

impl DeepView for ParseError {
    type V = SpecParseError;

    open spec fn deep_view(&self) -> SpecParseError {
        match self {
            ParseError::ExpectedToken { expected, found } => SpecParseError::ExpectedToken {
                expected: expected.deep_view(),
                found: found.deep_view(),
            },
            ParseError::ExpectedIdentifier { found } => SpecParseError::ExpectedIdentifier {
                found: found.deep_view(),
            },
            ParseError::UnexpectedToken { found } => SpecParseError::UnexpectedToken {
                found: found.deep_view(),
            },
        }
    }
}

/// The token under the lookahead: the head of the remaining stream, or the
/// end-of-input sentinel once the stream is exhausted.
pub open spec fn sp_cur(ts: Seq<SpecToken>) -> SpecToken {
    if ts.len() == 0 {
        SpecToken::EOF
    } else {
        ts[0]
    }
}

/// The stream after consuming one token (consuming the sentinel is a no-op).
pub open spec fn sp_adv(ts: Seq<SpecToken>) -> Seq<SpecToken> {
    if ts.len() == 0 {
        ts
    } else {
        ts.drop_first()
    }
}

/// Factor := NumberLiteral.
pub open spec fn sp_factor(ts: Seq<SpecToken>) -> (Result<SpecNode, SpecParseError>, Seq<SpecToken>) {
    match sp_cur(ts) {
        SpecToken::Number(n) => (Ok(SpecNode::Number(n)), sp_adv(ts)),
        t => (Err(SpecParseError::UnexpectedToken { found: t }), ts),
    }
}

/// The left-associative tail of Term: as long as the lookahead is `+` or
/// `-`, consume it and the following factor, folding into `left`.
pub open spec fn sp_term_rest(left: SpecNode, ts: Seq<SpecToken>) -> (
    Result<SpecNode, SpecParseError>,
    Seq<SpecToken>,
)
    decreases ts.len(),
{
    let c = sp_cur(ts);
    if c is Plus || c is Minus {
        let ts1 = sp_adv(ts);
        let (f, ts2) = sp_factor(ts1);
        match f {
            Ok(right) => sp_term_rest(
                SpecNode::BinaryOp { left: Box::new(left), operator: c, right: Box::new(right) },
                ts2,
            ),
            Err(e) => (Err(e), ts2),
        }
    } else {
        (Ok(left), ts)
    }
}

/// Term := Factor (('+' | '-') Factor)*.
pub open spec fn sp_term(ts: Seq<SpecToken>) -> (Result<SpecNode, SpecParseError>, Seq<SpecToken>) {
    let (f, ts1) = sp_factor(ts);
    match f {
        Ok(first) => sp_term_rest(first, ts1),
        Err(e) => (Err(e), ts1),
    }
}

/// Expression := Identifier | Term. An identifier resolves to a variable
/// reference immediately and cannot begin an arithmetic term.
pub open spec fn sp_expression(ts: Seq<SpecToken>) -> (
    Result<SpecNode, SpecParseError>,
    Seq<SpecToken>,
) {
    match sp_cur(ts) {
        SpecToken::Identifier(name) => (Ok(SpecNode::Variable(name)), sp_adv(ts)),
        _ => sp_term(ts),
    }
}

/// Demand one particular token and consume it; on anything else fail
/// without consuming.
pub open spec fn sp_expect(ts: Seq<SpecToken>, expected: SpecToken) -> (
    Result<(), SpecParseError>,
    Seq<SpecToken>,
) {
    if sp_cur(ts) == expected {
        (Ok(()), sp_adv(ts))
    } else {
        (Err(SpecParseError::ExpectedToken { expected, found: sp_cur(ts) }), ts)
    }
}

/// Statement := LetStmt | PrintStmt | PrintLnStmt | ExprStmt.
pub open spec fn sp_statement(ts: Seq<SpecToken>) -> (
    Result<SpecNode, SpecParseError>,
    Seq<SpecToken>,
) {
    match sp_cur(ts) {
        SpecToken::Let => {
            let ts1 = sp_adv(ts);
            match sp_cur(ts1) {
                SpecToken::Identifier(name) => {
                    let ts2 = sp_adv(ts1);
                    let (a, ts3) = sp_expect(ts2, SpecToken::Assign);
                    match a {
                        Ok(_) => {
                            let (e, ts4) = sp_expression(ts3);
                            match e {
                                Ok(expr) => {
                                    let (sc, ts5) = sp_expect(ts4, SpecToken::Semicolon);
                                    match sc {
                                        Ok(_) => (
                                            Ok(
                                                SpecNode::VariableDeclaration {
                                                    name,
                                                    expr: Box::new(expr),
                                                },
                                            ),
                                            ts5,
                                        ),
                                        Err(err) => (Err(err), ts5),
                                    }
                                },
                                Err(err) => (Err(err), ts4),
                            }
                        },
                        Err(err) => (Err(err), ts3),
                    }
                },
                t => (Err(SpecParseError::ExpectedIdentifier { found: t }), ts1),
            }
        },
        SpecToken::Print => {
            let ts1 = sp_adv(ts);
            let (e, ts2) = sp_expression(ts1);
            match e {
                Ok(expr) => {
                    let (sc, ts3) = sp_expect(ts2, SpecToken::Semicolon);
                    match sc {
                        Ok(_) => (Ok(SpecNode::Print(Box::new(expr))), ts3),
                        Err(err) => (Err(err), ts3),
                    }
                },
                Err(err) => (Err(err), ts2),
            }
        },
        SpecToken::PrintLn => {
            let ts1 = sp_adv(ts);
            let (e, ts2) = sp_expression(ts1);
            match e {
                Ok(expr) => {
                    let (sc, ts3) = sp_expect(ts2, SpecToken::Semicolon);
                    match sc {
                        Ok(_) => (Ok(SpecNode::PrintLn(Box::new(expr))), ts3),
                        Err(err) => (Err(err), ts3),
                    }
                },
                Err(err) => (Err(err), ts2),
            }
        },
        _ => {
            let (e, ts1) = sp_expression(ts);
            match e {
                Ok(expr) => {
                    let (sc, ts2) = sp_expect(ts1, SpecToken::Semicolon);
                    match sc {
                        Ok(_) => (Ok(expr), ts2),
                        Err(err) => (Err(err), ts2),
                    }
                },
                Err(err) => (Err(err), ts1),
            }
        },
    }
}

pub proof fn lemma_sp_factor_len(ts: Seq<SpecToken>)
    ensures
        sp_factor(ts).1.len() <= ts.len(),
        sp_factor(ts).0 is Ok ==> sp_factor(ts).1.len() < ts.len(),
{
}

pub proof fn lemma_sp_term_rest_len(left: SpecNode, ts: Seq<SpecToken>)
    ensures
        sp_term_rest(left, ts).1.len() <= ts.len(),
    decreases ts.len(),
{
    let c = sp_cur(ts);
    if c is Plus || c is Minus {
        let ts1 = sp_adv(ts);
        let (f, ts2) = sp_factor(ts1);
        lemma_sp_factor_len(ts1);
        if f is Ok {
            lemma_sp_term_rest_len(
                SpecNode::BinaryOp {
                    left: Box::new(left),
                    operator: c,
                    right: Box::new(f->Ok_0),
                },
                ts2,
            );
        }
    }
}

pub proof fn lemma_sp_expression_len(ts: Seq<SpecToken>)
    ensures
        sp_expression(ts).1.len() <= ts.len(),
        sp_expression(ts).0 is Ok ==> sp_expression(ts).1.len() < ts.len(),
{
    if !(sp_cur(ts) is Identifier) {
        lemma_sp_factor_len(ts);
        let (f, ts1) = sp_factor(ts);
        if f is Ok {
            lemma_sp_term_rest_len(f->Ok_0, ts1);
        }
    }
}

pub proof fn lemma_sp_expect_len(ts: Seq<SpecToken>, expected: SpecToken)
    ensures
        sp_expect(ts, expected).1.len() <= ts.len(),
        sp_expect(ts, expected).0 is Ok && !(expected is EOF) ==> sp_expect(ts, expected).1.len()
            < ts.len(),
{
}

/// A successfully parsed statement consumes at least one token, and no
/// parse ever adds tokens back.
pub proof fn lemma_sp_statement_len(ts: Seq<SpecToken>)
    ensures
        sp_statement(ts).1.len() <= ts.len(),
        sp_statement(ts).0 is Ok ==> sp_statement(ts).1.len() < ts.len(),
{
    match sp_cur(ts) {
        SpecToken::Let => {
            let ts1 = sp_adv(ts);
            match sp_cur(ts1) {
                SpecToken::Identifier(name) => {
                    let ts2 = sp_adv(ts1);
                    let (a, ts3) = sp_expect(ts2, SpecToken::Assign);
                    lemma_sp_expect_len(ts2, SpecToken::Assign);
                    if a is Ok {
                        let (e, ts4) = sp_expression(ts3);
                        lemma_sp_expression_len(ts3);
                        if e is Ok {
                            lemma_sp_expect_len(ts4, SpecToken::Semicolon);
                        }
                    }
                },
                _ => {},
            }
        },
        SpecToken::Print => {
            let ts1 = sp_adv(ts);
            let (e, ts2) = sp_expression(ts1);
            lemma_sp_expression_len(ts1);
            if e is Ok {
                lemma_sp_expect_len(ts2, SpecToken::Semicolon);
            }
        },
        SpecToken::PrintLn => {
            let ts1 = sp_adv(ts);
            let (e, ts2) = sp_expression(ts1);
            lemma_sp_expression_len(ts1);
            if e is Ok {
                lemma_sp_expect_len(ts2, SpecToken::Semicolon);
            }
        },
        _ => {
            let (e, ts1) = sp_expression(ts);
            lemma_sp_expression_len(ts);
            if e is Ok {
                lemma_sp_expect_len(ts1, SpecToken::Semicolon);
            }
        },
    }
}

/// Program := Statement* EndOfInput. Parsing either completes, returning
/// every statement in order, or aborts at the first failure.
pub open spec fn sp_program(ts: Seq<SpecToken>) -> Result<Seq<SpecNode>, SpecParseError>
    decreases ts.len(),
        via sp_program_dec
{
    if sp_cur(ts) is EOF {
        Ok(Seq::empty())
    } else {
        let (r, ts1) = sp_statement(ts);
        match r {
            Ok(node) => match sp_program(ts1) {
                Ok(rest) => Ok(seq![node] + rest),
                Err(e) => Err(e),
            },
            Err(e) => Err(e),
        }
    }
}

#[via_fn]
proof fn sp_program_dec(ts: Seq<SpecToken>) {
    lemma_sp_statement_len(ts);
}

pub open spec fn stmt_res_view(r: Result<ASTNode, ParseError>) -> Result<
    SpecNode,
    SpecParseError,
> {
    match r {
        Ok(node) => Ok(node.deep_view()),
        Err(e) => Err(e.deep_view()),
    }
}

pub open spec fn unit_res_view(r: Result<(), ParseError>) -> Result<(), SpecParseError> {
    match r {
        Ok(_) => Ok(()),
        Err(e) => Err(e.deep_view()),
    }
}

pub open spec fn nodes_res_view(r: Result<Vec<ASTNode>, ParseError>) -> Result<
    Seq<SpecNode>,
    SpecParseError,
> {
    match r {
        Ok(nodes) => Ok(nodes.deep_view()),
        Err(e) => Err(e.deep_view()),
    }
}

impl Clone for Token {
    /// A copy equal to the original, identifier name included.
    fn clone(&self) -> (t: Token)
        ensures
            t == *self,
    {
        match self {
            Token::Let => Token::Let,
            Token::Identifier(s) => Token::Identifier(s.clone()),
            Token::Assign => Token::Assign,
            Token::Print => Token::Print,
            Token::PrintLn => Token::PrintLn,
            Token::Number(n) => Token::Number(*n),
            Token::Plus => Token::Plus,
            Token::Minus => Token::Minus,
            Token::Multiply => Token::Multiply,
            Token::Divide => Token::Divide,
            Token::Semicolon => Token::Semicolon,
            Token::EOF => Token::EOF,
        }
    }
}

/// Tokens are equal exactly when their mathematical faces are.
fn token_eq(a: &Token, b: &Token) -> (r: bool)
    ensures
        r == (a.deep_view() == b.deep_view()),
{
    match a {
        Token::Let => matches!(b, Token::Let),
        Token::Identifier(x) => match b {
            Token::Identifier(y) => *x == *y,
            _ => false,
        },
        Token::Assign => matches!(b, Token::Assign),
        Token::Print => matches!(b, Token::Print),
        Token::PrintLn => matches!(b, Token::PrintLn),
        Token::Number(x) => match b {
            Token::Number(y) => *x == *y,
            _ => false,
        },
        Token::Plus => matches!(b, Token::Plus),
        Token::Minus => matches!(b, Token::Minus),
        Token::Multiply => matches!(b, Token::Multiply),
        Token::Divide => matches!(b, Token::Divide),
        Token::Semicolon => matches!(b, Token::Semicolon),
        Token::EOF => matches!(b, Token::EOF),
    }
}

/// Consumes tokens one by one from a lexer, holding exactly one token of
/// lookahead in `current_token`.
pub struct Parser {
    lexer: Lexer,
    current_token: Token,
}

impl Parser {
    /// The stream still to be consumed: the lookahead token followed by
    /// whatever the lexer has not produced yet (empty once the lookahead is
    /// the end-of-input sentinel).
    pub closed spec fn toks(&self) -> Seq<SpecToken> {
        if self.current_token is EOF {
            Seq::empty()
        } else {
            seq![self.current_token.deep_view()] + spec_tokens(
                self.lexer.text(),
                self.lexer.pos(),
            )
        }
    }

    /// The lexer cursor is in range, and once the lookahead is the
    /// sentinel, the lexer yields nothing but the sentinel.
    pub closed spec fn wf(&self) -> bool {
        &&& self.lexer.wf()
        &&& (self.current_token is EOF ==> token_at(self.lexer.text(), self.lexer.pos()).0
            is EOF)
    }

    /// Takes ownership of the lexer and primes the lookahead with its first
    /// token.
    pub fn new(lexer: Lexer) -> (parser: Parser)
        requires
            lexer.wf(),
        ensures
            parser.wf(),
            parser.toks() == spec_tokens(lexer.text(), lexer.pos()),
    {
        let mut parser = Parser { lexer, current_token: Token::EOF };
        let _ = parser.advance();
        parser
    }

    /// Replaces the lookahead with the next token from the lexer and hands
    /// the old lookahead out.
    fn advance(&mut self) -> (t: Token)
        requires
            old(self).lexer.wf(),
        ensures
            final(self).wf(),
            t == old(self).current_token,
            final(self).toks() == spec_tokens(old(self).lexer.text(), old(self).lexer.pos()),
            old(self).wf() ==> final(self).toks() == sp_adv(old(self).toks())
                && t.deep_view() == sp_cur(old(self).toks()),
    {
        proof {
            crate::lexer::lemma_token_at_bounds(self.lexer.text(), self.lexer.pos());
        }
        let next = self.lexer.next_token();
        let mut t = next;
        core::mem::swap(&mut self.current_token, &mut t);
        proof {
            if self.current_token is EOF {
                crate::lexer::lemma_eof_stable(self.lexer.text(), old(self).lexer.pos());
            }
        }
        t
    }

    /// Demands that the lookahead be exactly `expected` and consumes it; on
    /// anything else fails, naming the expected and the actual token.
    fn expect_token(&mut self, expected: Token) -> (r: Result<(), ParseError>)
        requires
            old(self).wf(),
        ensures
            final(self).wf(),
            ({
                let (sr, srest) = sp_expect(old(self).toks(), expected.deep_view());
                unit_res_view(r) == sr && final(self).toks() == srest
            }),
    {
        if token_eq(&self.current_token, &expected) {
            let _ = self.advance();
            Ok(())
        } else {
            Err(ParseError::ExpectedToken { expected, found: self.current_token.clone() })
        }
    }

    /// Factor := NumberLiteral.
    fn parse_factor(&mut self) -> (r: Result<ASTNode, ParseError>)
        requires
            old(self).wf(),
        ensures
            final(self).wf(),
            ({
                let (sr, srest) = sp_factor(old(self).toks());
                stmt_res_view(r) == sr && final(self).toks() == srest
            }),
    {
        match self.current_token {
            Token::Number(n) => {
                let _ = self.advance();
                Ok(ASTNode::Number(n))
            },
            _ => Err(ParseError::UnexpectedToken { found: self.current_token.clone() }),
        }
    }

    /// Term := Factor (('+' | '-') Factor)*, folded left-associatively.
    fn parse_term(&mut self) -> (r: Result<ASTNode, ParseError>)
        requires
            old(self).wf(),
        ensures
            final(self).wf(),
            ({
                let (sr, srest) = sp_term(old(self).toks());
                stmt_res_view(r) == sr && final(self).toks() == srest
            }),
    {
        let mut node = match self.parse_factor() {
            Ok(n) => n,
            Err(e) => {
                return Err(e);
            },
        };
        let ghost first = node.deep_view();
        let ghost after_factor = self.toks();
        while matches!(self.current_token, Token::Plus | Token::Minus)
            invariant
                self.wf(),
                sp_term(old(self).toks()) == sp_term_rest(first, after_factor),
                sp_term_rest(node.deep_view(), self.toks()) == sp_term_rest(first, after_factor),
            decreases self.toks().len(),
        {
            let operator = if matches!(self.current_token, Token::Plus) {
                Token::Plus
            } else {
                Token::Minus
            };
            let _ = self.advance();
            let right = match self.parse_factor() {
                Ok(n) => n,
                Err(e) => {
                    return Err(e);
                },
            };
            node = ASTNode::BinaryOp { left: Box::new(node), operator, right: Box::new(right) };
        }
        Ok(node)
    }

    /// Expression := Identifier | Term. An identifier becomes a bare
    /// variable reference at once and never joins an arithmetic term.
    fn parse_expression(&mut self) -> (r: Result<ASTNode, ParseError>)
        requires
            old(self).wf(),
        ensures
            final(self).wf(),
            ({
                let (sr, srest) = sp_expression(old(self).toks());
                stmt_res_view(r) == sr && final(self).toks() == srest
            }),
    {
        if matches!(self.current_token, Token::Identifier(_)) {
            let t = self.advance();
            match t {
                Token::Identifier(name) => Ok(ASTNode::Variable(name)),
                // The lookahead was just matched as an identifier, so this
                // arm is unreachable; it only completes the match.
                _ => Err(ParseError::UnexpectedToken { found: t }),
            }
        } else {
            self.parse_term()
        }
    }

    /// ExprStmt := Expression ';'.
    fn parse_expression_statement(&mut self) -> (r: Result<ASTNode, ParseError>)
        requires
            old(self).wf(),
        ensures
            final(self).wf(),
            ({
                let (sr, srest) = sp_statement(old(self).toks());
                !(sp_cur(old(self).toks()) is Let) && !(sp_cur(old(self).toks()) is Print)
                    && !(sp_cur(old(self).toks()) is PrintLn) ==> stmt_res_view(r) == sr
                    && final(self).toks() == srest
            }),
    {
        let node = match self.parse_expression() {
            Ok(n) => n,
            Err(e) => {
                return Err(e);
            },
        };
        match self.expect_token(Token::Semicolon) {
            Ok(_) => Ok(node),
            Err(e) => Err(e),
        }
    }

    /// Statement := LetStmt | PrintStmt | PrintLnStmt | ExprStmt, chosen by
    /// the lookahead alone.
    fn parse_statement(&mut self) -> (r: Result<ASTNode, ParseError>)
        requires
            old(self).wf(),
        ensures
            final(self).wf(),
            ({
                let (sr, srest) = sp_statement(old(self).toks());
                stmt_res_view(r) == sr && final(self).toks() == srest
            }),
    {
        if matches!(self.current_token, Token::Let) {
            let _ = self.advance();
            if matches!(self.current_token, Token::Identifier(_)) {
                let t = self.advance();
                let name = match t {
                    Token::Identifier(name) => name,
                    _ => {
                        return Err(ParseError::UnexpectedToken { found: t });
                    },
                };
                match self.expect_token(Token::Assign) {
                    Ok(_) => {},
                    Err(e) => {
                        return Err(e);
                    },
                }
                let expr = match self.parse_expression() {
                    Ok(n) => n,
                    Err(e) => {
                        return Err(e);
                    },
                };
                match self.expect_token(Token::Semicolon) {
                    Ok(_) => {},
                    Err(e) => {
                        return Err(e);
                    },
                }
                Ok(ASTNode::VariableDeclaration(name, Box::new(expr)))
            } else {
                Err(ParseError::ExpectedIdentifier { found: self.current_token.clone() })
            }
        } else if matches!(self.current_token, Token::Print) {
            let _ = self.advance();
            let expr = match self.parse_expression() {
                Ok(n) => n,
                Err(e) => {
                    return Err(e);
                },
            };
            match self.expect_token(Token::Semicolon) {
                Ok(_) => Ok(ASTNode::Print(Box::new(expr))),
                Err(e) => Err(e),
            }
        } else if matches!(self.current_token, Token::PrintLn) {
            let _ = self.advance();
            let expr = match self.parse_expression() {
                Ok(n) => n,
                Err(e) => {
                    return Err(e);
                },
            };
            match self.expect_token(Token::Semicolon) {
                Ok(_) => Ok(ASTNode::PrintLn(Box::new(expr))),
                Err(e) => Err(e),
            }
        } else {
            self.parse_expression_statement()
        }
    }

    /// Consumes the whole token stream and returns the statements in order,
    /// or the first failure. The loop provably terminates: every parsed
    /// statement consumes at least one token.
    pub fn parse(&mut self) -> (r: Result<Vec<ASTNode>, ParseError>)
        requires
            old(self).wf(),
        ensures
            final(self).wf(),
            nodes_res_view(r) == sp_program(old(self).toks()),
    {
        let mut nodes: Vec<ASTNode> = Vec::new();
        while !matches!(self.current_token, Token::EOF)
            invariant
                self.wf(),
                ({
                    let rest_r = sp_program(self.toks());
                    match rest_r {
                        Ok(rest) => sp_program(old(self).toks()) == Ok::<
                            Seq<SpecNode>,
                            SpecParseError,
                        >(nodes.deep_view() + rest),
                        Err(e) => sp_program(old(self).toks()) == Err::<
                            Seq<SpecNode>,
                            SpecParseError,
                        >(e),
                    }
                }),
            decreases self.toks().len(),
        {
            let ghost before = self.toks();
            let node = match self.parse_statement() {
                Ok(n) => n,
                Err(e) => {
                    return Err(e);
                },
            };
            proof {
                lemma_sp_statement_len(before);
            }
            let ghost nodes_before = nodes.deep_view();
            nodes.push(node);
            proof {
                assert(nodes.deep_view() =~= nodes_before + seq![node.deep_view()]);
                if sp_program(self.toks()) is Ok {
                    let rest = sp_program(self.toks())->Ok_0;
                    assert(nodes_before + (seq![node.deep_view()] + rest) =~= nodes.deep_view()
                        + rest);
                }
            }
        }
        proof {
            assert(nodes.deep_view() + Seq::<SpecNode>::empty() =~= nodes.deep_view());
        }
        Ok(nodes)
    }
}

} // verus!
