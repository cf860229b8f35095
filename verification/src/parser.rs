//! Builds a syntax tree from tokens by recursive descent.
use vstd::prelude::*;
use crate::ast::{
    Expr, Program, SExpr, SStmt, Stmt, expr_view, exprs_view, lemma_exprs_view_push, lemma_stmts_view_push,
    names_view, stmts_view,
};
use crate::parser_spec::{
    binary_text, nxt, prec_of, spec_array, spec_block, spec_body, spec_call, spec_expr, spec_for, spec_function,
    spec_head, spec_if, spec_index, spec_infix, spec_jump, spec_let_core, spec_list, spec_params, spec_primary,
    spec_print, spec_program, spec_return, spec_stmt, spec_while, spec_assign_core, then_semicolon, tok, unary_text,
};
use crate::text::string_from_chars;
use crate::token::{Keyword, SpecToken, Token};

verus! {

/// The models of a token list.
pub open spec fn token_views(v: Seq<Token>) -> Seq<SpecToken> {
    Seq::new(v.len(), |i: int| v[i]@)
}

/// What a parsing step gave, in the shape the grammar functions use.
pub open spec fn outcome<T: View>(r: Option<T>, p: int) -> Option<(T::V, int)> {
    match r {
        Some(x) => Some((x@, p)),
        None => None,
    }
}

/// How tightly an operator binds.
#[derive(Debug, Clone, Copy, PartialEq, Eq, Structural)]
enum Precedence {
    Lowest,
    Equality,
    Comparison,
    Term,
    Factor,
    Unary,
}

impl Precedence {
    spec fn spec_rank(self) -> nat {
        match self {
            Precedence::Lowest => 0,
            Precedence::Equality => 1,
            Precedence::Comparison => 2,
            Precedence::Term => 3,
            Precedence::Factor => 4,
            Precedence::Unary => 5,
        }
    }

    fn rank(self) -> (r: u8)
        ensures
            r == self.spec_rank(),
    {
        match self {
            Precedence::Lowest => 0,
            Precedence::Equality => 1,
            Precedence::Comparison => 2,
            Precedence::Term => 3,
            Precedence::Factor => 4,
            Precedence::Unary => 5,
        }
    }
}

/// Reads a token list from its first token on.
pub struct Parser {
    tokens: Vec<Token>,
    current: usize,
}

impl Parser {
    /// The models of the tokens being read.
    pub closed spec fn toks(&self) -> Seq<SpecToken> {
        token_views(self.tokens@)
    }

    /// The position of the current token.
    pub closed spec fn pos(&self) -> int {
        self.current as int
    }

    /// The tokens end with `EOF` and the position is within them. (Without
    /// the closing `EOF`, a prefix operator as the last token would be read
    /// again and again at the same place.)
    pub open spec fn ready(&self) -> bool {
        &&& self.toks().len() > 0
        &&& self.toks().last() is EOF
        &&& 0 <= self.pos() < self.toks().len()
    }

    /// A parser at the first of `tokens`.
    pub fn new(tokens: Vec<Token>) -> (r: Self)
        ensures
            r.toks() == token_views(tokens@),
            r.pos() == 0,
    {
        Self { tokens, current: 0 }
    }

    /// The token at the current position.
    pub fn current_token(&self) -> (r: &Token)
        requires
            0 <= self.pos() < self.toks().len(),
        ensures
            r@ == tok(self.toks(), self.pos()),
    {
        &self.tokens[self.current]
    }

    /// Moves to the next token; the last token is never passed.
    pub fn advance(&mut self)
        ensures
            final(self).toks() == old(self).toks(),
            final(self).pos() == nxt(old(self).toks(), old(self).pos()),
    {
        if self.current < self.tokens.len() && self.tokens.len() - self.current > 1 {
            self.current += 1;
        }
    }

    /// The token after the current one, if any.
    pub fn peek_token(&self) -> (r: Option<&Token>)
        ensures
            match r {
                Some(k) => self.pos() + 1 < self.toks().len() && k@ == self.toks()[self.pos() + 1],
                None => self.pos() + 1 >= self.toks().len(),
            },
    {
        if self.current < self.tokens.len() && self.tokens.len() - self.current > 1 {
            Some(&self.tokens[self.current + 1])
        } else {
            None
        }
    }
}


/// The parser still reads the same tokens, is still ready, and has not moved back.
pub open spec fn moved_on(before: Parser, after: Parser) -> bool {
    &&& after.toks() == before.toks()
    &&& after.ready()
    &&& before.pos() <= after.pos()
}

impl Parser {
    fn current_precedence(&self) -> (r: Precedence)
        requires
            self.ready(),
        ensures
            r.spec_rank() == prec_of(tok(self.toks(), self.pos())),
    {
        match self.current_token() {
            Token::EqualEqual | Token::BangEqual => Precedence::Equality,
            Token::Less | Token::LessEqual | Token::Greater | Token::GreaterEqual => Precedence::Comparison,
            Token::Plus | Token::Minus => Precedence::Term,
            Token::Star | Token::Slash | Token::Percent => Precedence::Factor,
            _ => Precedence::Lowest,
        }
    }

    #[allow(dead_code)]
    fn peek_precedence(&self) -> (r: Precedence)
        requires
            self.ready(),
        ensures
            r.spec_rank() == prec_of(tok(self.toks(), self.pos() + 1)),
    {
        match self.peek_token() {
            Some(Token::EqualEqual) | Some(Token::BangEqual) => Precedence::Equality,
            Some(Token::Less) | Some(Token::LessEqual) | Some(Token::Greater) | Some(Token::GreaterEqual) => {
                Precedence::Comparison
            },
            Some(Token::Plus) | Some(Token::Minus) => Precedence::Term,
            Some(Token::Star) | Some(Token::Slash) | Some(Token::Percent) => Precedence::Factor,
            _ => Precedence::Lowest,
        }
    }

    fn parse_primary(&mut self) -> (r: Option<Expr>)
        requires
            old(self).ready(),
        ensures
            moved_on(*old(self), *final(self)),
            outcome(r, final(self).pos()) == spec_primary(old(self).toks(), old(self).pos()),
            r is Some ==> old(self).pos() < final(self).pos(),
        decreases old(self).toks().len() - old(self).pos(), 1nat,
    {
        let ghost t = self.toks();
        let ghost p = self.pos();
        let is_prefix = match self.current_token() {
            Token::Plus | Token::Minus | Token::Bang => true,
            _ => false,
        };
        if is_prefix {
            let operator = match self.current_token() {
                Token::Plus => string_from_chars(&['+']),
                Token::Minus => string_from_chars(&['-']),
                _ => string_from_chars(&['!']),
            };
            proof {
                assert(operator@ =~= unary_text(tok(t, p)));
            }
            self.advance();
            let right = self.parse_primary()?;
            return Some(Expr::Unary { operator, right: Box::new(right) });
        }
        match self.current_token() {
            Token::Number(value) => {
                let expr = Expr::Number(value.clone());
                self.advance();
                Some(expr)
            },
            Token::String(text) => {
                let expr = Expr::String(text.clone());
                self.advance();
                Some(expr)
            },
            Token::Identifier(name) => {
                let expr = Expr::Identifier(name.clone());
                self.advance();
                if matches!(self.current_token(), Token::LeftParen) {
                    return self.parse_call_expression(expr);
                }
                if matches!(self.current_token(), Token::LeftBracket) {
                    return self.parse_index_expression(expr);
                }
                Some(expr)
            },
            Token::Keyword(Keyword::True) => {
                self.advance();
                Some(Expr::Boolean(true))
            },
            Token::Keyword(Keyword::False) => {
                self.advance();
                Some(Expr::Boolean(false))
            },
            Token::Keyword(Keyword::Null) => {
                self.advance();
                Some(Expr::Null)
            },
            Token::LeftBracket => self.parse_array_expression(),
            _ => None,
        }
    }

    fn parse_call_expression(&mut self, callee: Expr) -> (r: Option<Expr>)
        requires
            old(self).ready(),
            tok(old(self).toks(), old(self).pos()) is LeftParen,
        ensures
            moved_on(*old(self), *final(self)),
            outcome(r, final(self).pos()) == spec_call(old(self).toks(), old(self).pos(), callee@),
            r is Some ==> old(self).pos() < final(self).pos(),
        decreases old(self).toks().len() - old(self).pos(), 0nat,
    {
        let ghost t = self.toks();
        let ghost p = self.pos();
        self.advance();
        let ghost q = self.pos();
        let mut arguments: Vec<Expr> = Vec::new();
        while !matches!(self.current_token(), Token::RightParen)
            invariant
                self.ready(),
                self.toks() == t,
                t == old(self).toks(),
                p == old(self).pos(),
                p < q <= self.pos(),
                q == nxt(t, p),
                t.len() > 0,
                spec_list(t, self.pos(), exprs_view(arguments@), false) == spec_list(t, q, Seq::empty(), false),
            decreases t.len() - self.pos(),
        {
            let argument = self.parse_expression(Precedence::Lowest)?;
            proof {
                lemma_exprs_view_push(arguments@, argument);
            }
            arguments.push(argument);
            if matches!(self.current_token(), Token::Comma) {
                self.advance();
            }
        }
        self.advance();
        Some(Expr::Call { callee: Box::new(callee), arguments })
    }

    fn parse_index_expression(&mut self, object: Expr) -> (r: Option<Expr>)
        requires
            old(self).ready(),
            tok(old(self).toks(), old(self).pos()) is LeftBracket,
        ensures
            moved_on(*old(self), *final(self)),
            outcome(r, final(self).pos()) == spec_index(old(self).toks(), old(self).pos(), object@),
            r is Some ==> old(self).pos() < final(self).pos(),
        decreases old(self).toks().len() - old(self).pos(), 0nat,
    {
        self.advance();
        let index = self.parse_expression(Precedence::Lowest)?;
        match self.current_token() {
            Token::RightBracket => {},
            _ => {
                return None;
            },
        }
        self.advance();
        Some(Expr::Index { object: Box::new(object), index: Box::new(index) })
    }

    fn parse_array_expression(&mut self) -> (r: Option<Expr>)
        requires
            old(self).ready(),
            tok(old(self).toks(), old(self).pos()) is LeftBracket,
        ensures
            moved_on(*old(self), *final(self)),
            outcome(r, final(self).pos()) == spec_array(old(self).toks(), old(self).pos()),
            r is Some ==> old(self).pos() < final(self).pos(),
        decreases old(self).toks().len() - old(self).pos(), 0nat,
    {
        let ghost t = self.toks();
        let ghost p = self.pos();
        self.advance();
        let ghost q = self.pos();
        let mut elements: Vec<Expr> = Vec::new();
        while !matches!(self.current_token(), Token::RightBracket)
            invariant
                self.ready(),
                self.toks() == t,
                t == old(self).toks(),
                p == old(self).pos(),
                p < q <= self.pos(),
                q == nxt(t, p),
                t.len() > 0,
                spec_list(t, self.pos(), exprs_view(elements@), true) == spec_list(t, q, Seq::empty(), true),
            decreases t.len() - self.pos(),
        {
            let expr = self.parse_expression(Precedence::Lowest)?;
            proof {
                lemma_exprs_view_push(elements@, expr);
            }
            elements.push(expr);
            if matches!(self.current_token(), Token::Comma) {
                self.advance();
            }
        }
        self.advance();
        Some(Expr::Array { elements })
    }

    fn parse_expression(&mut self, precedence: Precedence) -> (r: Option<Expr>)
        requires
            old(self).ready(),
        ensures
            moved_on(*old(self), *final(self)),
            outcome(r, final(self).pos()) == spec_expr(old(self).toks(), old(self).pos(), precedence.spec_rank()),
            r is Some ==> old(self).pos() < final(self).pos(),
        decreases old(self).toks().len() - old(self).pos(), 2nat,
    {
        let ghost t = self.toks();
        let ghost p = self.pos();
        let mut left = self.parse_primary()?;
        while self.current_precedence().rank() > precedence.rank()
            invariant
                self.ready(),
                self.toks() == t,
                t == old(self).toks(),
                p == old(self).pos(),
                p < self.pos(),
                spec_infix(t, self.pos(), precedence.spec_rank(), left@) == spec_expr(t, p, precedence.spec_rank()),
            decreases t.len() - self.pos(),
        {
            left = self.parse_infix(left)?;
        }
        Some(left)
    }

    /// Reads the binary operator at the current position and its right operand.
    fn parse_infix(&mut self, left: Expr) -> (r: Option<Expr>)
        requires
            old(self).ready(),
            prec_of(tok(old(self).toks(), old(self).pos())) > 0,
        ensures
            moved_on(*old(self), *final(self)),
            outcome(r, final(self).pos()) == ({
                let t = old(self).toks();
                let p = old(self).pos();
                let k = tok(t, p);
                match spec_expr(t, nxt(t, p), prec_of(k)) {
                    Some((rt, e)) => Some((SExpr::Binary(Box::new(left@), binary_text(k), Box::new(rt)), e)),
                    None => None,
                }
            }),
            r is Some ==> old(self).pos() < final(self).pos(),
        decreases old(self).toks().len() - old(self).pos(), 1nat,
    {
        let ghost t = self.toks();
        let ghost p = self.pos();
        let operator = match self.current_token() {
            Token::Plus => string_from_chars(&['+']),
            Token::Minus => string_from_chars(&['-']),
            Token::Star => string_from_chars(&['*']),
            Token::Slash => string_from_chars(&['/']),
            Token::Percent => string_from_chars(&['%']),
            Token::EqualEqual => string_from_chars(&['=', '=']),
            Token::BangEqual => string_from_chars(&['!', '=']),
            Token::Less => string_from_chars(&['<']),
            Token::LessEqual => string_from_chars(&['<', '=']),
            Token::Greater => string_from_chars(&['>']),
            Token::GreaterEqual => string_from_chars(&['>', '=']),
            _ => {
                return Some(left);
            },
        };
        proof {
            assert(operator@ =~= binary_text(tok(t, p)));
        }
        let precedence = self.current_precedence();
        self.advance();
        let right = self.parse_expression(precedence)?;
        Some(Expr::Binary { left: Box::new(left), operator, right: Box::new(right) })
    }
}


impl Parser {
    /// Reads statements up to (not past) a `}` or the end of the tokens.
    fn parse_block_statements(&mut self) -> (r: Option<Vec<Stmt>>)
        requires
            old(self).ready(),
        ensures
            moved_on(*old(self), *final(self)),
            match r {
                Some(b) => spec_block(old(self).toks(), old(self).pos(), Seq::empty()) == Some(
                    (stmts_view(b@), final(self).pos()),
                ),
                None => spec_block(old(self).toks(), old(self).pos(), Seq::empty()) is None,
            },
        decreases old(self).toks().len() - old(self).pos(), 6nat,
    {
        let ghost t = self.toks();
        let ghost p = self.pos();
        let mut body: Vec<Stmt> = Vec::new();
        proof {
            assert(stmts_view(body@) =~= Seq::<SStmt>::empty());
        }
        while !matches!(self.current_token(), Token::RightBrace | Token::EOF)
            invariant
                self.ready(),
                self.toks() == t,
                t == old(self).toks(),
                p == old(self).pos(),
                p <= self.pos(),
                spec_block(t, self.pos(), stmts_view(body@)) == spec_block(t, p, Seq::empty()),
            decreases t.len() - self.pos(),
        {
            match self.parse_statement() {
                Some(stmt) => {
                    proof {
                        lemma_stmts_view_push(body@, stmt);
                    }
                    body.push(stmt);
                },
                None => {
                    return None;
                },
            }
        }
        Some(body)
    }

    /// Reads a `{ ... }` body from the current `{` on, up to and past its `}`.
    fn parse_braced_body(&mut self) -> (r: Option<Vec<Stmt>>)
        requires
            old(self).ready(),
            tok(old(self).toks(), old(self).pos()) is LeftBrace,
        ensures
            moved_on(*old(self), *final(self)),
            match r {
                Some(b) => spec_body(old(self).toks(), nxt(old(self).toks(), old(self).pos())) == Some(
                    (stmts_view(b@), final(self).pos()),
                ),
                None => spec_body(old(self).toks(), nxt(old(self).toks(), old(self).pos())) is None,
            },
            r is Some ==> old(self).pos() < final(self).pos(),
        decreases old(self).toks().len() - old(self).pos(), 7nat,
    {
        self.advance();
        let body = self.parse_block_statements()?;
        match self.current_token() {
            Token::RightBrace => {},
            _ => {
                return None;
            },
        }
        self.advance();
        Some(body)
    }

    fn parse_statement(&mut self) -> (r: Option<Stmt>)
        requires
            old(self).ready(),
        ensures
            moved_on(*old(self), *final(self)),
            outcome(r, final(self).pos()) == spec_stmt(old(self).toks(), old(self).pos()),
            r is Some ==> old(self).pos() < final(self).pos(),
        decreases old(self).toks().len() - old(self).pos(), 5nat,
    {
        match self.current_token() {
            Token::Keyword(Keyword::Let) => self.parse_let_statement(),
            Token::Keyword(Keyword::Print) => self.parse_print_statement(),
            Token::Keyword(Keyword::If) => self.parse_if_statement(),
            Token::Keyword(Keyword::While) => self.parse_while_statement(),
            Token::Keyword(Keyword::For) => self.parse_for_statement(),
            Token::Keyword(Keyword::Break) => self.parse_break_statement(),
            Token::Keyword(Keyword::Continue) => self.parse_continue_statement(),
            Token::Keyword(Keyword::Fn) => self.parse_function_statement(),
            Token::Keyword(Keyword::Return) => self.parse_return_statement(),
            Token::Identifier(_) => {
                match self.peek_token() {
                    Some(Token::Equal) | Some(Token::PlusPlus) | Some(Token::MinusMinus) | Some(Token::PlusEqual)
                    | Some(Token::MinusEqual) | Some(Token::StarEqual) | Some(Token::SlashEqual)
                    | Some(Token::PercentEqual) => self.parse_assign_statement(),
                    _ => self.parse_expression_statement(),
                }
            },
            _ => None,
        }
    }

    fn parse_function_statement(&mut self) -> (r: Option<Stmt>)
        requires
            old(self).ready(),
            tok(old(self).toks(), old(self).pos()) == SpecToken::Keyword(Keyword::Fn),
        ensures
            moved_on(*old(self), *final(self)),
            outcome(r, final(self).pos()) == spec_function(old(self).toks(), old(self).pos()),
            r is Some ==> old(self).pos() < final(self).pos(),
        decreases old(self).toks().len() - old(self).pos(), 4nat,
    {
        let ghost t = self.toks();
        let ghost p = self.pos();
        self.advance();
        let name = match self.current_token() {
            Token::Identifier(name) => name.clone(),
            _ => {
                return None;
            },
        };
        self.advance();
        match self.current_token() {
            Token::LeftParen => {},
            _ => {
                return None;
            },
        }
        self.advance();
        let ghost q = self.pos();
        let mut params: Vec<String> = Vec::new();
        proof {
            assert(names_view(params@) =~= Seq::<Seq<char>>::empty());
        }
        while !matches!(self.current_token(), Token::RightParen)
            invariant
                self.ready(),
                self.toks() == t,
                t == old(self).toks(),
                p == old(self).pos(),
                p < q <= self.pos(),
                tok(t, nxt(t, p)) == SpecToken::Identifier(name@),
                tok(t, nxt(t, nxt(t, p))) is LeftParen,
                q == nxt(t, nxt(t, nxt(t, p))),
                spec_params(t, self.pos(), names_view(params@)) == spec_params(t, q, Seq::empty()),
            decreases t.len() - self.pos(),
        {
            match self.current_token() {
                Token::Identifier(name) => {
                    let ghost before = names_view(params@);
                    params.push(name.clone());
                    proof {
                        assert(names_view(params@) =~= before.push(name@));
                    }
                },
                _ => {
                    return None;
                },
            }
            self.advance();
            if matches!(self.current_token(), Token::Comma) {
                self.advance();
            }
        }
        self.advance();
        match self.current_token() {
            Token::LeftBrace => {},
            _ => {
                return None;
            },
        }
        let body = self.parse_braced_body()?;
        Some(Stmt::Function { name, params, body })
    }

    fn parse_return_statement(&mut self) -> (r: Option<Stmt>)
        requires
            old(self).ready(),
            tok(old(self).toks(), old(self).pos()) == SpecToken::Keyword(Keyword::Return),
        ensures
            moved_on(*old(self), *final(self)),
            outcome(r, final(self).pos()) == spec_return(old(self).toks(), old(self).pos()),
            r is Some ==> old(self).pos() < final(self).pos(),
        decreases old(self).toks().len() - old(self).pos(), 4nat,
    {
        self.advance();
        let value = self.parse_expression(Precedence::Lowest)?;
        match self.current_token() {
            Token::Semicolon => self.advance(),
            _ => {
                return None;
            },
        }
        Some(Stmt::Return { value })
    }

    /// `let name = value`, without the closing `;`.
    fn parse_let_core(&mut self) -> (r: Option<Stmt>)
        requires
            old(self).ready(),
            tok(old(self).toks(), old(self).pos()) == SpecToken::Keyword(Keyword::Let),
        ensures
            moved_on(*old(self), *final(self)),
            outcome(r, final(self).pos()) == spec_let_core(old(self).toks(), old(self).pos()),
            r is Some ==> old(self).pos() < final(self).pos(),
        decreases old(self).toks().len() - old(self).pos(), 3nat,
    {
        self.advance();
        let name = match self.current_token() {
            Token::Identifier(name) => name.clone(),
            _ => {
                return None;
            },
        };
        self.advance();
        match self.current_token() {
            Token::Equal => {},
            _ => {
                return None;
            },
        }
        self.advance();
        let value = self.parse_expression(Precedence::Lowest)?;
        Some(Stmt::Let { name, value })
    }

    fn parse_let_statement(&mut self) -> (r: Option<Stmt>)
        requires
            old(self).ready(),
            tok(old(self).toks(), old(self).pos()) == SpecToken::Keyword(Keyword::Let),
        ensures
            moved_on(*old(self), *final(self)),
            outcome(r, final(self).pos()) == then_semicolon(
                old(self).toks(),
                spec_let_core(old(self).toks(), old(self).pos()),
            ),
            r is Some ==> old(self).pos() < final(self).pos(),
        decreases old(self).toks().len() - old(self).pos(), 4nat,
    {
        let stmt = self.parse_let_core()?;
        match self.current_token() {
            Token::Semicolon => {},
            _ => {
                return None;
            },
        }
        self.advance();
        Some(stmt)
    }

    /// `name = value`, `name++` or `name--`, without the closing `;`.
    fn parse_assign_core(&mut self) -> (r: Option<Stmt>)
        requires
            old(self).ready(),
            tok(old(self).toks(), old(self).pos()) is Identifier,
        ensures
            moved_on(*old(self), *final(self)),
            outcome(r, final(self).pos()) == spec_assign_core(old(self).toks(), old(self).pos()),
            r is Some ==> old(self).pos() < final(self).pos(),
        decreases old(self).toks().len() - old(self).pos(), 3nat,
    {
        let name = match self.current_token() {
            Token::Identifier(name) => name.clone(),
            _ => {
                return None;
            },
        };
        self.advance();
        let value = match self.current_token() {
            Token::Equal => {
                self.advance();
                self.parse_expression(Precedence::Lowest)?
            },
            Token::PlusPlus => {
                self.advance();
                let operator = string_from_chars(&['+']);
                let one = string_from_chars(&['1']);
                proof {
                    assert(operator@ =~= seq!['+']);
                    assert(one@ =~= seq!['1']);
                }
                let e = Expr::Binary {
                    left: Box::new(Expr::Identifier(name.clone())),
                    operator,
                    right: Box::new(Expr::Number(one)),
                };
                proof {
                    reveal_with_fuel(expr_view, 2);
                }
                e
            },
            Token::MinusMinus => {
                self.advance();
                let operator = string_from_chars(&['-']);
                let one = string_from_chars(&['1']);
                proof {
                    assert(operator@ =~= seq!['-']);
                    assert(one@ =~= seq!['1']);
                }
                let e = Expr::Binary {
                    left: Box::new(Expr::Identifier(name.clone())),
                    operator,
                    right: Box::new(Expr::Number(one)),
                };
                proof {
                    reveal_with_fuel(expr_view, 2);
                }
                e
            },
            _ => {
                return None;
            },
        };
        Some(Stmt::Assign { name, value })
    }

    fn parse_assign_statement(&mut self) -> (r: Option<Stmt>)
        requires
            old(self).ready(),
            tok(old(self).toks(), old(self).pos()) is Identifier,
        ensures
            moved_on(*old(self), *final(self)),
            outcome(r, final(self).pos()) == then_semicolon(
                old(self).toks(),
                spec_assign_core(old(self).toks(), old(self).pos()),
            ),
            r is Some ==> old(self).pos() < final(self).pos(),
        decreases old(self).toks().len() - old(self).pos(), 4nat,
    {
        let stmt = self.parse_assign_core()?;
        match self.current_token() {
            Token::Semicolon => {},
            _ => {
                return None;
            },
        }
        self.advance();
        Some(stmt)
    }

    fn parse_expression_statement(&mut self) -> (r: Option<Stmt>)
        requires
            old(self).ready(),
        ensures
            moved_on(*old(self), *final(self)),
            outcome(r, final(self).pos()) == (match spec_expr(old(self).toks(), old(self).pos(), 0) {
                Some((x, e)) => if tok(old(self).toks(), e) is Semicolon {
                    Some((SStmt::Expression(Box::new(x)), nxt(old(self).toks(), e)))
                } else {
                    None
                },
                None => None,
            }),
            r is Some ==> old(self).pos() < final(self).pos(),
        decreases old(self).toks().len() - old(self).pos(), 4nat,
    {
        let expression = self.parse_expression(Precedence::Lowest)?;
        match self.current_token() {
            Token::Semicolon => {},
            _ => {
                return None;
            },
        }
        self.advance();
        Some(Stmt::Expression { expression })
    }

    fn parse_print_statement(&mut self) -> (r: Option<Stmt>)
        requires
            old(self).ready(),
            tok(old(self).toks(), old(self).pos()) == SpecToken::Keyword(Keyword::Print),
        ensures
            moved_on(*old(self), *final(self)),
            outcome(r, final(self).pos()) == spec_print(old(self).toks(), old(self).pos()),
            r is Some ==> old(self).pos() < final(self).pos(),
        decreases old(self).toks().len() - old(self).pos(), 4nat,
    {
        self.advance();
        match self.current_token() {
            Token::LeftParen => {},
            _ => {
                return None;
            },
        }
        self.advance();
        let value = self.parse_expression(Precedence::Lowest)?;
        match self.current_token() {
            Token::RightParen => {},
            _ => {
                return None;
            },
        }
        self.advance();
        match self.current_token() {
            Token::Semicolon => {},
            _ => {
                return None;
            },
        }
        self.advance();
        Some(Stmt::Print { value })
    }

    /// `( condition ) {` from the current token on; stops after the `{`.
    fn parse_condition_head(&mut self) -> (r: Option<Expr>)
        requires
            old(self).ready(),
        ensures
            moved_on(*old(self), *final(self)),
            outcome(r, final(self).pos()) == spec_head(old(self).toks(), old(self).pos()),
            r is Some ==> old(self).pos() < final(self).pos(),
            r is Some ==> tok(old(self).toks(), final(self).pos() - 1) is LeftBrace,
        decreases old(self).toks().len() - old(self).pos(), 3nat,
    {
        match self.current_token() {
            Token::LeftParen => {},
            _ => {
                return None;
            },
        }
        self.advance();
        let condition = self.parse_expression(Precedence::Lowest)?;
        match self.current_token() {
            Token::RightParen => {},
            _ => {
                return None;
            },
        }
        self.advance();
        match self.current_token() {
            Token::LeftBrace => {},
            _ => {
                return None;
            },
        }
        self.advance();
        Some(condition)
    }

    fn parse_if_statement(&mut self) -> (r: Option<Stmt>)
        requires
            old(self).ready(),
            tok(old(self).toks(), old(self).pos()) == SpecToken::Keyword(Keyword::If),
        ensures
            moved_on(*old(self), *final(self)),
            outcome(r, final(self).pos()) == spec_if(old(self).toks(), old(self).pos()),
            r is Some ==> old(self).pos() < final(self).pos(),
        decreases old(self).toks().len() - old(self).pos(), 4nat,
    {
        let ghost t = self.toks();
        let ghost p = self.pos();
        self.advance();
        let condition = self.parse_condition_head()?;
        let then_branch = self.parse_block_statements()?;
        match self.current_token() {
            Token::RightBrace => {},
            _ => {
                return None;
            },
        }
        self.advance();
        let mut else_branch = None;
        if matches!(self.current_token(), Token::Keyword(Keyword::Else)) {
            self.advance();
            match self.current_token() {
                Token::LeftBrace => {},
                _ => {
                    return None;
                },
            }
            let statements = self.parse_braced_body()?;
            else_branch = Some(statements);
        }
        Some(Stmt::If { condition, then_branch, else_branch })
    }

    fn parse_while_statement(&mut self) -> (r: Option<Stmt>)
        requires
            old(self).ready(),
            tok(old(self).toks(), old(self).pos()) == SpecToken::Keyword(Keyword::While),
        ensures
            moved_on(*old(self), *final(self)),
            outcome(r, final(self).pos()) == spec_while(old(self).toks(), old(self).pos()),
            r is Some ==> old(self).pos() < final(self).pos(),
        decreases old(self).toks().len() - old(self).pos(), 4nat,
    {
        self.advance();
        let condition = self.parse_condition_head()?;
        let body = self.parse_block_statements()?;
        match self.current_token() {
            Token::RightBrace => {},
            _ => {
                return None;
            },
        }
        self.advance();
        Some(Stmt::While { condition, body })
    }

    #[verifier::rlimit(60)]
    fn parse_for_statement(&mut self) -> (r: Option<Stmt>)
        requires
            old(self).ready(),
            tok(old(self).toks(), old(self).pos()) == SpecToken::Keyword(Keyword::For),
        ensures
            moved_on(*old(self), *final(self)),
            outcome(r, final(self).pos()) == spec_for(old(self).toks(), old(self).pos()),
            r is Some ==> old(self).pos() < final(self).pos(),
        decreases old(self).toks().len() - old(self).pos(), 4nat,
    {
        self.advance();
        match self.current_token() {
            Token::LeftParen => {},
            _ => {
                return None;
            },
        }
        self.advance();
        let init = match self.current_token() {
            Token::Keyword(Keyword::Let) => self.parse_let_core()?,
            Token::Identifier(_) => self.parse_assign_core()?,
            _ => {
                return None;
            },
        };
        match self.current_token() {
            Token::Semicolon => {},
            _ => {
                return None;
            },
        }
        self.advance();
        let condition = self.parse_expression(Precedence::Lowest)?;
        match self.current_token() {
            Token::Semicolon => {},
            _ => {
                return None;
            },
        }
        self.advance();
        let update = match self.current_token() {
            Token::Identifier(_) => self.parse_assign_core()?,
            _ => {
                return None;
            },
        };
        match self.current_token() {
            Token::RightParen => {},
            _ => {
                return None;
            },
        }
        self.advance();
        match self.current_token() {
            Token::LeftBrace => {},
            _ => {
                return None;
            },
        }
        let body = self.parse_braced_body()?;
        Some(Stmt::For { init: Box::new(init), condition, update: Box::new(update), body })
    }

    fn parse_break_statement(&mut self) -> (r: Option<Stmt>)
        requires
            old(self).ready(),
            tok(old(self).toks(), old(self).pos()) == SpecToken::Keyword(Keyword::Break),
        ensures
            moved_on(*old(self), *final(self)),
            outcome(r, final(self).pos()) == spec_jump(old(self).toks(), old(self).pos(), SStmt::Break),
            r is Some ==> old(self).pos() < final(self).pos(),
    {
        self.advance();
        match self.current_token() {
            Token::Semicolon => {},
            _ => {
                return None;
            },
        }
        self.advance();
        Some(Stmt::Break)
    }

    fn parse_continue_statement(&mut self) -> (r: Option<Stmt>)
        requires
            old(self).ready(),
            tok(old(self).toks(), old(self).pos()) == SpecToken::Keyword(Keyword::Continue),
        ensures
            moved_on(*old(self), *final(self)),
            outcome(r, final(self).pos()) == spec_jump(old(self).toks(), old(self).pos(), SStmt::Continue),
            r is Some ==> old(self).pos() < final(self).pos(),
    {
        self.advance();
        match self.current_token() {
            Token::Semicolon => {},
            _ => {
                return None;
            },
        }
        self.advance();
        Some(Stmt::Continue)
    }

    /// Reads statements until the end of the tokens or the first statement that
    /// does not parse.
    pub fn parse_program(&mut self) -> (r: Program)
        requires
            old(self).ready(),
        ensures
            final(self).ready(),
            final(self).toks() == old(self).toks(),
            r@ == spec_program(old(self).toks(), old(self).pos(), Seq::empty()),
    {
        let ghost t = self.toks();
        let ghost p = self.pos();
        let mut statements: Vec<Stmt> = Vec::new();
        proof {
            assert(stmts_view(statements@) =~= Seq::<SStmt>::empty());
        }
        while !matches!(self.current_token(), Token::EOF)
            invariant_except_break
                self.ready(),
                self.toks() == t,
                t == old(self).toks(),
                p == old(self).pos(),
                spec_program(t, self.pos(), stmts_view(statements@)) == spec_program(t, p, Seq::empty()),
            ensures
                self.ready(),
                self.toks() == t,
                stmts_view(statements@) == spec_program(t, p, Seq::empty()),
            decreases t.len() - self.pos(),
        {
            match self.parse_statement() {
                Some(stmt) => {
                    proof {
                        lemma_stmts_view_push(statements@, stmt);
                    }
                    statements.push(stmt);
                },
                None => {
                    break;
                },
            }
        }
        Program { statements }
    }
}

} // verus!
