//! The grammar of the language, as functions from token sequences to syntax trees.
//!
//! Each function reads from a position in the token sequence and gives the
//! tree it recognises with the position just after it, or `None` when the
//! tokens there do not form that construct. Reading never moves past the last
//! token.
use vstd::prelude::*;
use crate::ast::{SExpr, SStmt};
use crate::token::{Keyword, SpecToken};

verus! {

/// The token at position `p`; `EOF` outside the sequence.
pub open spec fn tok(t: Seq<SpecToken>, p: int) -> SpecToken {
    if 0 <= p < t.len() {
        t[p]
    } else {
        SpecToken::EOF
    }
}

/// The position after `p`; the last position is never passed.
pub open spec fn nxt(t: Seq<SpecToken>, p: int) -> int {
    if p + 1 < t.len() {
        p + 1
    } else {
        p
    }
}

/// How tightly a binary operator binds; 0 for tokens that are no binary operator.
pub open spec fn prec_of(k: SpecToken) -> nat {
    match k {
        SpecToken::EqualEqual | SpecToken::BangEqual => 1,
        SpecToken::Less | SpecToken::LessEqual | SpecToken::Greater | SpecToken::GreaterEqual => 2,
        SpecToken::Plus | SpecToken::Minus => 3,
        SpecToken::Star | SpecToken::Slash | SpecToken::Percent => 4,
        _ => 0,
    }
}

/// The text of a binary operator token.
pub open spec fn binary_text(k: SpecToken) -> Seq<char> {
    match k {
        SpecToken::Plus => seq!['+'],
        SpecToken::Minus => seq!['-'],
        SpecToken::Star => seq!['*'],
        SpecToken::Slash => seq!['/'],
        SpecToken::Percent => seq!['%'],
        SpecToken::EqualEqual => seq!['=', '='],
        SpecToken::BangEqual => seq!['!', '='],
        SpecToken::Less => seq!['<'],
        SpecToken::LessEqual => seq!['<', '='],
        SpecToken::Greater => seq!['>'],
        SpecToken::GreaterEqual => seq!['>', '='],
        _ => Seq::empty(),
    }
}

/// The text of a prefix operator token.
pub open spec fn unary_text(k: SpecToken) -> Seq<char> {
    match k {
        SpecToken::Plus => seq!['+'],
        SpecToken::Minus => seq!['-'],
        _ => seq!['!'],
    }
}

/// Tokens that close a block.
pub open spec fn closes_block(k: SpecToken) -> bool {
    k is RightBrace || k is EOF
}

/// Tokens that, after a name, make a statement an assignment.
pub open spec fn assigns(k: SpecToken) -> bool {
    k is Equal || k is PlusPlus || k is MinusMinus || k is PlusEqual || k is MinusEqual
        || k is StarEqual || k is SlashEqual || k is PercentEqual
}

// ---------------------------------------------------------------------------
// Expressions.
// ---------------------------------------------------------------------------

/// A primary expression: a prefix operator applied to a primary, a literal, a
/// name (possibly called or indexed), or an array literal.
pub open spec fn spec_primary(t: Seq<SpecToken>, p: int) -> Option<(SExpr, int)>
    decreases t.len() - p, 1nat,
{
    let k = tok(t, p);
    let q = nxt(t, p);
    if k is Plus || k is Minus || k is Bang {
        if p < q {
            match spec_primary(t, q) {
                Some((r, e)) => Some((SExpr::Unary(unary_text(k), Box::new(r)), e)),
                None => None,
            }
        } else {
            None
        }
    } else {
        match k {
            SpecToken::Number(s) => Some((SExpr::Number(s), q)),
            SpecToken::String(s) => Some((SExpr::Str(s), q)),
            SpecToken::Identifier(n) => {
                if p < q && tok(t, q) is LeftParen {
                    spec_call(t, q, SExpr::Identifier(n))
                } else if p < q && tok(t, q) is LeftBracket {
                    spec_index(t, q, SExpr::Identifier(n))
                } else {
                    Some((SExpr::Identifier(n), q))
                }
            },
            SpecToken::Keyword(Keyword::True) => Some((SExpr::Boolean(true), q)),
            SpecToken::Keyword(Keyword::False) => Some((SExpr::Boolean(false), q)),
            SpecToken::Keyword(Keyword::Null) => Some((SExpr::Null, q)),
            SpecToken::LeftBracket => spec_array(t, p),
            _ => None,
        }
    }
}

/// A call: `(` at `p`, then arguments up to `)`.
pub open spec fn spec_call(t: Seq<SpecToken>, p: int, callee: SExpr) -> Option<(SExpr, int)>
    decreases t.len() - p, 0nat,
{
    let q = nxt(t, p);
    if p < q {
        match spec_list(t, q, Seq::empty(), false) {
            Some((args, e)) => Some((SExpr::Call(Box::new(callee), args), e)),
            None => None,
        }
    } else {
        None
    }
}

/// An index: `[` at `p`, then an expression and `]`.
pub open spec fn spec_index(t: Seq<SpecToken>, p: int, object: SExpr) -> Option<(SExpr, int)>
    decreases t.len() - p, 0nat,
{
    let q = nxt(t, p);
    if p < q {
        match spec_expr(t, q, 0) {
            Some((i, e)) => if tok(t, e) is RightBracket {
                Some((SExpr::Index(Box::new(object), Box::new(i)), nxt(t, e)))
            } else {
                None
            },
            None => None,
        }
    } else {
        None
    }
}

/// An array literal: `[` at `p`, then elements up to `]`.
pub open spec fn spec_array(t: Seq<SpecToken>, p: int) -> Option<(SExpr, int)>
    decreases t.len() - p, 0nat,
{
    let q = nxt(t, p);
    if p < q {
        match spec_list(t, q, Seq::empty(), true) {
            Some((es, e)) => Some((SExpr::Array(es), e)),
            None => None,
        }
    } else {
        None
    }
}

/// The rest of a list of expressions, with `acc` read so far, up to and past
/// its closing token: `]` for arrays, `)` for calls. A comma after an element
/// is skipped.
pub open spec fn spec_list(t: Seq<SpecToken>, p: int, acc: Seq<SExpr>, brackets: bool) -> Option<(Seq<SExpr>, int)>
    decreases t.len() - p, 3nat,
{
    let k = tok(t, p);
    if (brackets && k is RightBracket) || (!brackets && k is RightParen) {
        Some((acc, nxt(t, p)))
    } else {
        match spec_expr(t, p, 0) {
            Some((a, e)) => {
                let e2 = if tok(t, e) is Comma { nxt(t, e) } else { e };
                if p < e2 <= t.len() {
                    spec_list(t, e2, acc.push(a), brackets)
                } else {
                    None
                }
            },
            None => None,
        }
    }
}

/// An expression whose binary operators all bind more tightly than `prec`.
pub open spec fn spec_expr(t: Seq<SpecToken>, p: int, prec: nat) -> Option<(SExpr, int)>
    decreases t.len() - p, 2nat,
{
    match spec_primary(t, p) {
        Some((l, e)) => if p < e <= t.len() {
            spec_infix(t, e, prec, l)
        } else {
            None
        },
        None => None,
    }
}

/// Extends `left` with binary operators that bind more tightly than `prec`,
/// starting at `p`; operators of one level group to the left.
pub open spec fn spec_infix(t: Seq<SpecToken>, p: int, prec: nat, left: SExpr) -> Option<(SExpr, int)>
    decreases t.len() - p, 2nat,
{
    let k = tok(t, p);
    let cp = prec_of(k);
    if cp > prec {
        let q = nxt(t, p);
        if p < q {
            match spec_expr(t, q, cp) {
                Some((r, e)) => if p < e <= t.len() {
                    spec_infix(t, e, prec, SExpr::Binary(Box::new(left), binary_text(k), Box::new(r)))
                } else {
                    None
                },
                None => None,
            }
        } else {
            None
        }
    } else {
        Some((left, p))
    }
}

// ---------------------------------------------------------------------------
// Statements.
// ---------------------------------------------------------------------------

/// `let name = value`, without the closing `;`.
pub open spec fn spec_let_core(t: Seq<SpecToken>, p: int) -> Option<(SStmt, int)>
    decreases t.len() - p, 3nat,
{
    let q = nxt(t, p);
    match tok(t, q) {
        SpecToken::Identifier(n) => {
            let q2 = nxt(t, q);
            if tok(t, q2) is Equal && p < q {
                match spec_expr(t, nxt(t, q2), 0) {
                    Some((v, e)) => Some((SStmt::Let(n, Box::new(v)), e)),
                    None => None,
                }
            } else {
                None
            }
        },
        _ => None,
    }
}

/// `name = value`, `name++` or `name--`, without the closing `;`. The last two
/// stand for adding or subtracting the number 1.
pub open spec fn spec_assign_core(t: Seq<SpecToken>, p: int) -> Option<(SStmt, int)>
    decreases t.len() - p, 3nat,
{
    match tok(t, p) {
        SpecToken::Identifier(n) => {
            let q = nxt(t, p);
            match tok(t, q) {
                SpecToken::Equal => if p < q {
                    match spec_expr(t, nxt(t, q), 0) {
                        Some((v, e)) => Some((SStmt::Assign(n, Box::new(v)), e)),
                        None => None,
                    }
                } else {
                    None
                },
                SpecToken::PlusPlus => Some((SStmt::Assign(n, Box::new(step_expr(n, seq!['+']))), nxt(t, q))),
                SpecToken::MinusMinus => Some((SStmt::Assign(n, Box::new(step_expr(n, seq!['-']))), nxt(t, q))),
                _ => None,
            }
        },
        _ => None,
    }
}

/// `name op 1`.
pub open spec fn step_expr(n: Seq<char>, op: Seq<char>) -> SExpr {
    SExpr::Binary(Box::new(SExpr::Identifier(n)), op, Box::new(SExpr::Number(seq!['1'])))
}

/// A statement followed by `;`.
pub open spec fn then_semicolon(t: Seq<SpecToken>, r: Option<(SStmt, int)>) -> Option<(SStmt, int)> {
    match r {
        Some((s, e)) => if tok(t, e) is Semicolon {
            Some((s, nxt(t, e)))
        } else {
            None
        },
        None => None,
    }
}

/// `print ( value ) ;`
pub open spec fn spec_print(t: Seq<SpecToken>, p: int) -> Option<(SStmt, int)>
    decreases t.len() - p, 4nat,
{
    let q = nxt(t, p);
    if tok(t, q) is LeftParen {
        match spec_expr(t, nxt(t, q), 0) {
            Some((v, e)) => if tok(t, e) is RightParen && tok(t, nxt(t, e)) is Semicolon {
                Some((SStmt::Print(Box::new(v)), nxt(t, nxt(t, e))))
            } else {
                None
            },
            None => None,
        }
    } else {
        None
    }
}

/// `return value ;`
pub open spec fn spec_return(t: Seq<SpecToken>, p: int) -> Option<(SStmt, int)>
    decreases t.len() - p, 4nat,
{
    match spec_expr(t, nxt(t, p), 0) {
        Some((v, e)) => if tok(t, e) is Semicolon {
            Some((SStmt::Return(Box::new(v)), nxt(t, e)))
        } else {
            None
        },
        None => None,
    }
}

/// `break ;` or `continue ;`.
pub open spec fn spec_jump(t: Seq<SpecToken>, p: int, s: SStmt) -> Option<(SStmt, int)> {
    let q = nxt(t, p);
    if tok(t, q) is Semicolon {
        Some((s, nxt(t, q)))
    } else {
        None
    }
}

/// `( condition ) {` from `p` on: the condition and the position after `{`.
pub open spec fn spec_head(t: Seq<SpecToken>, p: int) -> Option<(SExpr, int)>
    decreases t.len() - p, 3nat,
{
    if tok(t, p) is LeftParen {
        match spec_expr(t, nxt(t, p), 0) {
            Some((c, e)) => if tok(t, e) is RightParen && tok(t, nxt(t, e)) is LeftBrace {
                Some((c, nxt(t, nxt(t, e))))
            } else {
                None
            },
            None => None,
        }
    } else {
        None
    }
}

/// A block body from `p` on, up to and past its `}`.
pub open spec fn spec_body(t: Seq<SpecToken>, p: int) -> Option<(Seq<SStmt>, int)>
    decreases t.len() - p, 7nat,
{
    match spec_block(t, p, Seq::empty()) {
        Some((b, e)) => if tok(t, e) is RightBrace {
            Some((b, nxt(t, e)))
        } else {
            None
        },
        None => None,
    }
}

/// `if ( condition ) { ... }`, with an optional `else { ... }`.
pub open spec fn spec_if(t: Seq<SpecToken>, p: int) -> Option<(SStmt, int)>
    decreases t.len() - p, 4nat,
{
    match spec_head(t, nxt(t, p)) {
        Some((c, e)) => if p < e <= t.len() {
            match spec_body(t, e) {
                Some((then_b, e2)) => if tok(t, e2) is Keyword && tok(t, e2)->Keyword_0 == Keyword::Else {
                    let e3 = nxt(t, e2);
                    if tok(t, e3) is LeftBrace && p < e3 <= t.len() {
                        match spec_body(t, nxt(t, e3)) {
                            Some((else_b, e4)) => Some((SStmt::If(Box::new(c), then_b, Some(else_b)), e4)),
                            None => None,
                        }
                    } else {
                        None
                    }
                } else {
                    Some((SStmt::If(Box::new(c), then_b, None), e2))
                },
                None => None,
            }
        } else {
            None
        },
        None => None,
    }
}

/// `while ( condition ) { ... }`
pub open spec fn spec_while(t: Seq<SpecToken>, p: int) -> Option<(SStmt, int)>
    decreases t.len() - p, 4nat,
{
    match spec_head(t, nxt(t, p)) {
        Some((c, e)) => if p < e <= t.len() {
            match spec_body(t, e) {
                Some((b, e2)) => Some((SStmt::While(Box::new(c), b), e2)),
                None => None,
            }
        } else {
            None
        },
        None => None,
    }
}

/// `for ( init ; condition ; update ) { ... }`, where `init` is a `let` or an
/// assignment and `update` an assignment, none with its `;`.
pub open spec fn spec_for(t: Seq<SpecToken>, p: int) -> Option<(SStmt, int)>
    decreases t.len() - p, 4nat,
{
    let q = nxt(t, p);
    if tok(t, q) is LeftParen {
        let q2 = nxt(t, q);
        let init = match tok(t, q2) {
            SpecToken::Keyword(Keyword::Let) => spec_let_core(t, q2),
            SpecToken::Identifier(_) => spec_assign_core(t, q2),
            _ => None,
        };
        match init {
            Some((i, e)) => if tok(t, e) is Semicolon && p < e <= t.len() {
                match spec_expr(t, nxt(t, e), 0) {
                    Some((c, e2)) => if tok(t, e2) is Semicolon && p < e2 <= t.len() {
                        let e3 = nxt(t, e2);
                        if tok(t, e3) is Identifier {
                            match spec_assign_core(t, e3) {
                                Some((u, e4)) => if tok(t, e4) is RightParen && tok(t, nxt(t, e4)) is LeftBrace
                                    && p < e4 <= t.len() {
                                    match spec_body(t, nxt(t, nxt(t, e4))) {
                                        Some((b, e5)) => Some((SStmt::For(Box::new(i), Box::new(c), Box::new(u), b), e5)),
                                        None => None,
                                    }
                                } else {
                                    None
                                },
                                None => None,
                            }
                        } else {
                            None
                        }
                    } else {
                        None
                    },
                    None => None,
                }
            } else {
                None
            },
            None => None,
        }
    } else {
        None
    }
}

/// Parameter names from `p` on, with `acc` read so far, up to (not past) `)`.
/// A comma after a name is skipped.
pub open spec fn spec_params(t: Seq<SpecToken>, p: int, acc: Seq<Seq<char>>) -> Option<(Seq<Seq<char>>, int)>
    decreases t.len() - p,
{
    match tok(t, p) {
        SpecToken::RightParen => Some((acc, p)),
        SpecToken::Identifier(n) => {
            let q = nxt(t, p);
            let q2 = if tok(t, q) is Comma { nxt(t, q) } else { q };
            if p < q2 <= t.len() {
                spec_params(t, q2, acc.push(n))
            } else {
                None
            }
        },
        _ => None,
    }
}

/// `fn name ( params ) { ... }`
pub open spec fn spec_function(t: Seq<SpecToken>, p: int) -> Option<(SStmt, int)>
    decreases t.len() - p, 4nat,
{
    let q = nxt(t, p);
    match tok(t, q) {
        SpecToken::Identifier(name) => {
            let q2 = nxt(t, q);
            if tok(t, q2) is LeftParen {
                match spec_params(t, nxt(t, q2), Seq::empty()) {
                    Some((params, e)) => {
                        let e2 = nxt(t, e);
                        if tok(t, e2) is LeftBrace && p < e2 <= t.len() {
                            match spec_body(t, nxt(t, e2)) {
                                Some((b, e3)) => Some((SStmt::Function(name, params, b), e3)),
                                None => None,
                            }
                        } else {
                            None
                        }
                    },
                    None => None,
                }
            } else {
                None
            }
        },
        _ => None,
    }
}

/// One statement at `p`.
pub open spec fn spec_stmt(t: Seq<SpecToken>, p: int) -> Option<(SStmt, int)>
    decreases t.len() - p, 5nat,
{
    match tok(t, p) {
        SpecToken::Keyword(Keyword::Let) => then_semicolon(t, spec_let_core(t, p)),
        SpecToken::Keyword(Keyword::Print) => spec_print(t, p),
        SpecToken::Keyword(Keyword::If) => spec_if(t, p),
        SpecToken::Keyword(Keyword::While) => spec_while(t, p),
        SpecToken::Keyword(Keyword::For) => spec_for(t, p),
        SpecToken::Keyword(Keyword::Break) => spec_jump(t, p, SStmt::Break),
        SpecToken::Keyword(Keyword::Continue) => spec_jump(t, p, SStmt::Continue),
        SpecToken::Keyword(Keyword::Fn) => spec_function(t, p),
        SpecToken::Keyword(Keyword::Return) => spec_return(t, p),
        SpecToken::Identifier(_) => if assigns(tok(t, p + 1)) {
            then_semicolon(t, spec_assign_core(t, p))
        } else {
            match spec_expr(t, p, 0) {
                Some((x, e)) => if tok(t, e) is Semicolon {
                    Some((SStmt::Expression(Box::new(x)), nxt(t, e)))
                } else {
                    None
                },
                None => None,
            }
        },
        _ => None,
    }
}

/// Statements from `p` on, with `acc` read so far, up to (not past) a `}` or
/// the end of the tokens.
pub open spec fn spec_block(t: Seq<SpecToken>, p: int, acc: Seq<SStmt>) -> Option<(Seq<SStmt>, int)>
    decreases t.len() - p, 6nat,
{
    if closes_block(tok(t, p)) {
        Some((acc, p))
    } else {
        match spec_stmt(t, p) {
            Some((s, e)) => if p < e <= t.len() {
                spec_block(t, e, acc.push(s))
            } else {
                None
            },
            None => None,
        }
    }
}

/// The statements of a program from `p` on, with `acc` read so far: reading
/// stops at the end of the tokens or at the first statement that does not parse.
pub open spec fn spec_program(t: Seq<SpecToken>, p: int, acc: Seq<SStmt>) -> Seq<SStmt>
    decreases t.len() - p,
{
    if tok(t, p) is EOF {
        acc
    } else {
        match spec_stmt(t, p) {
            Some((s, e)) => if p < e <= t.len() {
                spec_program(t, e, acc.push(s))
            } else {
                acc.push(s)
            },
            None => acc,
        }
    }
}

} // verus!
