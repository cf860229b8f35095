//! The syntax tree that the parser builds and the interpreter walks.
use vstd::prelude::*;

verus! {

/// An expression. A number literal keeps the digits it was written with.
#[derive(Debug)]
pub enum Expr {
    Identifier(String),
    Number(String),
    String(String),
    Boolean(bool),
    Null,
    Unary { operator: String, right: Box<Expr> },
    Binary { left: Box<Expr>, operator: String, right: Box<Expr> },
    Call { callee: Box<Expr>, arguments: Vec<Expr> },
    Array { elements: Vec<Expr> },
    Index { object: Box<Expr>, index: Box<Expr> },
}

/// A statement.
#[derive(Debug)]
pub enum Stmt {
    Let { name: String, value: Expr },
    Assign { name: String, value: Expr },
    Print { value: Expr },
    If { condition: Expr, then_branch: Vec<Stmt>, else_branch: Option<Vec<Stmt>> },
    While { condition: Expr, body: Vec<Stmt> },
    For { init: Box<Stmt>, condition: Expr, update: Box<Stmt>, body: Vec<Stmt> },
    Break,
    Continue,
    Function { name: String, params: Vec<String>, body: Vec<Stmt> },
    Return { value: Expr },
    Expression { expression: Expr },
}

/// A whole source file: its statements in order.
#[derive(Debug)]
pub struct Program {
    pub statements: Vec<Stmt>,
}

/// The mathematical model of the syntax tree: expressions and statements in
/// one type, so that every part of a statement is smaller than the statement.
pub enum SNode {
    Identifier(Seq<char>),
    Number(Seq<char>),
    Str(Seq<char>),
    Boolean(bool),
    Null,
    Unary(Seq<char>, Box<SNode>),
    Binary(Box<SNode>, Seq<char>, Box<SNode>),
    Call(Box<SNode>, Seq<SNode>),
    Array(Seq<SNode>),
    Index(Box<SNode>, Box<SNode>),
    Let(Seq<char>, Box<SNode>),
    Assign(Seq<char>, Box<SNode>),
    Print(Box<SNode>),
    If(Box<SNode>, Seq<SNode>, Option<Seq<SNode>>),
    While(Box<SNode>, Seq<SNode>),
    For(Box<SNode>, Box<SNode>, Box<SNode>, Seq<SNode>),
    Break,
    Continue,
    Function(Seq<char>, Seq<Seq<char>>, Seq<SNode>),
    Return(Box<SNode>),
    Expression(Box<SNode>),
}

/// The model of an expression.
pub type SExpr = SNode;

/// The model of a statement.
pub type SStmt = SNode;

/// The model of an expression.
pub open spec fn expr_view(e: Expr) -> SExpr
    decreases e,
{
    match e {
        Expr::Identifier(s) => SExpr::Identifier(s@),
        Expr::Number(s) => SExpr::Number(s@),
        Expr::String(s) => SExpr::Str(s@),
        Expr::Boolean(b) => SExpr::Boolean(b),
        Expr::Null => SExpr::Null,
        Expr::Unary { operator, right } => SExpr::Unary(operator@, Box::new(expr_view(*right))),
        Expr::Binary { left, operator, right } => SExpr::Binary(
            Box::new(expr_view(*left)),
            operator@,
            Box::new(expr_view(*right)),
        ),
        Expr::Call { callee, arguments } => SExpr::Call(Box::new(expr_view(*callee)), exprs_view(arguments@)),
        Expr::Array { elements } => SExpr::Array(exprs_view(elements@)),
        Expr::Index { object, index } => SExpr::Index(Box::new(expr_view(*object)), Box::new(expr_view(*index))),
    }
}

/// The models of a list of expressions.
pub open spec fn exprs_view(s: Seq<Expr>) -> Seq<SExpr>
    decreases s,
{
    if s.len() == 0 {
        Seq::empty()
    } else {
        seq![expr_view(s[0])] + exprs_view(s.drop_first())
    }
}

/// The model of a statement.
pub open spec fn stmt_view(st: Stmt) -> SStmt
    decreases st,
{
    match st {
        Stmt::Let { name, value } => SStmt::Let(name@, Box::new(expr_view(value))),
        Stmt::Assign { name, value } => SStmt::Assign(name@, Box::new(expr_view(value))),
        Stmt::Print { value } => SStmt::Print(Box::new(expr_view(value))),
        Stmt::If { condition, then_branch, else_branch } => SStmt::If(
            Box::new(expr_view(condition)),
            stmts_view(then_branch@),
            match else_branch {
                Some(b) => Some(stmts_view(b@)),
                None => None,
            },
        ),
        Stmt::While { condition, body } => SStmt::While(Box::new(expr_view(condition)), stmts_view(body@)),
        Stmt::For { init, condition, update, body } => SStmt::For(
            Box::new(stmt_view(*init)),
            Box::new(expr_view(condition)),
            Box::new(stmt_view(*update)),
            stmts_view(body@),
        ),
        Stmt::Break => SStmt::Break,
        Stmt::Continue => SStmt::Continue,
        Stmt::Function { name, params, body } => SStmt::Function(name@, names_view(params@), stmts_view(body@)),
        Stmt::Return { value } => SStmt::Return(Box::new(expr_view(value))),
        Stmt::Expression { expression } => SStmt::Expression(Box::new(expr_view(expression))),
    }
}

/// The models of a list of statements.
pub open spec fn stmts_view(s: Seq<Stmt>) -> Seq<SStmt>
    decreases s,
{
    if s.len() == 0 {
        Seq::empty()
    } else {
        seq![stmt_view(s[0])] + stmts_view(s.drop_first())
    }
}

/// The texts of a list of names.
pub open spec fn names_view(s: Seq<String>) -> Seq<Seq<char>> {
    Seq::new(s.len(), |i: int| s[i]@)
}

impl View for Expr {
    type V = SExpr;

    open spec fn view(&self) -> SExpr {
        expr_view(*self)
    }
}

impl View for Stmt {
    type V = SStmt;

    open spec fn view(&self) -> SStmt {
        stmt_view(*self)
    }
}

impl View for Program {
    type V = Seq<SStmt>;

    open spec fn view(&self) -> Seq<SStmt> {
        stmts_view(self.statements@)
    }
}

/// Appending one element to a list extends its model by that element's model.
pub proof fn lemma_exprs_view_push(s: Seq<Expr>, e: Expr)
    ensures
        exprs_view(s.push(e)) == exprs_view(s).push(expr_view(e)),
    decreases s.len(),
{
    if s.len() == 0 {
        assert(s.push(e).drop_first() =~= s);
        assert(exprs_view(s) =~= Seq::<SExpr>::empty());
        assert(exprs_view(s.push(e).drop_first()) =~= Seq::<SExpr>::empty());
        assert(exprs_view(s.push(e)) =~= seq![expr_view(e)]);
    } else {
        assert(s.push(e).drop_first() =~= s.drop_first().push(e));
        lemma_exprs_view_push(s.drop_first(), e);
        assert(exprs_view(s.push(e)) =~= exprs_view(s).push(expr_view(e)));
    }
}

/// Appending one statement to a list extends its model by that statement's model.
pub proof fn lemma_stmts_view_push(s: Seq<Stmt>, st: Stmt)
    ensures
        stmts_view(s.push(st)) == stmts_view(s).push(stmt_view(st)),
    decreases s.len(),
{
    if s.len() == 0 {
        assert(s.push(st).drop_first() =~= s);
        assert(stmts_view(s) =~= Seq::<SStmt>::empty());
        assert(stmts_view(s.push(st).drop_first()) =~= Seq::<SStmt>::empty());
        assert(stmts_view(s.push(st)) =~= seq![stmt_view(st)]);
    } else {
        assert(s.push(st).drop_first() =~= s.drop_first().push(st));
        lemma_stmts_view_push(s.drop_first(), st);
        assert(stmts_view(s.push(st)) =~= stmts_view(s).push(stmt_view(st)));
    }
}

/// The model of a list has one entry per element, each the model of that element.
pub proof fn lemma_exprs_view_index(s: Seq<Expr>)
    ensures
        exprs_view(s).len() == s.len(),
        forall|i: int| 0 <= i < s.len() ==> #[trigger] exprs_view(s)[i] == expr_view(s[i]),
    decreases s.len(),
{
    if s.len() > 0 {
        lemma_exprs_view_index(s.drop_first());
    }
}

/// The model of a list has one entry per statement, each the model of that statement.
pub proof fn lemma_stmts_view_index(s: Seq<Stmt>)
    ensures
        stmts_view(s).len() == s.len(),
        forall|i: int| 0 <= i < s.len() ==> #[trigger] stmts_view(s)[i] == stmt_view(s[i]),
    decreases s.len(),
{
    if s.len() > 0 {
        lemma_stmts_view_index(s.drop_first());
    }
}


/// A copy of an expression.
pub fn clone_expr(e: &Expr) -> (r: Expr)
    ensures
        r@ == e@,
    decreases e,
{
    match e {
        Expr::Identifier(s) => Expr::Identifier(s.clone()),
        Expr::Number(s) => Expr::Number(s.clone()),
        Expr::String(s) => Expr::String(s.clone()),
        Expr::Boolean(b) => Expr::Boolean(*b),
        Expr::Null => Expr::Null,
        Expr::Unary { operator, right } => Expr::Unary {
            operator: operator.clone(),
            right: Box::new(clone_expr(right)),
        },
        Expr::Binary { left, operator, right } => Expr::Binary {
            left: Box::new(clone_expr(left)),
            operator: operator.clone(),
            right: Box::new(clone_expr(right)),
        },
        Expr::Call { callee, arguments } => Expr::Call {
            callee: Box::new(clone_expr(callee)),
            arguments: clone_exprs(arguments),
        },
        Expr::Array { elements } => Expr::Array { elements: clone_exprs(elements) },
        Expr::Index { object, index } => Expr::Index {
            object: Box::new(clone_expr(object)),
            index: Box::new(clone_expr(index)),
        },
    }
}

/// A copy of a list of expressions.
pub fn clone_exprs(v: &Vec<Expr>) -> (r: Vec<Expr>)
    ensures
        exprs_view(r@) == exprs_view(v@),
    decreases v,
{
    let mut r: Vec<Expr> = Vec::new();
    let mut i: usize = 0;
    while i < v.len()
        invariant
            i <= v@.len(),
            exprs_view(r@) == exprs_view(v@.subrange(0, i as int)),
        decreases v@.len() - i,
    {
        assert(decreases_to!(v => v@[i as int]));
        let c = clone_expr(&v[i]);
        proof {
            lemma_exprs_view_push(r@, c);
            lemma_exprs_view_push(v@.subrange(0, i as int), v@[i as int]);
            assert(v@.subrange(0, i as int).push(v@[i as int]) =~= v@.subrange(0, i + 1));
        }
        r.push(c);
        i = i + 1;
    }
    assert(v@.subrange(0, v@.len() as int) =~= v@);
    r
}

/// A copy of a statement.
pub fn clone_stmt(st: &Stmt) -> (r: Stmt)
    ensures
        r@ == st@,
    decreases st,
{
    match st {
        Stmt::Let { name, value } => Stmt::Let { name: name.clone(), value: clone_expr(value) },
        Stmt::Assign { name, value } => Stmt::Assign { name: name.clone(), value: clone_expr(value) },
        Stmt::Print { value } => Stmt::Print { value: clone_expr(value) },
        Stmt::If { condition, then_branch, else_branch } => Stmt::If {
            condition: clone_expr(condition),
            then_branch: clone_stmts(then_branch),
            else_branch: match else_branch {
                Some(b) => Some(clone_stmts(b)),
                None => None,
            },
        },
        Stmt::While { condition, body } => Stmt::While { condition: clone_expr(condition), body: clone_stmts(body) },
        Stmt::For { init, condition, update, body } => Stmt::For {
            init: Box::new(clone_stmt(init)),
            condition: clone_expr(condition),
            update: Box::new(clone_stmt(update)),
            body: clone_stmts(body),
        },
        Stmt::Break => Stmt::Break,
        Stmt::Continue => Stmt::Continue,
        Stmt::Function { name, params, body } => Stmt::Function {
            name: name.clone(),
            params: clone_names(params),
            body: clone_stmts(body),
        },
        Stmt::Return { value } => Stmt::Return { value: clone_expr(value) },
        Stmt::Expression { expression } => Stmt::Expression { expression: clone_expr(expression) },
    }
}

/// A copy of a list of statements.
pub fn clone_stmts(v: &Vec<Stmt>) -> (r: Vec<Stmt>)
    ensures
        stmts_view(r@) == stmts_view(v@),
    decreases v,
{
    let mut r: Vec<Stmt> = Vec::new();
    let mut i: usize = 0;
    while i < v.len()
        invariant
            i <= v@.len(),
            stmts_view(r@) == stmts_view(v@.subrange(0, i as int)),
        decreases v@.len() - i,
    {
        assert(decreases_to!(v => v@[i as int]));
        let c = clone_stmt(&v[i]);
        proof {
            lemma_stmts_view_push(r@, c);
            lemma_stmts_view_push(v@.subrange(0, i as int), v@[i as int]);
            assert(v@.subrange(0, i as int).push(v@[i as int]) =~= v@.subrange(0, i + 1));
        }
        r.push(c);
        i = i + 1;
    }
    assert(v@.subrange(0, v@.len() as int) =~= v@);
    r
}

/// A copy of a list of names.
pub fn clone_names(v: &Vec<String>) -> (r: Vec<String>)
    ensures
        names_view(r@) == names_view(v@),
{
    let mut r: Vec<String> = Vec::new();
    let mut i: usize = 0;
    while i < v.len()
        invariant
            i <= v@.len(),
            r@.len() == i,
            forall|j: int| 0 <= j < i ==> #[trigger] r@[j]@ == v@[j]@,
        decreases v@.len() - i,
    {
        r.push(v[i].clone());
        i = i + 1;
    }
    assert(names_view(r@) =~= names_view(v@));
    r
}

} // verus!
