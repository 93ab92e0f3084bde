use vstd::prelude::*;
use crate::compiler::lexer::{SpecToken, Token};

pub mod operator;
pub mod types;

pub use operator::{BinaryOperator, UnaryOperator};
pub use types::Type;

verus! {

/// An expression of the language.
#[derive(Debug, PartialEq)]
pub enum Expr {
    Literal(String),
    Variable(Token),
    IndexAssign { callee: Box<Expr>, index: Box<Expr>, value: Box<Expr> },
    Assign { name: Token, value: Box<Expr> },
    Unary { operator: Token, right: Box<Expr> },
    Binary { left: Box<Expr>, operator: Token, right: Box<Expr> },
    Grouping(Box<Expr>),
    Call { callee: Box<Expr>, paren: Token, arguments: Vec<Expr> },
    Array { bracket: Token, elements: Vec<Expr> },
    Index { callee: Box<Expr>, bracket: Token, index: Box<Expr> },
}

/// A statement of the language.
#[derive(Debug, PartialEq)]
pub enum Stmt {
    Expression(Expr),
    Block(Vec<Stmt>),
    If { condition: Expr, then_branch: Box<Stmt>, else_branch: Option<Box<Stmt>> },
    While { condition: Expr, body: Box<Stmt> },
    Var { name: Token, initializer: Option<Expr> },
    Print(Expr),
    Function { name: Token, params: Vec<Token>, body: Vec<Stmt> },
    Return { keyword: Token, value: Option<Expr> },
}

/// The mathematical value of an expression.
pub enum SExpr {
    Literal(Seq<char>),
    Variable(SpecToken),
    IndexAssign { callee: Box<SExpr>, index: Box<SExpr>, value: Box<SExpr> },
    Assign { name: SpecToken, value: Box<SExpr> },
    Unary { operator: SpecToken, right: Box<SExpr> },
    Binary { left: Box<SExpr>, operator: SpecToken, right: Box<SExpr> },
    Grouping(Box<SExpr>),
    Call { callee: Box<SExpr>, paren: SpecToken, arguments: Seq<SExpr> },
    Array { bracket: SpecToken, elements: Seq<SExpr> },
    Index { callee: Box<SExpr>, bracket: SpecToken, index: Box<SExpr> },
}

/// The mathematical value of a statement.
pub enum SStmt {
    Expression(SExpr),
    Block(Seq<SStmt>),
    If { condition: SExpr, then_branch: Box<SStmt>, else_branch: Option<Box<SStmt>> },
    While { condition: SExpr, body: Box<SStmt> },
    Var { name: SpecToken, initializer: Option<SExpr> },
    Print(SExpr),
    Function { name: SpecToken, params: Seq<SpecToken>, body: Seq<SStmt> },
    Return { keyword: SpecToken, value: Option<SExpr> },
}

/// The value of an expression.
pub open spec fn expr_view(e: Expr) -> SExpr
    decreases e,
{
    match e {
        Expr::Literal(s) => SExpr::Literal(s@),
        Expr::Variable(t) => SExpr::Variable(t@),
        Expr::IndexAssign { callee, index, value } => SExpr::IndexAssign {
            callee: Box::new(expr_view(*callee)),
            index: Box::new(expr_view(*index)),
            value: Box::new(expr_view(*value)),
        },
        Expr::Assign { name, value } => SExpr::Assign { name: name@, value: Box::new(expr_view(*value)) },
        Expr::Unary { operator, right } => SExpr::Unary {
            operator: operator@,
            right: Box::new(expr_view(*right)),
        },
        Expr::Binary { left, operator, right } => SExpr::Binary {
            left: Box::new(expr_view(*left)),
            operator: operator@,
            right: Box::new(expr_view(*right)),
        },
        Expr::Grouping(inner) => SExpr::Grouping(Box::new(expr_view(*inner))),
        Expr::Call { callee, paren, arguments } => SExpr::Call {
            callee: Box::new(expr_view(*callee)),
            paren: paren@,
            arguments: exprs_view(arguments@),
        },
        Expr::Array { bracket, elements } => SExpr::Array {
            bracket: bracket@,
            elements: exprs_view(elements@),
        },
        Expr::Index { callee, bracket, index } => SExpr::Index {
            callee: Box::new(expr_view(*callee)),
            bracket: bracket@,
            index: Box::new(expr_view(*index)),
        },
    }
}

/// The values of a sequence of expressions.
pub open spec fn exprs_view(es: Seq<Expr>) -> Seq<SExpr>
    decreases es,
{
    if es.len() == 0 {
        Seq::empty()
    } else {
        exprs_view(es.drop_last()).push(expr_view(es.last()))
    }
}


/// The value of a statement.
pub open spec fn stmt_view(s: Stmt) -> SStmt
    decreases s,
{
    match s {
        Stmt::Expression(e) => SStmt::Expression(expr_view(e)),
        Stmt::Block(stmts) => SStmt::Block(stmts_view(stmts@)),
        Stmt::If { condition, then_branch, else_branch } => SStmt::If {
            condition: expr_view(condition),
            then_branch: Box::new(stmt_view(*then_branch)),
            else_branch: match else_branch {
                Some(b) => Some(Box::new(stmt_view(*b))),
                None => None,
            },
        },
        Stmt::While { condition, body } => SStmt::While {
            condition: expr_view(condition),
            body: Box::new(stmt_view(*body)),
        },
        Stmt::Var { name, initializer } => SStmt::Var {
            name: name@,
            initializer: match initializer {
                Some(e) => Some(expr_view(e)),
                None => None,
            },
        },
        Stmt::Print(e) => SStmt::Print(expr_view(e)),
        Stmt::Function { name, params, body } => SStmt::Function {
            name: name@,
            params: crate::compiler::lexer::tokens_view(params@),
            body: stmts_view(body@),
        },
        Stmt::Return { keyword, value } => SStmt::Return {
            keyword: keyword@,
            value: match value {
                Some(e) => Some(expr_view(e)),
                None => None,
            },
        },
    }
}

/// The values of a sequence of statements.
pub open spec fn stmts_view(ss: Seq<Stmt>) -> Seq<SStmt>
    decreases ss,
{
    if ss.len() == 0 {
        Seq::empty()
    } else {
        stmts_view(ss.drop_last()).push(stmt_view(ss.last()))
    }
}

/// The value of a sequence grows by the value of what is pushed.
pub proof fn lemma_exprs_view_push(es: Seq<Expr>, e: Expr)
    ensures
        exprs_view(es.push(e)) == exprs_view(es).push(expr_view(e)),
{
    assert(es.push(e).drop_last() =~= es);
}

/// The value of a sequence of expressions is as long as the sequence.
pub proof fn lemma_exprs_view_len(es: Seq<Expr>)
    ensures
        exprs_view(es).len() == es.len(),
    decreases es.len(),
{
    if es.len() > 0 {
        lemma_exprs_view_len(es.drop_last());
    }
}

/// The value of a sequence grows by the value of what is pushed.
pub proof fn lemma_stmts_view_push(ss: Seq<Stmt>, s: Stmt)
    ensures
        stmts_view(ss.push(s)) == stmts_view(ss).push(stmt_view(s)),
{
    assert(ss.push(s).drop_last() =~= ss);
}

impl Clone for Expr {
    fn clone(&self) -> (r: Self)
        ensures
            expr_view(r) == expr_view(*self),
        decreases self,
    {
        match self {
            Expr::Literal(s) => Expr::Literal(s.clone()),
            Expr::Variable(t) => Expr::Variable(t.clone()),
            Expr::IndexAssign { callee, index, value } => Expr::IndexAssign {
                callee: Box::new((**callee).clone()),
                index: Box::new((**index).clone()),
                value: Box::new((**value).clone()),
            },
            Expr::Assign { name, value } => Expr::Assign {
                name: name.clone(),
                value: Box::new((**value).clone()),
            },
            Expr::Unary { operator, right } => Expr::Unary {
                operator: operator.clone(),
                right: Box::new((**right).clone()),
            },
            Expr::Binary { left, operator, right } => Expr::Binary {
                left: Box::new((**left).clone()),
                operator: operator.clone(),
                right: Box::new((**right).clone()),
            },
            Expr::Grouping(inner) => Expr::Grouping(Box::new((**inner).clone())),
            Expr::Call { callee, paren, arguments } => Expr::Call {
                callee: Box::new((**callee).clone()),
                paren: paren.clone(),
                arguments: clone_exprs(arguments),
            },
            Expr::Array { bracket, elements } => Expr::Array {
                bracket: bracket.clone(),
                elements: clone_exprs(elements),
            },
            Expr::Index { callee, bracket, index } => Expr::Index {
                callee: Box::new((**callee).clone()),
                bracket: bracket.clone(),
                index: Box::new((**index).clone()),
            },
        }
    }
}

fn clone_exprs(v: &Vec<Expr>) -> (r: Vec<Expr>)
    ensures
        exprs_view(r@) == exprs_view(v@),
    decreases v,
{
    let mut r: Vec<Expr> = Vec::new();
    let mut i: usize = 0;
    assert(r@ =~= Seq::<Expr>::empty());
    assert(v@.subrange(0, 0) =~= Seq::<Expr>::empty());
    while i < v.len()
        invariant
            i <= v@.len(),
            exprs_view(r@) == exprs_view(v@.subrange(0, i as int)),
        decreases v@.len() - i,
    {
        assert(decreases_to!(v => v@[i as int]));
        let c = v[i].clone();
        let ghost old_r = r@;
        r.push(c);
        assert(r@.drop_last() =~= old_r);
        assert(v@.subrange(0, i + 1).drop_last() =~= v@.subrange(0, i as int));
        i = i + 1;
    }
    assert(v@.subrange(0, v@.len() as int) =~= v@);
    r
}

impl Clone for Stmt {
    fn clone(&self) -> (r: Self)
        ensures
            stmt_view(r) == stmt_view(*self),
        decreases self,
    {
        match self {
            Stmt::Expression(e) => Stmt::Expression(e.clone()),
            Stmt::Block(stmts) => Stmt::Block(clone_stmts(stmts)),
            Stmt::If { condition, then_branch, else_branch } => Stmt::If {
                condition: condition.clone(),
                then_branch: Box::new((**then_branch).clone()),
                else_branch: match else_branch {
                    Some(b) => Some(Box::new((**b).clone())),
                    None => None,
                },
            },
            Stmt::While { condition, body } => Stmt::While {
                condition: condition.clone(),
                body: Box::new((**body).clone()),
            },
            Stmt::Var { name, initializer } => Stmt::Var {
                name: name.clone(),
                initializer: match initializer {
                    Some(e) => Some(e.clone()),
                    None => None,
                },
            },
            Stmt::Print(e) => Stmt::Print(e.clone()),
            Stmt::Function { name, params, body } => Stmt::Function {
                name: name.clone(),
                params: clone_tokens(params),
                body: clone_stmts(body),
            },
            Stmt::Return { keyword, value } => Stmt::Return {
                keyword: keyword.clone(),
                value: match value {
                    Some(e) => Some(e.clone()),
                    None => None,
                },
            },
        }
    }
}

fn clone_stmts(v: &Vec<Stmt>) -> (r: Vec<Stmt>)
    ensures
        stmts_view(r@) == stmts_view(v@),
    decreases v,
{
    let mut r: Vec<Stmt> = Vec::new();
    let mut i: usize = 0;
    assert(r@ =~= Seq::<Stmt>::empty());
    assert(v@.subrange(0, 0) =~= Seq::<Stmt>::empty());
    while i < v.len()
        invariant
            i <= v@.len(),
            stmts_view(r@) == stmts_view(v@.subrange(0, i as int)),
        decreases v@.len() - i,
    {
        assert(decreases_to!(v => v@[i as int]));
        let c = v[i].clone();
        let ghost old_r = r@;
        r.push(c);
        assert(r@.drop_last() =~= old_r);
        assert(v@.subrange(0, i + 1).drop_last() =~= v@.subrange(0, i as int));
        i = i + 1;
    }
    assert(v@.subrange(0, v@.len() as int) =~= v@);
    r
}

fn clone_tokens(v: &Vec<Token>) -> (r: Vec<Token>)
    ensures
        r@ == v@,
{
    let mut r: Vec<Token> = Vec::new();
    let mut i: usize = 0;
    while i < v.len()
        invariant
            i <= v@.len(),
            r@ == v@.subrange(0, i as int),
        decreases v@.len() - i,
    {
        r.push(v[i].clone());
        assert(r@ =~= v@.subrange(0, i + 1));
        i = i + 1;
    }
    assert(r@ =~= v@);
    r
}

} // verus!
