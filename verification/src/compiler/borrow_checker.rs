use vstd::prelude::*;
use crate::compiler::ast::{Expr, Stmt};
use crate::compiler::lexer::Token;

verus! {

/// How a variable is borrowed.
#[derive(Debug, Clone, Copy, PartialEq)]
pub enum BorrowKind {
    Shared,
    Mutable,
}

/// A borrow of a variable, and the token where it was taken.
#[derive(Debug)]
pub struct Borrow {
    pub name: String,
    pub kind: BorrowKind,
    pub token: Token,
}

/// What one scope records: the borrows of each variable and the variables
/// moved out of, each name once.
#[derive(Debug)]
pub struct Scope {
    pub borrows: Vec<(String, Vec<Borrow>)>,
    pub moved_variables: Vec<(String, Token)>,
}

impl Scope {
    /// Each variable has at most one entry among the borrows and at most one
    /// among the moves: the two lists stand for maps keyed by name.
    pub open spec fn wf(&self) -> bool {
        &&& forall|i: int, j: int|
            #![trigger self.borrows@[i], self.borrows@[j]]
            0 <= i < j < self.borrows@.len() ==> self.borrows@[i].0@ != self.borrows@[j].0@
        &&& forall|i: int, j: int|
            #![trigger self.moved_variables@[i], self.moved_variables@[j]]
            0 <= i < j < self.moved_variables@.len() ==> self.moved_variables@[i].0@
                != self.moved_variables@[j].0@
    }

    /// A scope that records nothing yet.
    pub fn new() -> (r: Self)
        ensures
            r.wf(),
            r.borrows@.len() == 0,
            r.moved_variables@.len() == 0,
    {
        Scope { borrows: Vec::new(), moved_variables: Vec::new() }
    }
}

/// Walks statements scope by scope; a block opens a scope and closes it.
pub struct BorrowChecker {
    scopes: Vec<Scope>,
}

impl BorrowChecker {
    /// How many scopes are open.
    pub closed spec fn depth(&self) -> nat {
        self.scopes@.len()
    }

    /// The open scopes, outermost first.
    pub closed spec fn open_scopes(&self) -> Seq<Scope> {
        self.scopes@
    }

    /// Every open scope is well formed.
    pub closed spec fn wf(&self) -> bool {
        forall|i: int| 0 <= i < self.scopes@.len() ==> (#[trigger] self.scopes@[i]).wf()
    }

    /// A checker with the outermost scope open.
    pub fn new() -> (r: Self)
        ensures
            r.wf(),
            r.depth() == 1,
    {
        let mut scopes: Vec<Scope> = Vec::new();
        scopes.push(Scope::new());
        BorrowChecker { scopes }
    }

    fn enter_scope(&mut self)
        requires
            old(self).wf(),
        ensures
            final(self).wf(),
            final(self).depth() == old(self).depth() + 1,
            final(self).open_scopes().drop_last() == old(self).open_scopes(),
    {
        self.scopes.push(Scope::new());
    }

    fn exit_scope(&mut self)
        requires
            old(self).wf(),
        ensures
            final(self).wf(),
            final(self).depth() == if old(self).depth() > 0 {
                old(self).depth() - 1
            } else {
                0
            },
            old(self).depth() > 0 ==> final(self).open_scopes() == old(self).open_scopes().drop_last(),
    {
        self.scopes.pop();
    }

    /// Checks a statement and what it holds. Every statement is accepted,
    /// and the scopes open afterwards are those open before.
    pub fn check_stmt(&mut self, stmt: &Stmt) -> (r: Result<(), String>)
        requires
            old(self).wf(),
        ensures
            final(self).wf(),
            r is Ok,
            final(self).depth() == old(self).depth(),
            final(self).open_scopes() == old(self).open_scopes(),
        decreases stmt,
    {
        match stmt {
            Stmt::Block(statements) => {
                let ghost before = self.open_scopes();
                self.enter_scope();
                self.check_block(statements);
                self.exit_scope();
                assert(self.open_scopes() =~= before);
            },
            Stmt::If { condition, then_branch, else_branch } => {
                let _ = self.check_expr(condition);
                let _ = self.check_stmt(then_branch);
                if let Some(else_stmt) = else_branch {
                    let _ = self.check_stmt(else_stmt);
                }
            },
            Stmt::While { condition, body } => {
                let _ = self.check_expr(condition);
                let _ = self.check_stmt(body);
            },
            Stmt::Print(expr) => {
                let _ = self.check_expr(expr);
            },
            Stmt::Return { value, .. } => {
                if let Some(expr) = value {
                    let _ = self.check_expr(expr);
                }
            },
            _ => {},
        }
        Ok(())
    }

    /// Checks the statements of a block, in the scope it opened; the open
    /// scopes are left exactly as they were.
    fn check_block(&mut self, statements: &Vec<Stmt>)
        requires
            old(self).wf(),
        ensures
            final(self).wf(),
            final(self).depth() == old(self).depth(),
            final(self).open_scopes() == old(self).open_scopes(),
        decreases statements,
    {
        let mut i: usize = 0;
        while i < statements.len()
            invariant
                i <= statements@.len(),
                self.depth() == old(self).depth(),
                self.open_scopes() == old(self).open_scopes(),
                self.wf(),
            decreases statements@.len() - i,
        {
            assert(decreases_to!(statements => statements@[i as int]));
            let _ = self.check_stmt(&statements[i]);
            i = i + 1;
        }
    }

    /// Checks an expression: every expression is accepted.
    pub fn check_expr(&mut self, expr: &Expr) -> (r: Result<(), String>)
        requires
            old(self).wf(),
        ensures
            final(self).wf(),
            r is Ok,
            final(self).depth() == old(self).depth(),
            final(self).open_scopes() == old(self).open_scopes(),
    {
        Ok(())
    }
}

} // verus!
