//! Statements of the abstract syntax tree.

use vstd::prelude::*;
use crate::expr::{copy_expr, same_expr, Expr, ExprView};

verus! {

/// A statement, with the source line it was read on.
#[derive(Debug, PartialEq)]
pub struct Stmt {
    pub line: usize,
    pub stmt_type: StmtType,
}

/// The forms of statements.
#[derive(Debug, PartialEq)]
pub enum StmtType {
    Block { body: Vec<Stmt> },
    Break,
    Expression { expression: Expr },
    Function { name: String, parameters: Vec<String>, body: Box<Stmt> },
    If { condition: Expr, then_body: Box<Stmt>, else_body: Option<Box<Stmt>> },
    Print { expression: Expr },
    Return { expression: Expr },
    VarDecl { name: String, value: Expr },
    While { condition: Expr, body: Box<Stmt> },
}

/// What a `Stmt` is, as a mathematical value.
pub ghost struct StmtView {
    pub line: usize,
    pub stmt_type: StmtTypeView,
}

/// What a `StmtType` is, as a mathematical value.
pub ghost enum StmtTypeView {
    Block { body: Seq<StmtView> },
    Break,
    Expression { expression: ExprView },
    Function { name: Seq<char>, parameters: Seq<Seq<char>>, body: Box<StmtView> },
    If { condition: ExprView, then_body: Box<StmtView>, else_body: Option<Box<StmtView>> },
    Print { expression: ExprView },
    Return { expression: ExprView },
    VarDecl { name: Seq<char>, value: ExprView },
    While { condition: ExprView, body: Box<StmtView> },
}

/// The views of a list of names.
pub open spec fn names_view(s: Seq<String>) -> Seq<Seq<char>> {
    Seq::new(s.len(), |i: int| s[i]@)
}

/// What a statement is, as a mathematical value.
pub open spec fn stmt_view(s: Stmt) -> StmtView
    decreases s,
{
    StmtView {
        line: s.line,
        stmt_type: match s.stmt_type {
            StmtType::Block { body } => StmtTypeView::Block { body: stmts_view(body@) },
            StmtType::Break => StmtTypeView::Break,
            StmtType::Expression { expression } => StmtTypeView::Expression { expression: expression@ },
            StmtType::Function { name, parameters, body } => StmtTypeView::Function {
                name: name@,
                parameters: names_view(parameters@),
                body: Box::new(stmt_view(*body)),
            },
            StmtType::If { condition, then_body, else_body } => StmtTypeView::If {
                condition: condition@,
                then_body: Box::new(stmt_view(*then_body)),
                else_body: match else_body {
                    Some(e) => Some(Box::new(stmt_view(*e))),
                    None => None,
                },
            },
            StmtType::Print { expression } => StmtTypeView::Print { expression: expression@ },
            StmtType::Return { expression } => StmtTypeView::Return { expression: expression@ },
            StmtType::VarDecl { name, value } => StmtTypeView::VarDecl { name: name@, value: value@ },
            StmtType::While { condition, body } => StmtTypeView::While {
                condition: condition@,
                body: Box::new(stmt_view(*body)),
            },
        },
    }
}

/// The views of a list of statements.
pub open spec fn stmts_view(s: Seq<Stmt>) -> Seq<StmtView>
    decreases s,
{
    Seq::new(s.len(), |i: int| if 0 <= i < s.len() { stmt_view(s[i]) } else { arbitrary() })
}

impl View for Stmt {
    type V = StmtView;

    open spec fn view(&self) -> StmtView {
        stmt_view(*self)
    }
}

/// A copy of a list of names.
pub fn copy_names(v: &Vec<String>) -> (r: Vec<String>)
    ensures
        names_view(r@) == names_view(v@),
{
    let mut out: Vec<String> = Vec::new();
    let mut i: usize = 0;
    while i < v.len()
        invariant
            i <= v.len(),
            out@.len() == i,
            forall|j: int| 0 <= j < i ==> out@[j]@ == v@[j]@,
        decreases v.len() - i,
    {
        out.push(v[i].clone());
        i += 1;
    }
    assert(names_view(out@) =~= names_view(v@));
    out
}

/// Whether two lists of names are the same.
pub fn same_names(x: &Vec<String>, y: &Vec<String>) -> (r: bool)
    ensures
        r == (names_view(x@) == names_view(y@)),
{
    if x.len() != y.len() {
        assert(names_view(x@).len() != names_view(y@).len());
        return false;
    }
    let mut i: usize = 0;
    while i < x.len()
        invariant
            i <= x.len(),
            x.len() == y.len(),
            forall|j: int| 0 <= j < i ==> x@[j]@ == y@[j]@,
        decreases x.len() - i,
    {
        if x[i] != y[i] {
            assert(names_view(x@)[i as int] != names_view(y@)[i as int]);
            return false;
        }
        i += 1;
    }
    assert(names_view(x@) =~= names_view(y@));
    true
}

/// A deep copy of a statement.
pub fn copy_stmt(s: &Stmt) -> (r: Stmt)
    ensures
        r@ == s@,
    decreases *s,
{
    let stmt_type = match &s.stmt_type {
        StmtType::Block { body } => StmtType::Block { body: copy_stmts(body) },
        StmtType::Break => StmtType::Break,
        StmtType::Expression { expression } => StmtType::Expression { expression: copy_expr(expression) },
        StmtType::Function { name, parameters, body } => StmtType::Function {
            name: name.clone(),
            parameters: copy_names(parameters),
            body: Box::new(copy_stmt(body)),
        },
        StmtType::If { condition, then_body, else_body } => StmtType::If {
            condition: copy_expr(condition),
            then_body: Box::new(copy_stmt(then_body)),
            else_body: match else_body {
                Some(e) => Some(Box::new(copy_stmt(e))),
                None => None,
            },
        },
        StmtType::Print { expression } => StmtType::Print { expression: copy_expr(expression) },
        StmtType::Return { expression } => StmtType::Return { expression: copy_expr(expression) },
        StmtType::VarDecl { name, value } => StmtType::VarDecl { name: name.clone(), value: copy_expr(value) },
        StmtType::While { condition, body } => StmtType::While {
            condition: copy_expr(condition),
            body: Box::new(copy_stmt(body)),
        },
    };
    Stmt { line: s.line, stmt_type }
}

/// A deep copy of a list of statements.
pub fn copy_stmts(v: &Vec<Stmt>) -> (r: Vec<Stmt>)
    ensures
        stmts_view(r@) == stmts_view(v@),
    decreases *v,
{
    let mut out: Vec<Stmt> = Vec::new();
    let mut i: usize = 0;
    while i < v.len()
        invariant
            i <= v.len(),
            out@.len() == i,
            forall|j: int| 0 <= j < i ==> out@[j]@ == v@[j]@,
        decreases v.len() - i,
    {
        out.push(copy_stmt(&v[i]));
        i += 1;
    }
    assert(stmts_view(out@) =~= stmts_view(v@));
    out
}

/// Whether two statements are the same tree.
pub fn same_stmt(a: &Stmt, b: &Stmt) -> (r: bool)
    ensures
        r == (a@ == b@),
    decreases *a,
{
    if a.line != b.line {
        return false;
    }
    match &a.stmt_type {
        StmtType::Block { body: x } => match &b.stmt_type {
            StmtType::Block { body: y } => same_stmts(x, y),
            _ => false,
        },
        StmtType::Break => match &b.stmt_type {
            StmtType::Break => true,
            _ => false,
        },
        StmtType::Expression { expression: e1 } => match &b.stmt_type {
            StmtType::Expression { expression: e2 } => same_expr(e1, e2),
            _ => false,
        },
        StmtType::Function { name: n1, parameters: ps1, body: b1 } => match &b.stmt_type {
            StmtType::Function { name: n2, parameters: ps2, body: b2 } => *n1 == *n2 && same_names(ps1, ps2)
                && same_stmt(b1, b2),
            _ => false,
        },
        StmtType::If { condition: c1, then_body: t1, else_body: e1 } => match &b.stmt_type {
            StmtType::If { condition: c2, then_body: t2, else_body: e2 } => {
                let rest = match e1 {
                    Some(x) => match e2 {
                        Some(y) => same_stmt(x, y),
                        None => false,
                    },
                    None => match e2 {
                        Some(_) => false,
                        None => true,
                    },
                };
                same_expr(c1, c2) && same_stmt(t1, t2) && rest
            },
            _ => false,
        },
        StmtType::Print { expression: e1 } => match &b.stmt_type {
            StmtType::Print { expression: e2 } => same_expr(e1, e2),
            _ => false,
        },
        StmtType::Return { expression: e1 } => match &b.stmt_type {
            StmtType::Return { expression: e2 } => same_expr(e1, e2),
            _ => false,
        },
        StmtType::VarDecl { name: n1, value: v1 } => match &b.stmt_type {
            StmtType::VarDecl { name: n2, value: v2 } => *n1 == *n2 && same_expr(v1, v2),
            _ => false,
        },
        StmtType::While { condition: c1, body: b1 } => match &b.stmt_type {
            StmtType::While { condition: c2, body: b2 } => same_expr(c1, c2) && same_stmt(b1, b2),
            _ => false,
        },
    }
}

/// Whether two lists of statements are the same, tree by tree.
pub fn same_stmts(x: &Vec<Stmt>, y: &Vec<Stmt>) -> (r: bool)
    ensures
        r == (stmts_view(x@) == stmts_view(y@)),
    decreases *x,
{
    if x.len() != y.len() {
        assert(stmts_view(x@).len() != stmts_view(y@).len());
        return false;
    }
    let mut i: usize = 0;
    while i < x.len()
        invariant
            i <= x.len(),
            x.len() == y.len(),
            forall|j: int| 0 <= j < i ==> x@[j]@ == y@[j]@,
        decreases x.len() - i,
    {
        if !same_stmt(&x[i], &y[i]) {
            assert(stmts_view(x@)[i as int] != stmts_view(y@)[i as int]);
            return false;
        }
        i += 1;
    }
    assert(stmts_view(x@) =~= stmts_view(y@));
    true
}

impl Clone for Stmt {
    fn clone(&self) -> (r: Stmt)
        ensures
            r@ == self@,
    {
        copy_stmt(self)
    }
}

} // verus!
