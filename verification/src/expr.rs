//! Expressions of the abstract syntax tree.

use vstd::prelude::*;
use crate::hash_table::KeyValue;
use crate::token::{Literal, LiteralView, Token, TokenView};

verus! {

/// An expression, with the source line it was read on.
#[derive(Debug, PartialEq)]
pub struct Expr {
    pub line: usize,
    pub expr_type: ExprType,
}

/// The forms of expressions.
#[derive(Debug, PartialEq)]
pub enum ExprType {
    Array { elements: Vec<Expr> },
    Assignment { target: Box<Expr>, value: Box<Expr> },
    Binary { left: Box<Expr>, operator: Token, right: Box<Expr> },
    Call { callee: Box<Expr>, arguments: Vec<Expr> },
    Dictionary { elements: Vec<KeyValue<Expr>> },
    Element { array: Box<Expr>, index: Box<Expr> },
    Grouping { expression: Box<Expr> },
    Literal { value: Literal },
    Unary { operator: Token, right: Box<Expr> },
    Variable { name: String },
}

/// What an `Expr` is, as a mathematical value.
pub ghost struct ExprView {
    pub line: usize,
    pub expr_type: ExprTypeView,
}

/// What an `ExprType` is, as a mathematical value.
pub ghost enum ExprTypeView {
    Array { elements: Seq<ExprView> },
    Assignment { target: Box<ExprView>, value: Box<ExprView> },
    Binary { left: Box<ExprView>, operator: TokenView, right: Box<ExprView> },
    Call { callee: Box<ExprView>, arguments: Seq<ExprView> },
    Dictionary { elements: Seq<(ExprView, ExprView)> },
    Element { array: Box<ExprView>, index: Box<ExprView> },
    Grouping { expression: Box<ExprView> },
    Literal { value: LiteralView },
    Unary { operator: TokenView, right: Box<ExprView> },
    Variable { name: Seq<char> },
}

/// What an expression is, as a mathematical value.
pub open spec fn expr_view(e: Expr) -> ExprView
    decreases e,
{
    ExprView {
        line: e.line,
        expr_type: match e.expr_type {
            ExprType::Array { elements } => ExprTypeView::Array { elements: exprs_view(elements@) },
            ExprType::Assignment { target, value } => ExprTypeView::Assignment {
                target: Box::new(expr_view(*target)),
                value: Box::new(expr_view(*value)),
            },
            ExprType::Binary { left, operator, right } => ExprTypeView::Binary {
                left: Box::new(expr_view(*left)),
                operator: operator@,
                right: Box::new(expr_view(*right)),
            },
            ExprType::Call { callee, arguments } => ExprTypeView::Call {
                callee: Box::new(expr_view(*callee)),
                arguments: exprs_view(arguments@),
            },
            ExprType::Dictionary { elements } => ExprTypeView::Dictionary { elements: pairs_view(elements@) },
            ExprType::Element { array, index } => ExprTypeView::Element {
                array: Box::new(expr_view(*array)),
                index: Box::new(expr_view(*index)),
            },
            ExprType::Grouping { expression } => ExprTypeView::Grouping {
                expression: Box::new(expr_view(*expression)),
            },
            ExprType::Literal { value } => ExprTypeView::Literal { value: value@ },
            ExprType::Unary { operator, right } => ExprTypeView::Unary {
                operator: operator@,
                right: Box::new(expr_view(*right)),
            },
            ExprType::Variable { name } => ExprTypeView::Variable { name: name@ },
        },
    }
}

/// The views of a list of expressions.
pub open spec fn exprs_view(s: Seq<Expr>) -> Seq<ExprView>
    decreases s,
{
    Seq::new(s.len(), |i: int| if 0 <= i < s.len() { expr_view(s[i]) } else { arbitrary() })
}

/// The views of the pairs of a dictionary literal: key and value.
pub open spec fn pairs_view(s: Seq<KeyValue<Expr>>) -> Seq<(ExprView, ExprView)>
    decreases s,
{
    Seq::new(
        s.len(),
        |i: int| if 0 <= i < s.len() { (expr_view(s[i].key), expr_view(s[i].value)) } else { arbitrary() },
    )
}

impl View for Expr {
    type V = ExprView;

    open spec fn view(&self) -> ExprView {
        expr_view(*self)
    }
}

/// A deep copy of an expression.
pub fn copy_expr(e: &Expr) -> (r: Expr)
    ensures
        r@ == e@,
    decreases *e,
{
    let expr_type = match &e.expr_type {
        ExprType::Array { elements } => ExprType::Array { elements: copy_exprs(elements) },
        ExprType::Assignment { target, value } => ExprType::Assignment {
            target: Box::new(copy_expr(target)),
            value: Box::new(copy_expr(value)),
        },
        ExprType::Binary { left, operator, right } => ExprType::Binary {
            left: Box::new(copy_expr(left)),
            operator: operator.clone(),
            right: Box::new(copy_expr(right)),
        },
        ExprType::Call { callee, arguments } => ExprType::Call {
            callee: Box::new(copy_expr(callee)),
            arguments: copy_exprs(arguments),
        },
        ExprType::Dictionary { elements } => ExprType::Dictionary { elements: copy_pairs(elements) },
        ExprType::Element { array, index } => ExprType::Element {
            array: Box::new(copy_expr(array)),
            index: Box::new(copy_expr(index)),
        },
        ExprType::Grouping { expression } => ExprType::Grouping { expression: Box::new(copy_expr(expression)) },
        ExprType::Literal { value } => ExprType::Literal { value: value.clone() },
        ExprType::Unary { operator, right } => ExprType::Unary {
            operator: operator.clone(),
            right: Box::new(copy_expr(right)),
        },
        ExprType::Variable { name } => ExprType::Variable { name: name.clone() },
    };
    Expr { line: e.line, expr_type }
}

/// A deep copy of a list of expressions.
pub fn copy_exprs(v: &Vec<Expr>) -> (r: Vec<Expr>)
    ensures
        exprs_view(r@) == exprs_view(v@),
    decreases *v,
{
    let mut out: Vec<Expr> = Vec::new();
    let mut i: usize = 0;
    while i < v.len()
        invariant
            i <= v.len(),
            out@.len() == i,
            forall|j: int| 0 <= j < i ==> out@[j]@ == v@[j]@,
        decreases v.len() - i,
    {
        out.push(copy_expr(&v[i]));
        i += 1;
    }
    assert(exprs_view(out@) =~= exprs_view(v@));
    out
}

fn copy_pairs(v: &Vec<KeyValue<Expr>>) -> (r: Vec<KeyValue<Expr>>)
    ensures
        pairs_view(r@) == pairs_view(v@),
    decreases *v,
{
    let mut out: Vec<KeyValue<Expr>> = Vec::new();
    let mut i: usize = 0;
    while i < v.len()
        invariant
            i <= v.len(),
            out@.len() == i,
            forall|j: int| 0 <= j < i ==> out@[j].key@ == v@[j].key@ && out@[j].value@ == v@[j].value@,
        decreases v.len() - i,
    {
        let pair = &v[i];
        out.push(KeyValue { key: copy_expr(&pair.key), value: copy_expr(&pair.value) });
        i += 1;
    }
    assert(pairs_view(out@) =~= pairs_view(v@));
    out
}

/// Whether two expressions are the same tree.
pub fn same_expr(a: &Expr, b: &Expr) -> (r: bool)
    ensures
        r == (a@ == b@),
    decreases *a,
{
    if a.line != b.line {
        return false;
    }
    match &a.expr_type {
        ExprType::Array { elements: x } => match &b.expr_type {
            ExprType::Array { elements: y } => same_exprs(x, y),
            _ => false,
        },
        ExprType::Assignment { target: t1, value: v1 } => match &b.expr_type {
            ExprType::Assignment { target: t2, value: v2 } => same_expr(t1, t2) && same_expr(v1, v2),
            _ => false,
        },
        ExprType::Binary { left: l1, operator: o1, right: r1 } => match &b.expr_type {
            ExprType::Binary { left: l2, operator: o2, right: r2 } => same_expr(l1, l2) && o1.same(o2)
                && same_expr(r1, r2),
            _ => false,
        },
        ExprType::Call { callee: c1, arguments: x } => match &b.expr_type {
            ExprType::Call { callee: c2, arguments: y } => same_expr(c1, c2) && same_exprs(x, y),
            _ => false,
        },
        ExprType::Dictionary { elements: x } => match &b.expr_type {
            ExprType::Dictionary { elements: y } => same_pairs(x, y),
            _ => false,
        },
        ExprType::Element { array: a1, index: i1 } => match &b.expr_type {
            ExprType::Element { array: a2, index: i2 } => same_expr(a1, a2) && same_expr(i1, i2),
            _ => false,
        },
        ExprType::Grouping { expression: e1 } => match &b.expr_type {
            ExprType::Grouping { expression: e2 } => same_expr(e1, e2),
            _ => false,
        },
        ExprType::Literal { value: v1 } => match &b.expr_type {
            ExprType::Literal { value: v2 } => v1.same(v2),
            _ => false,
        },
        ExprType::Unary { operator: o1, right: r1 } => match &b.expr_type {
            ExprType::Unary { operator: o2, right: r2 } => o1.same(o2) && same_expr(r1, r2),
            _ => false,
        },
        ExprType::Variable { name: n1 } => match &b.expr_type {
            ExprType::Variable { name: n2 } => *n1 == *n2,
            _ => false,
        },
    }
}

/// Whether two lists of expressions are the same, tree by tree.
pub fn same_exprs(x: &Vec<Expr>, y: &Vec<Expr>) -> (r: bool)
    ensures
        r == (exprs_view(x@) == exprs_view(y@)),
    decreases *x,
{
    if x.len() != y.len() {
        assert(exprs_view(x@).len() != exprs_view(y@).len());
        return false;
    }
    let mut i: usize = 0;
    while i < x.len()
        invariant
            i <= x.len(),
            x.len() == y.len(),
            forall|j: int| 0 <= j < i ==> x@[j]@ == y@[j]@,
        decreases x.len() - i,
    {
        if !same_expr(&x[i], &y[i]) {
            assert(exprs_view(x@)[i as int] != exprs_view(y@)[i as int]);
            return false;
        }
        i += 1;
    }
    assert(exprs_view(x@) =~= exprs_view(y@));
    true
}

fn same_pairs(x: &Vec<KeyValue<Expr>>, y: &Vec<KeyValue<Expr>>) -> (r: bool)
    ensures
        r == (pairs_view(x@) == pairs_view(y@)),
    decreases *x,
{
    if x.len() != y.len() {
        assert(pairs_view(x@).len() != pairs_view(y@).len());
        return false;
    }
    let mut i: usize = 0;
    while i < x.len()
        invariant
            i <= x.len(),
            x.len() == y.len(),
            forall|j: int| 0 <= j < i ==> x@[j].key@ == y@[j].key@ && x@[j].value@ == y@[j].value@,
        decreases x.len() - i,
    {
        if !(same_expr(&x[i].key, &y[i].key) && same_expr(&x[i].value, &y[i].value)) {
            assert(pairs_view(x@)[i as int] != pairs_view(y@)[i as int]);
            return false;
        }
        i += 1;
    }
    assert(pairs_view(x@) =~= pairs_view(y@));
    true
}

impl Clone for Expr {
    fn clone(&self) -> (r: Expr)
        ensures
            r@ == self@,
    {
        copy_expr(self)
    }
}

} // verus!
