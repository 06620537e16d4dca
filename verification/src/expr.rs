use crate::object::{Object, ObjectView};
use crate::token::{Token, TokenView};
use vstd::prelude::*;

verus! {

/// An expression.
///
/// A variable reference, an assignment and `this` each carry the number of
/// their site, by which the resolver's findings are kept.
#[derive(Debug)]
#[allow(inconsistent_fields)]
pub enum Expr {
    Assign { name: Token, value: Box<Expr>, site: usize },
    Binary { left: Box<Expr>, operator: Token, right: Box<Expr> },
    Call { callee: Box<Expr>, paren: Token, arguments: Vec<Expr> },
    Get { object: Box<Expr>, name: Token },
    Logical { left: Box<Expr>, operator: Token, right: Box<Expr> },
    SetProperty { object: Box<Expr>, name: Token, value: Box<Expr> },
    This { keyword: Token, site: usize },
    Unary { operator: Token, right: Box<Expr> },
    Grouping { expression: Box<Expr> },
    Literal { value: Option<Object> },
    Variable { name: Token, site: usize },
}

/// The mathematical model of an [`Expr`].
#[allow(inconsistent_fields)]
pub enum ExprView {
    Assign { name: TokenView, value: Box<ExprView>, site: usize },
    Binary { left: Box<ExprView>, operator: TokenView, right: Box<ExprView> },
    Call { callee: Box<ExprView>, paren: TokenView, arguments: Seq<ExprView> },
    Get { object: Box<ExprView>, name: TokenView },
    Logical { left: Box<ExprView>, operator: TokenView, right: Box<ExprView> },
    SetProperty { object: Box<ExprView>, name: TokenView, value: Box<ExprView> },
    This { keyword: TokenView, site: usize },
    Unary { operator: TokenView, right: Box<ExprView> },
    Grouping { expression: Box<ExprView> },
    Literal { value: Option<ObjectView> },
    Variable { name: TokenView, site: usize },
}

/// The models of a sequence of expressions.
pub open spec fn exprs_view(exprs: Seq<Expr>) -> Seq<ExprView>
    decreases exprs,
{
    Seq::new(
        exprs.len(),
        |i: int|
            if 0 <= i < exprs.len() {
                exprs[i].model()
            } else {
                arbitrary()
            },
    )
}

impl Expr {
    /// The model of the expression.
    pub open spec fn model(&self) -> ExprView
        decreases self,
    {
        match self {
            Expr::Assign { name, value, site } => ExprView::Assign {
                name: name@,
                value: Box::new(value.model()),
                site: *site,
            },
            Expr::Binary { left, operator, right } => ExprView::Binary {
                left: Box::new(left.model()),
                operator: operator@,
                right: Box::new(right.model()),
            },
            Expr::Call { callee, paren, arguments } => ExprView::Call {
                callee: Box::new(callee.model()),
                paren: paren@,
                arguments: exprs_view(arguments@),
            },
            Expr::Get { object, name } => ExprView::Get {
                object: Box::new(object.model()),
                name: name@,
            },
            Expr::Logical { left, operator, right } => ExprView::Logical {
                left: Box::new(left.model()),
                operator: operator@,
                right: Box::new(right.model()),
            },
            Expr::SetProperty { object, name, value } => ExprView::SetProperty {
                object: Box::new(object.model()),
                name: name@,
                value: Box::new(value.model()),
            },
            Expr::This { keyword, site } => ExprView::This { keyword: keyword@, site: *site },
            Expr::Unary { operator, right } => ExprView::Unary {
                operator: operator@,
                right: Box::new(right.model()),
            },
            Expr::Grouping { expression } => ExprView::Grouping {
                expression: Box::new(expression.model()),
            },
            Expr::Literal { value } => ExprView::Literal {
                value: match value {
                    Some(v) => Some(v@),
                    None => None,
                },
            },
            Expr::Variable { name, site } => ExprView::Variable { name: name@, site: *site },
        }
    }
}

impl View for Expr {
    type V = ExprView;

    open spec fn view(&self) -> ExprView {
        self.model()
    }
}

/// The models of expressions with one more are the models with one more.
pub proof fn lemma_exprs_view_push(exprs: Seq<Expr>, expr: Expr)
    ensures
        exprs_view(exprs.push(expr)) == exprs_view(exprs).push(expr@),
{
    assert(exprs_view(exprs.push(expr)) =~= exprs_view(exprs).push(expr@));
}

} // verus!
