use crate::expr::{Expr, ExprView};
use crate::token::{tokens_view, Token, TokenView};
use std::rc::Rc;
use vstd::prelude::*;

verus! {

/// A statement.
///
/// The parameters and the body of a function are shared with the function
/// values that are made of the declaration.
#[derive(Debug)]
#[allow(inconsistent_fields)]
pub enum Stmt {
    Block { statements: Vec<Stmt> },
    Class { name: Token, methods: Vec<Stmt> },
    Expression { expression: Expr },
    Function { name: Token, params: Rc<Vec<Token>>, body: Rc<Vec<Stmt>> },
    If { condition: Expr, then_branch: Box<Stmt>, else_branch: Box<Option<Stmt>> },
    Print { expression: Expr },
    Return { keyword: Token, value: Option<Expr> },
    Var { name: Token, initializer: Option<Expr> },
    While { condition: Expr, body: Box<Stmt> },
}

/// The mathematical model of a [`Stmt`].
#[allow(inconsistent_fields)]
pub enum StmtView {
    Block { statements: Seq<StmtView> },
    Class { name: TokenView, methods: Seq<StmtView> },
    Expression { expression: ExprView },
    Function { name: TokenView, params: Seq<TokenView>, body: Seq<StmtView> },
    If { condition: ExprView, then_branch: Box<StmtView>, else_branch: Option<Box<StmtView>> },
    Print { expression: ExprView },
    Return { keyword: TokenView, value: Option<ExprView> },
    Var { name: TokenView, initializer: Option<ExprView> },
    While { condition: ExprView, body: Box<StmtView> },
}

/// The models of a sequence of statements.
pub open spec fn stmts_view(stmts: Seq<Stmt>) -> Seq<StmtView>
    decreases stmts,
{
    Seq::new(
        stmts.len(),
        |i: int|
            if 0 <= i < stmts.len() {
                stmts[i].model()
            } else {
                arbitrary()
            },
    )
}

impl Stmt {
    /// The model of the statement.
    pub open spec fn model(&self) -> StmtView
        decreases self,
    {
        match self {
            Stmt::Block { statements } => StmtView::Block { statements: stmts_view(statements@) },
            Stmt::Class { name, methods } => StmtView::Class {
                name: name@,
                methods: stmts_view(methods@),
            },
            Stmt::Expression { expression } => StmtView::Expression { expression: expression@ },
            Stmt::Function { name, params, body } => StmtView::Function {
                name: name@,
                params: tokens_view(params@),
                body: stmts_view(body@),
            },
            Stmt::If { condition, then_branch, else_branch } => StmtView::If {
                condition: condition@,
                then_branch: Box::new(then_branch.model()),
                else_branch: match **else_branch {
                    Some(s) => Some(Box::new(s.model())),
                    None => None,
                },
            },
            Stmt::Print { expression } => StmtView::Print { expression: expression@ },
            Stmt::Return { keyword, value } => StmtView::Return {
                keyword: keyword@,
                value: match value {
                    Some(v) => Some(v@),
                    None => None,
                },
            },
            Stmt::Var { name, initializer } => StmtView::Var {
                name: name@,
                initializer: match initializer {
                    Some(v) => Some(v@),
                    None => None,
                },
            },
            Stmt::While { condition, body } => StmtView::While {
                condition: condition@,
                body: Box::new(body.model()),
            },
        }
    }
}

impl View for Stmt {
    type V = StmtView;

    open spec fn view(&self) -> StmtView {
        self.model()
    }
}

/// The models of statements with one more are the models with one more.
pub proof fn lemma_stmts_view_push(stmts: Seq<Stmt>, stmt: Stmt)
    ensures
        stmts_view(stmts.push(stmt)) == stmts_view(stmts).push(stmt@),
{
    assert(stmts_view(stmts.push(stmt)) =~= stmts_view(stmts).push(stmt@));
}

} // verus!
