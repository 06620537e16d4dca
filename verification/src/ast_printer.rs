use crate::expr::{exprs_view, Expr, ExprView};
use crate::object::{Object, ObjectView};
use crate::text::{
    append_pieces, lemma_pieces_view_push, pieces_view, push_piece, push_text, text_piece, Piece,
    PieceView,
};
use vstd::prelude::*;

verus! {

/// Prints expressions in prefix form, each operation in parentheses.
pub struct AstPrinter;

/// How a value reads where only the value is at hand: functions, classes
/// and instances by their kind alone.
pub open spec fn value_text(value: ObjectView) -> Seq<PieceView> {
    match value {
        ObjectView::Num(n) => seq![PieceView::Number(n)],
        ObjectView::Str(s) => text_piece("\""@ + s + "\""@),
        ObjectView::Nil => text_piece("nil"@),
        ObjectView::True => text_piece("true"@),
        ObjectView::False => text_piece("false"@),
        ObjectView::Function(_) => text_piece("<fn>"@),
        ObjectView::Native(_) => text_piece("<native_function>"@),
        ObjectView::Class(_) => text_piece("<class>"@),
        ObjectView::Instance(_) => text_piece("<instance>"@),
    }
}

/// Each of the expressions in print, with a space before it.
pub open spec fn spaced(exprs: Seq<ExprView>) -> Seq<PieceView>
    decreases exprs,
{
    if exprs.len() == 0 {
        Seq::empty()
    } else {
        spaced(exprs.drop_last()) + text_piece(" "@) + printed(exprs.last())
    }
}

/// `(name e1 e2 ...)`
pub open spec fn parenthesized(name: Seq<char>, exprs: Seq<ExprView>) -> Seq<PieceView> {
    text_piece("("@ + name) + spaced(exprs) + text_piece(")"@)
}

/// `(name e)`
pub open spec fn around_one(name: Seq<char>, e: Seq<PieceView>) -> Seq<PieceView> {
    text_piece("("@ + name) + text_piece(" "@) + e + text_piece(")"@)
}

/// `(name a b)`
pub open spec fn around_two(name: Seq<char>, a: Seq<PieceView>, b: Seq<PieceView>) -> Seq<
    PieceView,
> {
    text_piece("("@ + name) + text_piece(" "@) + a + text_piece(" "@) + b + text_piece(")"@)
}

/// An expression in print: a literal by its value, a variable by its name,
/// and every operation in parentheses, its name first and its operands after
/// it.
pub open spec fn printed(e: ExprView) -> Seq<PieceView>
    decreases e,
{
    match e {
        ExprView::Assign { name, value, site } => around_one("= "@ + name.lexeme, printed(*value)),
        ExprView::Binary { left, operator, right } => around_two(
            operator.lexeme,
            printed(*left),
            printed(*right),
        ),
        ExprView::Call { callee, paren, arguments } => text_piece("("@ + "call"@) + text_piece(
            " "@,
        ) + printed(*callee) + spaced(arguments) + text_piece(")"@),
        ExprView::Get { object, name } => around_one("get "@ + name.lexeme, printed(*object)),
        ExprView::Logical { left, operator, right } => around_two(
            operator.lexeme,
            printed(*left),
            printed(*right),
        ),
        ExprView::SetProperty { object, name, value } => around_two(
            "set "@ + name.lexeme,
            printed(*object),
            printed(*value),
        ),
        ExprView::This { keyword, site } => text_piece("this"@),
        ExprView::Unary { operator, right } => around_one(operator.lexeme, printed(*right)),
        ExprView::Grouping { expression } => around_one("group"@, printed(*expression)),
        ExprView::Literal { value } => match value {
            Some(v) => value_text(v),
            None => text_piece("nil"@),
        },
        ExprView::Variable { name, site } => text_piece(name.lexeme),
    }
}

/// The models of the expressions that a slice points to.
pub open spec fn pointed(exprs: Seq<&Expr>) -> Seq<ExprView> {
    Seq::new(exprs.len(), |i: int| exprs[i]@)
}

/// The pieces of a value, where only the value is at hand.
pub fn value_pieces(value: &Object) -> (r: Vec<Piece>)
    ensures
        pieces_view(r@) == value_text(value@),
{
    let mut out: Vec<Piece> = Vec::new();
    assert(pieces_view(out@) =~= Seq::<PieceView>::empty());
    match value {
        Object::Num(n) => {
            let piece = Piece::Number(*n);
            proof {
                lemma_pieces_view_push(out@, piece);
            }
            out.push(piece);
        },
        Object::Str(s) => {
            let mut quoted = "\"".to_owned();
            push_text(&mut quoted, s.as_str());
            push_text(&mut quoted, "\"");
            push_piece(&mut out, quoted.as_str());
        },
        Object::Nil => {
            push_piece(&mut out, "nil");
        },
        Object::True => {
            push_piece(&mut out, "true");
        },
        Object::False => {
            push_piece(&mut out, "false");
        },
        Object::Function(_) => {
            push_piece(&mut out, "<fn>");
        },
        Object::Native(_) => {
            push_piece(&mut out, "<native_function>");
        },
        Object::Class(_) => {
            push_piece(&mut out, "<class>");
        },
        Object::Instance(_) => {
            push_piece(&mut out, "<instance>");
        },
    }
    assert(pieces_view(out@) =~= value_text(value@));
    out
}

/// The opening parenthesis and the name of an operation.
fn opened(prefix: &str, name: &str) -> (r: Vec<Piece>)
    ensures
        pieces_view(r@) == text_piece("("@ + (prefix@ + name@)),
{
    let mut head = "(".to_owned();
    push_text(&mut head, prefix);
    push_text(&mut head, name);
    let mut out: Vec<Piece> = Vec::new();
    assert(pieces_view(out@) =~= Seq::<PieceView>::empty());
    push_piece(&mut out, head.as_str());
    assert(head@ =~= "("@ + (prefix@ + name@));
    assert(pieces_view(out@) =~= text_piece("("@ + (prefix@ + name@)));
    out
}

impl AstPrinter {
    /// The expression in print.
    #[verifier::loop_isolation(false)]
    pub fn print(&self, expr: &Expr) -> (r: Vec<Piece>)
        ensures
            pieces_view(r@) == printed(expr@),
        decreases expr,
    {
        match expr {
            Expr::Assign { name, value, site } => {
                let mut out = opened("= ", name.lexeme.as_str());
                push_piece(&mut out, " ");
                append_pieces(&mut out, self.print(value));
                push_piece(&mut out, ")");
                out
            },
            Expr::Binary { left, operator, right } => {
                let mut out = opened("", operator.lexeme.as_str());
                assert(""@ + operator.lexeme@ =~= operator.lexeme@) by {
                    reveal_strlit("");
                }
                push_piece(&mut out, " ");
                append_pieces(&mut out, self.print(left));
                push_piece(&mut out, " ");
                append_pieces(&mut out, self.print(right));
                push_piece(&mut out, ")");
                out
            },
            Expr::Call { callee, paren, arguments } => {
                let mut out = opened("", "call");
                assert(""@ + "call"@ =~= "call"@) by {
                    reveal_strlit("");
                }
                push_piece(&mut out, " ");
                append_pieces(&mut out, self.print(callee));
                let ghost head = pieces_view(out@);
                let mut i: usize = 0;
                while i < arguments.len()
                    invariant
                        i <= arguments.len(),
                        pieces_view(out@) == head + spaced(exprs_view(arguments@).take(i as int)),
                    decreases arguments.len() - i,
                {
                    push_piece(&mut out, " ");
                    append_pieces(&mut out, self.print(&arguments[i]));
                    proof {
                        let all = exprs_view(arguments@);
                        assert(all.take(i + 1).drop_last() =~= all.take(i as int));
                        assert(all.take(i + 1).last() == arguments@[i as int]@);
                    }
                    i += 1;
                }
                assert(exprs_view(arguments@).take(i as int) =~= exprs_view(arguments@));
                push_piece(&mut out, ")");
                out
            },
            Expr::Get { object, name } => {
                let mut out = opened("get ", name.lexeme.as_str());
                push_piece(&mut out, " ");
                append_pieces(&mut out, self.print(object));
                push_piece(&mut out, ")");
                out
            },
            Expr::Logical { left, operator, right } => {
                let mut out = opened("", operator.lexeme.as_str());
                assert(""@ + operator.lexeme@ =~= operator.lexeme@) by {
                    reveal_strlit("");
                }
                push_piece(&mut out, " ");
                append_pieces(&mut out, self.print(left));
                push_piece(&mut out, " ");
                append_pieces(&mut out, self.print(right));
                push_piece(&mut out, ")");
                out
            },
            Expr::SetProperty { object, name, value } => {
                let mut out = opened("set ", name.lexeme.as_str());
                push_piece(&mut out, " ");
                append_pieces(&mut out, self.print(object));
                push_piece(&mut out, " ");
                append_pieces(&mut out, self.print(value));
                push_piece(&mut out, ")");
                out
            },
            Expr::This { keyword, site } => {
                let mut out: Vec<Piece> = Vec::new();
                assert(pieces_view(out@) =~= Seq::<PieceView>::empty());
                push_piece(&mut out, "this");
                out
            },
            Expr::Unary { operator, right } => {
                let mut out = opened("", operator.lexeme.as_str());
                assert(""@ + operator.lexeme@ =~= operator.lexeme@) by {
                    reveal_strlit("");
                }
                push_piece(&mut out, " ");
                append_pieces(&mut out, self.print(right));
                push_piece(&mut out, ")");
                out
            },
            Expr::Grouping { expression } => {
                let mut out = opened("", "group");
                assert(""@ + "group"@ =~= "group"@) by {
                    reveal_strlit("");
                }
                push_piece(&mut out, " ");
                append_pieces(&mut out, self.print(expression));
                push_piece(&mut out, ")");
                out
            },
            Expr::Literal { value } => match value {
                Some(v) => value_pieces(v),
                None => {
                    let mut out: Vec<Piece> = Vec::new();
                    assert(pieces_view(out@) =~= Seq::<PieceView>::empty());
                    push_piece(&mut out, "nil");
                    out
                },
            },
            Expr::Variable { name, site } => {
                let mut out: Vec<Piece> = Vec::new();
                assert(pieces_view(out@) =~= Seq::<PieceView>::empty());
                push_piece(&mut out, name.lexeme.as_str());
                out
            },
        }
    }

    /// `(name e1 e2 ...)`, each of the expressions in print.
    pub fn parenthesize(&self, name: &str, exprs: &[&Expr]) -> (r: Vec<Piece>)
        ensures
            pieces_view(r@) == parenthesized(name@, pointed(exprs@)),
    {
        let mut out = opened("", name);
        assert(""@ + name@ =~= name@) by {
            reveal_strlit("");
        }
        let ghost head = pieces_view(out@);
        let mut i: usize = 0;
        while i < exprs.len()
            invariant
                i <= exprs.len(),
                pieces_view(out@) == head + spaced(pointed(exprs@).take(i as int)),
            decreases exprs.len() - i,
        {
            push_piece(&mut out, " ");
            append_pieces(&mut out, self.print(exprs[i]));
            proof {
                let all = pointed(exprs@);
                assert(all.take(i + 1).drop_last() =~= all.take(i as int));
                assert(all.take(i + 1).last() == exprs@[i as int]@);
            }
            i += 1;
        }
        assert(pointed(exprs@).take(i as int) =~= pointed(exprs@));
        push_piece(&mut out, ")");
        out
    }
}

} // verus!
