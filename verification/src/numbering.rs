//! Why every site of a parsed program has a number of its own, and why the
//! branches of `if` and the bodies of `while` in it are no declarations.

use crate::errors::LoxResultView;
use crate::expr::ExprView;
use crate::parser::{
    arguments, assignment, at_end, binary, binary_rest, block_items, block_statement, call,
    call_rest, check, class_declaration, condition, declaration, expression,
    expression_statement, finish_call, for_head, for_initializer, for_loop, for_statement,
    function, if_statement, join, methods, optional_expression, primary, print_statement,
    program, program_items, return_statement, statement, terminated_expression, unary,
    var_declaration, while_statement, ForHead,
};
use crate::resolution::{
    distinct_expr, distinct_exprs, plain, sites_expr, sites_exprs, sites_stmt, sites_stmts,
    tidy_stmt, tidy_stmts,
};
use crate::stmt::StmtView;
use crate::token::TokenView;
use crate::token_type::TokenType;
use vstd::prelude::*;

verus! {

/// Every one of the sites lies from `lo` up to, but not at, `hi`.
pub open spec fn within(sites: Set<usize>, lo: int, hi: int) -> bool {
    forall|site: usize| #[trigger] sites.contains(site) ==> lo <= site < hi
}

/// The parser stands within the tokens, and has a number left for every
/// site that the remaining tokens can make.
pub open spec fn room(tokens: Seq<TokenView>, pos: int, site: int) -> bool {
    &&& 0 <= pos <= tokens.len()
    &&& 0 <= site
    &&& site + (tokens.len() - pos) <= usize::MAX
}

/// The parser went on, not back, and gave out no more numbers than it
/// stepped over tokens.
pub open spec fn went(
    tokens: Seq<TokenView>,
    pos: int,
    site: int,
    next_pos: int,
    next_site: int,
) -> bool {
    &&& pos <= next_pos <= tokens.len()
    &&& site <= next_site
    &&& next_site - site <= next_pos - pos
}

/// Each site of the expression has a number of its own, from `lo` up to
/// `hi`.
pub open spec fn numbered(e: ExprView, lo: int, hi: int) -> bool {
    distinct_expr(e) && within(sites_expr(e), lo, hi)
}

/// Each site of the expressions has a number of its own, from `lo` up to
/// `hi`.
pub open spec fn numbered_all(exprs: Seq<ExprView>, lo: int, hi: int) -> bool {
    distinct_exprs(exprs) && within(sites_exprs(exprs), lo, hi)
}

proof fn lemma_apart(first: Set<usize>, second: Set<usize>, lo: int, mid: int, hi: int)
    requires
        within(first, lo, mid),
        within(second, mid, hi),
        lo <= mid <= hi,
    ensures
        first.disjoint(second),
        within(first.union(second), lo, hi),
{
    assert forall|site: usize| first.contains(site) && second.contains(site) implies false by {}
    assert forall|site: usize| #[trigger] first.union(second).contains(site) implies lo <= site
        < hi by {
        if first.contains(site) {
        } else {
            assert(second.contains(site));
        }
    }
}

proof fn lemma_wider(sites: Set<usize>, lo: int, hi: int, lower: int, higher: int)
    requires
        within(sites, lo, hi),
        lower <= lo,
        hi <= higher,
    ensures
        within(sites, lower, higher),
{
}

proof fn lemma_exprs_with_one_more(exprs: Seq<ExprView>, e: ExprView)
    ensures
        sites_exprs(exprs.push(e)) == sites_exprs(exprs).union(sites_expr(e)),
        distinct_exprs(exprs) && distinct_expr(e) && sites_exprs(exprs).disjoint(sites_expr(e))
            ==> distinct_exprs(exprs.push(e)),
    decreases exprs.len(),
{
    let more = exprs.push(e);
    let none = Seq::<ExprView>::empty();
    assert(sites_exprs(none) == Set::<usize>::empty());
    assert(distinct_exprs(none));
    if exprs.len() == 0 {
        assert(more.drop_first() =~= none);
        assert(more[0] == e);
        assert(exprs =~= none);
        assert(sites_exprs(more) == sites_expr(e).union(sites_exprs(none)));
        assert(sites_exprs(more) =~= sites_exprs(exprs).union(sites_expr(e)));
    } else {
        let rest = exprs.drop_first();
        lemma_exprs_with_one_more(rest, e);
        assert(more.drop_first() =~= rest.push(e));
        assert(more[0] == exprs[0]);
        assert(sites_exprs(more) == sites_expr(exprs[0]).union(sites_exprs(rest.push(e))));
        assert(sites_exprs(exprs) == sites_expr(exprs[0]).union(sites_exprs(rest)));
        assert(sites_exprs(more) =~= sites_exprs(exprs).union(sites_expr(e)));
        if distinct_exprs(exprs) && distinct_expr(e) && sites_exprs(exprs).disjoint(sites_expr(e)) {
            assert(sites_exprs(rest).disjoint(sites_expr(e)));
            assert(distinct_exprs(rest.push(e)));
            assert(sites_expr(exprs[0]).disjoint(sites_exprs(rest.push(e))));
        }
    }
}

/// What holds of the outcome of parsing an expression that starts with the
/// site numbered `site`: its sites are numbered from `lo` on.
pub open spec fn expr_outcome_ok(
    tokens: Seq<TokenView>,
    pos: int,
    site: int,
    lo: int,
    o: crate::parser::ExprOutcome,
) -> bool {
    &&& went(tokens, pos, site, o.pos, o.site)
    &&& o.result is Ok ==> numbered(o.result->Ok_0, lo, o.site)
    &&& o.result is Err ==> o.result->Err_0 is Parser
}

proof fn lemma_primary(tokens: Seq<TokenView>, pos: int, site: int)
    requires
        room(tokens, pos, site),
    ensures
        expr_outcome_ok(tokens, pos, site, site, primary(tokens, pos, site)),
    decreases tokens.len() - pos, 6nat,
{
    if check(tokens, pos, TokenType::LeftParen) {
        lemma_expression(tokens, pos + 1, site);
    }
}

proof fn lemma_arguments(
    tokens: Seq<TokenView>,
    pos: int,
    site: int,
    parsed: Seq<ExprView>,
    lo: int,
)
    requires
        room(tokens, pos, site),
        lo <= site,
        numbered_all(parsed, lo, site),
    ensures
        went(tokens, pos, site, arguments(tokens, pos, site, parsed).pos, arguments(
            tokens,
            pos,
            site,
            parsed,
        ).site),
        arguments(tokens, pos, site, parsed).result is Ok ==> numbered_all(
            arguments(tokens, pos, site, parsed).result->Ok_0,
            lo,
            arguments(tokens, pos, site, parsed).site,
        ),
        arguments(tokens, pos, site, parsed).result is Err ==> arguments(
            tokens,
            pos,
            site,
            parsed,
        ).result->Err_0 is Parser,
    decreases tokens.len() - pos, 39nat,
{
    if parsed.len() < crate::parser::MAX_ARGUMENTS {
        lemma_expression(tokens, pos, site);
        let argument = expression(tokens, pos, site);
        match argument.result {
            Err(_) => {},
            Ok(e) => {
                lemma_exprs_with_one_more(parsed, e);
                lemma_apart(sites_exprs(parsed), sites_expr(e), lo, site, argument.site);
                if check(tokens, argument.pos, TokenType::Comma) {
                    lemma_arguments(tokens, argument.pos + 1, argument.site, parsed.push(e), lo);
                }
            },
        }
    }
}

proof fn lemma_finish_call(tokens: Seq<TokenView>, pos: int, site: int, callee: ExprView, lo: int)
    requires
        room(tokens, pos, site),
        lo <= site,
        numbered(callee, lo, site),
    ensures
        expr_outcome_ok(tokens, pos, site, lo, finish_call(tokens, pos, site, callee)),
    decreases tokens.len() - pos, 40nat,
{
    let none = Seq::<ExprView>::empty();
    assert(sites_exprs(none) == Set::<usize>::empty());
    assert(distinct_exprs(none));
    if !check(tokens, pos, TokenType::RightParen) {
        lemma_arguments(tokens, pos, site, none, site);
        let list = arguments(tokens, pos, site, none);
        if list.result is Ok {
            lemma_apart(sites_expr(callee), sites_exprs(list.result->Ok_0), lo, site, list.site);
        }
    } else {
        lemma_apart(sites_expr(callee), sites_exprs(none), lo, site, site);
    }
}

proof fn lemma_call_rest(tokens: Seq<TokenView>, pos: int, site: int, expr: ExprView, lo: int)
    requires
        room(tokens, pos, site),
        lo <= site,
        numbered(expr, lo, site),
    ensures
        expr_outcome_ok(tokens, pos, site, lo, call_rest(tokens, pos, site, expr)),
    decreases tokens.len() - pos, 7nat,
{
    if check(tokens, pos, TokenType::LeftParen) {
        lemma_finish_call(tokens, pos + 1, site, expr, lo);
        let called = finish_call(tokens, pos + 1, site, expr);
        match called.result {
            Err(_) => {},
            Ok(e) => {
                lemma_call_rest(tokens, called.pos, called.site, e, lo);
            },
        }
    } else if check(tokens, pos, TokenType::Dot) {
        if check(tokens, pos + 1, TokenType::Identifier) {
            lemma_call_rest(
                tokens,
                pos + 2,
                site,
                ExprView::Get { object: Box::new(expr), name: crate::parser::token_at(tokens, pos + 1) },
                lo,
            );
        }
    }
}

proof fn lemma_call(tokens: Seq<TokenView>, pos: int, site: int)
    requires
        room(tokens, pos, site),
    ensures
        expr_outcome_ok(tokens, pos, site, site, call(tokens, pos, site)),
    decreases tokens.len() - pos, 8nat,
{
    lemma_primary(tokens, pos, site);
    let head = primary(tokens, pos, site);
    match head.result {
        Err(_) => {},
        Ok(e) => {
            lemma_call_rest(tokens, head.pos, head.site, e, site);
        },
    }
}

proof fn lemma_unary(tokens: Seq<TokenView>, pos: int, site: int)
    requires
        room(tokens, pos, site),
    ensures
        expr_outcome_ok(tokens, pos, site, site, unary(tokens, pos, site)),
    decreases tokens.len() - pos, 9nat,
{
    if check(tokens, pos, TokenType::Bang) || check(tokens, pos, TokenType::Minus) {
        lemma_unary(tokens, pos + 1, site);
    } else {
        lemma_call(tokens, pos, site);
    }
}

proof fn lemma_binary_rest(
    tokens: Seq<TokenView>,
    pos: int,
    site: int,
    level: nat,
    left: ExprView,
    lo: int,
)
    requires
        room(tokens, pos, site),
        lo <= site,
        numbered(left, lo, site),
    ensures
        expr_outcome_ok(tokens, pos, site, lo, binary_rest(tokens, pos, site, level, left)),
    decreases tokens.len() - pos, 10 + 2 * level,
{
    if 1 <= level <= 6 && !at_end(tokens, pos) && crate::parser::is_operator(
        level,
        crate::parser::kind_at(tokens, pos),
    ) {
        lemma_binary(tokens, pos + 1, site, (level - 1) as nat);
        let right = binary(tokens, pos + 1, site, (level - 1) as nat);
        match right.result {
            Err(_) => {},
            Ok(e) => {
                lemma_apart(sites_expr(left), sites_expr(e), lo, site, right.site);
                let joined = join(level, left, crate::parser::token_at(tokens, pos), e);
                assert(sites_expr(joined) == sites_expr(left).union(sites_expr(e)));
                lemma_binary_rest(tokens, right.pos, right.site, level, joined, lo);
            },
        }
    }
}

proof fn lemma_binary(tokens: Seq<TokenView>, pos: int, site: int, level: nat)
    requires
        room(tokens, pos, site),
    ensures
        expr_outcome_ok(tokens, pos, site, site, binary(tokens, pos, site, level)),
    decreases tokens.len() - pos, 11 + 2 * level,
{
    if level == 0 || level > 6 {
        lemma_unary(tokens, pos, site);
    } else {
        lemma_binary(tokens, pos, site, (level - 1) as nat);
        let left = binary(tokens, pos, site, (level - 1) as nat);
        match left.result {
            Err(_) => {},
            Ok(e) => {
                lemma_binary_rest(tokens, left.pos, left.site, level, e, site);
            },
        }
    }
}

proof fn lemma_assignment(tokens: Seq<TokenView>, pos: int, site: int)
    requires
        room(tokens, pos, site),
    ensures
        expr_outcome_ok(tokens, pos, site, site, assignment(tokens, pos, site)),
    decreases tokens.len() - pos, 29nat,
{
    lemma_binary(tokens, pos, site, 6);
    let target = binary(tokens, pos, site, 6);
    match target.result {
        Err(_) => {},
        Ok(e) => {
            if check(tokens, target.pos, TokenType::Equal) {
                lemma_assignment(tokens, target.pos + 1, target.site);
                let value = assignment(tokens, target.pos + 1, target.site);
                match value.result {
                    Err(_) => {},
                    Ok(v) => {
                        lemma_apart(sites_expr(e), sites_expr(v), site, target.site, value.site);
                        match e {
                            ExprView::Variable { name, site: own } => {
                                assert(sites_expr(e).contains(own));
                            },
                            _ => {},
                        }
                    },
                }
            }
        },
    }
}

proof fn lemma_expression(tokens: Seq<TokenView>, pos: int, site: int)
    requires
        room(tokens, pos, site),
    ensures
        expr_outcome_ok(tokens, pos, site, site, expression(tokens, pos, site)),
    decreases tokens.len() - pos, 30nat,
{
    lemma_assignment(tokens, pos, site);
}

/// Each site of the statement has a number of its own, from `lo` up to
/// `hi`, and the branches of `if` and the bodies of `while` in it are no
/// declarations.
pub open spec fn neat(s: StmtView, lo: int, hi: int) -> bool {
    tidy_stmt(s) && within(sites_stmt(s), lo, hi)
}

/// The same of statements.
pub open spec fn neat_all(stmts: Seq<StmtView>, lo: int, hi: int) -> bool {
    tidy_stmts(stmts) && within(sites_stmts(stmts), lo, hi)
}

/// Every one of the errors is a diagnostic of the parser.
pub open spec fn diagnostics_only(errors: Seq<LoxResultView>) -> bool {
    forall|i: int| 0 <= i < errors.len() ==> (#[trigger] errors[i]) is Parser
}

/// What holds of the outcome of parsing a statement.
pub open spec fn stmt_outcome_ok(
    tokens: Seq<TokenView>,
    pos: int,
    site: int,
    errors: Seq<LoxResultView>,
    o: crate::parser::Outcome<StmtView>,
) -> bool {
    &&& went(tokens, pos, site, o.pos, o.site)
    &&& o.result is Ok ==> neat(o.result->Ok_0, site, o.site)
    &&& o.result is Err ==> o.result->Err_0 is Parser
    &&& diagnostics_only(errors) ==> diagnostics_only(o.errors)
}

/// What holds of the outcome of parsing an expression within a statement.
pub open spec fn part_outcome_ok(
    tokens: Seq<TokenView>,
    pos: int,
    site: int,
    errors: Seq<LoxResultView>,
    o: crate::parser::Outcome<ExprView>,
) -> bool {
    &&& went(tokens, pos, site, o.pos, o.site)
    &&& o.result is Ok ==> numbered(o.result->Ok_0, site, o.site)
    &&& o.result is Err ==> o.result->Err_0 is Parser
    &&& diagnostics_only(errors) ==> diagnostics_only(o.errors)
}

proof fn lemma_stmts_with_one_more(stmts: Seq<StmtView>, s: StmtView)
    ensures
        sites_stmts(stmts.push(s)) == sites_stmts(stmts).union(sites_stmt(s)),
        tidy_stmts(stmts) && tidy_stmt(s) && sites_stmts(stmts).disjoint(sites_stmt(s))
            ==> tidy_stmts(stmts.push(s)),
    decreases stmts.len(),
{
    let more = stmts.push(s);
    let none = Seq::<StmtView>::empty();
    assert(sites_stmts(none) == Set::<usize>::empty());
    assert(tidy_stmts(none));
    if stmts.len() == 0 {
        assert(more.drop_first() =~= none);
        assert(more[0] == s);
        assert(stmts =~= none);
        assert(sites_stmts(more) == sites_stmt(s).union(sites_stmts(none)));
        assert(sites_stmts(more) =~= sites_stmts(stmts).union(sites_stmt(s)));
    } else {
        let rest = stmts.drop_first();
        lemma_stmts_with_one_more(rest, s);
        assert(more.drop_first() =~= rest.push(s));
        assert(more[0] == stmts[0]);
        assert(sites_stmts(more) == sites_stmt(stmts[0]).union(sites_stmts(rest.push(s))));
        assert(sites_stmts(stmts) == sites_stmt(stmts[0]).union(sites_stmts(rest)));
        assert(sites_stmts(more) =~= sites_stmts(stmts).union(sites_stmt(s)));
        if tidy_stmts(stmts) && tidy_stmt(s) && sites_stmts(stmts).disjoint(sites_stmt(s)) {
            assert(sites_stmts(rest).disjoint(sites_stmt(s)));
            assert(tidy_stmts(rest.push(s)));
            assert(sites_stmt(stmts[0]).disjoint(sites_stmts(rest.push(s))));
        }
    }
}

proof fn lemma_two_stmts(first: StmtView, second: StmtView)
    ensures
        sites_stmts(seq![first, second]) == sites_stmt(first).union(sites_stmt(second)),
        tidy_stmt(first) && tidy_stmt(second) && sites_stmt(first).disjoint(sites_stmt(second))
            ==> tidy_stmts(seq![first, second]),
{
    let none = Seq::<StmtView>::empty();
    lemma_stmts_with_one_more(none, first);
    lemma_stmts_with_one_more(none.push(first), second);
    assert(none.push(first).push(second) =~= seq![first, second]);
    assert(sites_stmts(none) == Set::<usize>::empty());
    assert(tidy_stmts(none));
    assert(sites_stmts(none.push(first)) =~= sites_stmt(first));
}

proof fn lemma_terminated_expression(
    tokens: Seq<TokenView>,
    pos: int,
    site: int,
    errors: Seq<LoxResultView>,
    msg: Seq<char>,
)
    requires
        room(tokens, pos, site),
    ensures
        part_outcome_ok(tokens, pos, site, errors, terminated_expression(tokens, pos, site, errors, msg)),
{
    lemma_expression(tokens, pos, site);
}

proof fn lemma_expression_statement(
    tokens: Seq<TokenView>,
    pos: int,
    site: int,
    errors: Seq<LoxResultView>,
)
    requires
        room(tokens, pos, site),
    ensures
        stmt_outcome_ok(tokens, pos, site, errors, expression_statement(tokens, pos, site, errors)),
        expression_statement(tokens, pos, site, errors).result is Ok ==> plain(
            expression_statement(tokens, pos, site, errors).result->Ok_0,
        ),
{
    lemma_terminated_expression(tokens, pos, site, errors, "Expected ';' after expression."@);
}

proof fn lemma_print_statement(
    tokens: Seq<TokenView>,
    pos: int,
    site: int,
    errors: Seq<LoxResultView>,
)
    requires
        room(tokens, pos, site),
    ensures
        stmt_outcome_ok(tokens, pos, site, errors, print_statement(tokens, pos, site, errors)),
        print_statement(tokens, pos, site, errors).result is Ok ==> plain(
            print_statement(tokens, pos, site, errors).result->Ok_0,
        ),
{
    lemma_terminated_expression(tokens, pos, site, errors, "Expected ';' after value."@);
}

proof fn lemma_return_statement(
    tokens: Seq<TokenView>,
    pos: int,
    site: int,
    errors: Seq<LoxResultView>,
)
    requires
        room(tokens, pos, site),
    ensures
        stmt_outcome_ok(tokens, pos, site, errors, return_statement(tokens, pos, site, errors)),
        return_statement(tokens, pos, site, errors).result is Ok ==> plain(
            return_statement(tokens, pos, site, errors).result->Ok_0,
        ),
{
    if !check(tokens, pos, TokenType::Semicolon) {
        lemma_terminated_expression(
            tokens,
            pos,
            site,
            errors,
            "Expected ';' after return statement."@,
        );
    }
}

proof fn lemma_var_declaration(
    tokens: Seq<TokenView>,
    pos: int,
    site: int,
    errors: Seq<LoxResultView>,
)
    requires
        room(tokens, pos, site),
    ensures
        stmt_outcome_ok(tokens, pos, site, errors, var_declaration(tokens, pos, site, errors)),
{
    if check(tokens, pos, TokenType::Identifier) && check(tokens, pos + 1, TokenType::Equal) {
        lemma_terminated_expression(
            tokens,
            pos + 2,
            site,
            errors,
            "Expected ';' after variable declaration."@,
        );
    }
}

proof fn lemma_condition(
    tokens: Seq<TokenView>,
    pos: int,
    site: int,
    errors: Seq<LoxResultView>,
    opening: Seq<char>,
    closing: Seq<char>,
)
    requires
        room(tokens, pos, site),
    ensures
        part_outcome_ok(
            tokens,
            pos,
            site,
            errors,
            condition(tokens, pos, site, errors, opening, closing),
        ),
{
    if check(tokens, pos, TokenType::LeftParen) {
        lemma_expression(tokens, pos + 1, site);
    }
}

proof fn lemma_for_initializer(
    tokens: Seq<TokenView>,
    pos: int,
    site: int,
    errors: Seq<LoxResultView>,
)
    requires
        room(tokens, pos, site),
    ensures
        went(tokens, pos, site, for_initializer(tokens, pos, site, errors).pos, for_initializer(
            tokens,
            pos,
            site,
            errors,
        ).site),
        match for_initializer(tokens, pos, site, errors).result {
            Ok(Some(s)) => neat(s, site, for_initializer(tokens, pos, site, errors).site),
            _ => true,
        },
        for_initializer(tokens, pos, site, errors).result is Err ==> for_initializer(tokens, pos, site, errors).result->Err_0 is Parser,
        diagnostics_only(errors) ==> diagnostics_only(for_initializer(tokens, pos, site, errors).errors),
{
    if !check(tokens, pos, TokenType::Semicolon) {
        if check(tokens, pos, TokenType::Var) {
            lemma_var_declaration(tokens, pos + 1, site, errors);
        } else {
            lemma_expression_statement(tokens, pos, site, errors);
        }
    }
}

proof fn lemma_optional_expression(
    tokens: Seq<TokenView>,
    pos: int,
    site: int,
    errors: Seq<LoxResultView>,
    closer: TokenType,
    msg: Seq<char>,
)
    requires
        room(tokens, pos, site),
    ensures
        went(
            tokens,
            pos,
            site,
            optional_expression(tokens, pos, site, errors, closer, msg).pos,
            optional_expression(tokens, pos, site, errors, closer, msg).site,
        ),
        match optional_expression(tokens, pos, site, errors, closer, msg).result {
            Ok(Some(e)) => numbered(
                e,
                site,
                optional_expression(tokens, pos, site, errors, closer, msg).site,
            ),
            _ => true,
        },
        optional_expression(tokens, pos, site, errors, closer, msg).result is Err ==> optional_expression(tokens, pos, site, errors, closer, msg).result->Err_0 is Parser,
        diagnostics_only(errors) ==> diagnostics_only(optional_expression(tokens, pos, site, errors, closer, msg).errors),
{
    if !check(tokens, pos, closer) {
        lemma_expression(tokens, pos, site);
    }
}

/// The parts of the head of a `for` statement are numbered one after the
/// other: the initializer from `lo` up to `a`, the condition from `a` up to
/// `b`, the increment from `b` up to `hi`.
pub open spec fn head_neat(head: ForHead, lo: int, a: int, b: int, hi: int) -> bool {
    &&& lo <= a <= b <= hi
    &&& match head.initializer {
        Some(s) => neat(s, lo, a),
        None => true,
    }
    &&& match head.condition {
        Some(e) => numbered(e, a, b),
        None => true,
    }
    &&& match head.increment {
        Some(e) => numbered(e, b, hi),
        None => true,
    }
}

proof fn lemma_for_head(tokens: Seq<TokenView>, pos: int, site: int, errors: Seq<LoxResultView>)
    requires
        room(tokens, pos, site),
    ensures
        went(tokens, pos, site, for_head(tokens, pos, site, errors).pos, for_head(
            tokens,
            pos,
            site,
            errors,
        ).site),
        for_head(tokens, pos, site, errors).result is Ok ==> pos < for_head(
            tokens,
            pos,
            site,
            errors,
        ).pos && exists|a: int, b: int|
            head_neat(
                for_head(tokens, pos, site, errors).result->Ok_0,
                site,
                a,
                b,
                for_head(tokens, pos, site, errors).site,
            ),
        for_head(tokens, pos, site, errors).result is Err ==> for_head(tokens, pos, site, errors).result->Err_0 is Parser,
        diagnostics_only(errors) ==> diagnostics_only(for_head(tokens, pos, site, errors).errors),
{
    if check(tokens, pos, TokenType::LeftParen) {
        lemma_for_initializer(tokens, pos + 1, site, errors);
        let first = for_initializer(tokens, pos + 1, site, errors);
        if first.result is Ok {
            lemma_optional_expression(
                tokens,
                first.pos,
                first.site,
                errors,
                TokenType::Semicolon,
                "Expected ';' after loop condition."@,
            );
            let second = optional_expression(
                tokens,
                first.pos,
                first.site,
                errors,
                TokenType::Semicolon,
                "Expected ';' after loop condition."@,
            );
            if second.result is Ok {
                lemma_optional_expression(
                    tokens,
                    second.pos,
                    second.site,
                    errors,
                    TokenType::RightParen,
                    "Expected closing ')' after for statement."@,
                );
                let third = optional_expression(
                    tokens,
                    second.pos,
                    second.site,
                    errors,
                    TokenType::RightParen,
                    "Expected closing ')' after for statement."@,
                );
                if third.result is Ok {
                    assert(head_neat(
                        for_head(tokens, pos, site, errors).result->Ok_0,
                        site,
                        first.site,
                        second.site,
                        third.site,
                    ));
                }
            }
        }
    }
}

proof fn lemma_for_loop(head: ForHead, body: StmtView, lo: int, a: int, b: int, mid: int, hi: int)
    requires
        head_neat(head, lo, a, b, mid),
        neat(body, mid, hi),
        plain(body),
        mid <= hi,
    ensures
        neat(for_loop(head, body), lo, hi),
        plain(for_loop(head, body)),
{
    let none = Set::<usize>::empty();
    let step = match head.increment {
        Some(i) => StmtView::Block { statements: seq![body, StmtView::Expression { expression: i }] },
        None => body,
    };
    match head.increment {
        Some(i) => {
            let last = StmtView::Expression { expression: i };
            lemma_two_stmts(body, last);
            lemma_apart(sites_expr(i), sites_stmt(body), b, mid, hi);
            assert(sites_stmt(step) =~= sites_expr(i).union(sites_stmt(body)));
        },
        None => {
            lemma_wider(sites_stmt(body), mid, hi, b, hi);
        },
    }
    assert(neat(step, b, hi));
    assert(plain(step));
    let test = match head.condition {
        Some(c) => c,
        None => ExprView::Literal { value: Some(crate::object::ObjectView::True) },
    };
    match head.condition {
        Some(c) => {},
        None => {
            assert(sites_expr(test) == none);
        },
    }
    assert(numbered(test, a, b));
    let looped = StmtView::While { condition: test, body: Box::new(step) };
    lemma_apart(sites_expr(test), sites_stmt(step), a, b, hi);
    assert(neat(looped, a, hi));
    match head.initializer {
        Some(i) => {
            lemma_two_stmts(i, looped);
            lemma_apart(sites_stmt(i), sites_stmt(looped), lo, a, hi);
        },
        None => {
            lemma_wider(sites_stmt(looped), a, hi, lo, hi);
        },
    }
}


proof fn lemma_statement(tokens: Seq<TokenView>, pos: int, site: int, errors: Seq<LoxResultView>)
    requires
        room(tokens, pos, site),
    ensures
        stmt_outcome_ok(tokens, pos, site, errors, statement(tokens, pos, site, errors)),
        statement(tokens, pos, site, errors).result is Ok ==> plain(
            statement(tokens, pos, site, errors).result->Ok_0,
        ),
    decreases tokens.len() - pos, 10nat,
{
    if check(tokens, pos, TokenType::For) {
        lemma_for_statement(tokens, pos + 1, site, errors);
    } else if check(tokens, pos, TokenType::If) {
        lemma_if_statement(tokens, pos + 1, site, errors);
    } else if check(tokens, pos, TokenType::Print) {
        lemma_print_statement(tokens, pos + 1, site, errors);
    } else if check(tokens, pos, TokenType::Return) {
        lemma_return_statement(tokens, pos + 1, site, errors);
    } else if check(tokens, pos, TokenType::While) {
        lemma_while_statement(tokens, pos + 1, site, errors);
    } else if check(tokens, pos, TokenType::LeftBrace) {
        lemma_block_statement(tokens, pos + 1, site, errors);
    } else {
        lemma_expression_statement(tokens, pos, site, errors);
    }
}

proof fn lemma_for_statement(
    tokens: Seq<TokenView>,
    pos: int,
    site: int,
    errors: Seq<LoxResultView>,
)
    requires
        room(tokens, pos, site),
    ensures
        stmt_outcome_ok(tokens, pos, site, errors, for_statement(tokens, pos, site, errors)),
        for_statement(tokens, pos, site, errors).result is Ok ==> plain(
            for_statement(tokens, pos, site, errors).result->Ok_0,
        ),
    decreases tokens.len() - pos, 5nat,
{
    lemma_for_head(tokens, pos, site, errors);
    let head = for_head(tokens, pos, site, errors);
    match head.result {
        Err(_) => {},
        Ok(h) => {
            lemma_statement(tokens, head.pos, head.site, errors);
            let body = statement(tokens, head.pos, head.site, errors);
            match body.result {
                Err(_) => {},
                Ok(b) => {
                    let (first, second) = choose|a: int, b: int|
                        head_neat(h, site, a, b, head.site);
                    lemma_for_loop(h, b, site, first, second, head.site, body.site);
                },
            }
        },
    }
}

proof fn lemma_if_statement(
    tokens: Seq<TokenView>,
    pos: int,
    site: int,
    errors: Seq<LoxResultView>,
)
    requires
        room(tokens, pos, site),
    ensures
        stmt_outcome_ok(tokens, pos, site, errors, if_statement(tokens, pos, site, errors)),
        if_statement(tokens, pos, site, errors).result is Ok ==> plain(
            if_statement(tokens, pos, site, errors).result->Ok_0,
        ),
    decreases tokens.len() - pos, 5nat,
{
    lemma_condition(
        tokens,
        pos,
        site,
        errors,
        "Expected '(' after 'if' statement."@,
        "Missing closing ')' after if condition."@,
    );
    let test = condition(
        tokens,
        pos,
        site,
        errors,
        "Expected '(' after 'if' statement."@,
        "Missing closing ')' after if condition."@,
    );
    match test.result {
        Err(_) => {},
        Ok(c) => {
            if pos < test.pos <= tokens.len() {
                lemma_statement(tokens, test.pos, test.site, errors);
                let then_branch = statement(tokens, test.pos, test.site, errors);
                match then_branch.result {
                    Err(_) => {},
                    Ok(t) => {
                        lemma_apart(
                            sites_expr(c),
                            sites_stmt(t),
                            site,
                            test.site,
                            then_branch.site,
                        );
                        if check(tokens, then_branch.pos, TokenType::Else) && pos
                            < then_branch.pos {
                            lemma_statement(
                                tokens,
                                then_branch.pos + 1,
                                then_branch.site,
                                then_branch.errors,
                            );
                            let else_branch = statement(
                                tokens,
                                then_branch.pos + 1,
                                then_branch.site,
                                then_branch.errors,
                            );
                            match else_branch.result {
                                Err(_) => {},
                                Ok(e) => {
                                    lemma_apart(
                                        sites_expr(c).union(sites_stmt(t)),
                                        sites_stmt(e),
                                        site,
                                        then_branch.site,
                                        else_branch.site,
                                    );
                                },
                            }
                        } else {
                            assert(sites_expr(c).union(sites_stmt(t)).union(Set::empty())
                                =~= sites_expr(c).union(sites_stmt(t)));
                        }
                    },
                }
            }
        },
    }
}

proof fn lemma_while_statement(
    tokens: Seq<TokenView>,
    pos: int,
    site: int,
    errors: Seq<LoxResultView>,
)
    requires
        room(tokens, pos, site),
    ensures
        stmt_outcome_ok(tokens, pos, site, errors, while_statement(tokens, pos, site, errors)),
        while_statement(tokens, pos, site, errors).result is Ok ==> plain(
            while_statement(tokens, pos, site, errors).result->Ok_0,
        ),
    decreases tokens.len() - pos, 5nat,
{
    lemma_condition(
        tokens,
        pos,
        site,
        errors,
        "Expected '(' after while statement."@,
        "Expected closing ')' after while statement."@,
    );
    let test = condition(
        tokens,
        pos,
        site,
        errors,
        "Expected '(' after while statement."@,
        "Expected closing ')' after while statement."@,
    );
    match test.result {
        Err(_) => {},
        Ok(c) => {
            if pos < test.pos <= tokens.len() {
                lemma_statement(tokens, test.pos, test.site, errors);
                let body = statement(tokens, test.pos, test.site, errors);
                match body.result {
                    Err(_) => {},
                    Ok(b) => {
                        lemma_apart(sites_expr(c), sites_stmt(b), site, test.site, body.site);
                    },
                }
            }
        },
    }
}

proof fn lemma_block_items(
    tokens: Seq<TokenView>,
    pos: int,
    site: int,
    errors: Seq<LoxResultView>,
    parsed: Seq<StmtView>,
    lo: int,
)
    requires
        room(tokens, pos, site),
        lo <= site,
        neat_all(parsed, lo, site),
    ensures
        went(tokens, pos, site, block_items(tokens, pos, site, errors, parsed).pos, block_items(
            tokens,
            pos,
            site,
            errors,
            parsed,
        ).site),
        neat_all(
            block_items(tokens, pos, site, errors, parsed).stmts,
            lo,
            block_items(tokens, pos, site, errors, parsed).site,
        ),
        diagnostics_only(errors) ==> diagnostics_only(block_items(tokens, pos, site, errors, parsed).errors),
    decreases tokens.len() - pos, 20nat,
{
    if !(check(tokens, pos, TokenType::RightBrace) || at_end(tokens, pos)) {
        lemma_declaration(tokens, pos, site, errors);
        let item = declaration(tokens, pos, site, errors);
        if pos < item.pos <= tokens.len() {
            match item.stmt {
                Some(s) => {
                    lemma_stmts_with_one_more(parsed, s);
                    lemma_apart(sites_stmts(parsed), sites_stmt(s), lo, site, item.site);
                    lemma_block_items(tokens, item.pos, item.site, item.errors, parsed.push(s), lo);
                },
                None => {
                    lemma_wider(sites_stmts(parsed), lo, site, lo, item.site);
                    lemma_block_items(tokens, item.pos, item.site, item.errors, parsed, lo);
                },
            }
        }
    }
}

proof fn lemma_block_statement(
    tokens: Seq<TokenView>,
    pos: int,
    site: int,
    errors: Seq<LoxResultView>,
)
    requires
        room(tokens, pos, site),
    ensures
        went(tokens, pos, site, block_statement(tokens, pos, site, errors).pos, block_statement(
            tokens,
            pos,
            site,
            errors,
        ).site),
        block_statement(tokens, pos, site, errors).result is Ok ==> neat_all(
            block_statement(tokens, pos, site, errors).result->Ok_0,
            site,
            block_statement(tokens, pos, site, errors).site,
        ),
        block_statement(tokens, pos, site, errors).result is Err ==> block_statement(tokens, pos, site, errors).result->Err_0 is Parser,
        diagnostics_only(errors) ==> diagnostics_only(block_statement(tokens, pos, site, errors).errors),
    decreases tokens.len() - pos, 25nat,
{
    let none = Seq::<StmtView>::empty();
    assert(sites_stmts(none) == Set::<usize>::empty());
    assert(tidy_stmts(none));
    lemma_block_items(tokens, pos, site, errors, none, site);
}

proof fn lemma_parameters(tokens: Seq<TokenView>, pos: int, parsed: Seq<TokenView>)
    requires
        0 <= pos <= tokens.len(),
    ensures
        pos <= crate::parser::parameters(tokens, pos, parsed).1 <= tokens.len(),
        crate::parser::parameters(tokens, pos, parsed).0 is Err ==> crate::parser::parameters(
            tokens,
            pos,
            parsed,
        ).0->Err_0 is Parser,
    decreases tokens.len() - pos,
{
    if parsed.len() < crate::parser::MAX_ARGUMENTS && check(tokens, pos, TokenType::Identifier)
        && check(tokens, pos + 1, TokenType::Comma) {
        lemma_parameters(
            tokens,
            pos + 2,
            parsed.push(crate::parser::token_at(tokens, pos)),
        );
    }
}

proof fn lemma_function_head(tokens: Seq<TokenView>, pos: int, kind: Seq<char>)
    requires
        0 <= pos <= tokens.len(),
    ensures
        pos <= crate::parser::function_head(tokens, pos, kind).1 <= tokens.len(),
        crate::parser::function_head(tokens, pos, kind).0 is Err ==> crate::parser::function_head(
            tokens,
            pos,
            kind,
        ).0->Err_0 is Parser,
{
    if check(tokens, pos, TokenType::Identifier) && check(tokens, pos + 1, TokenType::LeftParen)
        && !check(tokens, pos + 2, TokenType::RightParen) {
        lemma_parameters(tokens, pos + 2, Seq::empty());
    }
}

proof fn lemma_function(
    tokens: Seq<TokenView>,
    pos: int,
    site: int,
    errors: Seq<LoxResultView>,
    kind: Seq<char>,
)
    requires
        room(tokens, pos, site),
    ensures
        stmt_outcome_ok(tokens, pos, site, errors, function(tokens, pos, site, errors, kind)),
    decreases tokens.len() - pos, 30nat,
{
    lemma_function_head(tokens, pos, kind);
    let head = crate::parser::function_head(tokens, pos, kind);
    match head.0 {
        Err(_) => {},
        Ok(named) => {
            if pos < head.1 <= tokens.len() {
                lemma_block_statement(tokens, head.1, site, errors);
            }
        },
    }
}

proof fn lemma_methods(
    tokens: Seq<TokenView>,
    pos: int,
    site: int,
    errors: Seq<LoxResultView>,
    parsed: Seq<StmtView>,
    lo: int,
)
    requires
        room(tokens, pos, site),
        lo <= site,
        neat_all(parsed, lo, site),
    ensures
        went(tokens, pos, site, methods(tokens, pos, site, errors, parsed).pos, methods(
            tokens,
            pos,
            site,
            errors,
            parsed,
        ).site),
        methods(tokens, pos, site, errors, parsed).result is Ok ==> neat_all(
            methods(tokens, pos, site, errors, parsed).result->Ok_0,
            lo,
            methods(tokens, pos, site, errors, parsed).site,
        ),
        methods(tokens, pos, site, errors, parsed).result is Err ==> methods(tokens, pos, site, errors, parsed).result->Err_0 is Parser,
        diagnostics_only(errors) ==> diagnostics_only(methods(tokens, pos, site, errors, parsed).errors),
    decreases tokens.len() - pos, 35nat,
{
    if !(check(tokens, pos, TokenType::RightBrace) || at_end(tokens, pos)) {
        lemma_function(tokens, pos, site, errors, "method"@);
        let method = function(tokens, pos, site, errors, "method"@);
        match method.result {
            Err(_) => {},
            Ok(m) => {
                if pos < method.pos <= tokens.len() {
                    lemma_stmts_with_one_more(parsed, m);
                    lemma_apart(sites_stmts(parsed), sites_stmt(m), lo, site, method.site);
                    lemma_methods(
                        tokens,
                        method.pos,
                        method.site,
                        method.errors,
                        parsed.push(m),
                        lo,
                    );
                }
            },
        }
    }
}

proof fn lemma_class_declaration(
    tokens: Seq<TokenView>,
    pos: int,
    site: int,
    errors: Seq<LoxResultView>,
)
    requires
        room(tokens, pos, site),
    ensures
        stmt_outcome_ok(tokens, pos, site, errors, class_declaration(tokens, pos, site, errors)),
    decreases tokens.len() - pos, 40nat,
{
    if check(tokens, pos, TokenType::Identifier) && check(tokens, pos + 1, TokenType::LeftBrace) {
        let none = Seq::<StmtView>::empty();
        assert(sites_stmts(none) == Set::<usize>::empty());
        assert(tidy_stmts(none));
        lemma_methods(tokens, pos + 2, site, errors, none, site);
    }
}

proof fn lemma_skip(tokens: Seq<TokenView>, pos: int)
    requires
        0 <= pos <= tokens.len(),
    ensures
        pos <= crate::parser::skip_to_statement(tokens, pos) <= tokens.len(),
    decreases tokens.len() - pos,
{
    if !(at_end(tokens, pos) || crate::parser::kind_at(tokens, pos - 1) == TokenType::Semicolon
        || crate::parser::starts_statement(crate::parser::kind_at(tokens, pos))) {
        lemma_skip(tokens, pos + 1);
    }
}

proof fn lemma_declaration(
    tokens: Seq<TokenView>,
    pos: int,
    site: int,
    errors: Seq<LoxResultView>,
)
    requires
        room(tokens, pos, site),
    ensures
        went(tokens, pos, site, declaration(tokens, pos, site, errors).pos, declaration(
            tokens,
            pos,
            site,
            errors,
        ).site),
        declaration(tokens, pos, site, errors).stmt is Some ==> neat(
            declaration(tokens, pos, site, errors).stmt->0,
            site,
            declaration(tokens, pos, site, errors).site,
        ),
        diagnostics_only(errors) ==> diagnostics_only(declaration(tokens, pos, site, errors).errors),
    decreases tokens.len() - pos, 15nat,
{
    let parsed = if check(tokens, pos, TokenType::Class) {
        lemma_class_declaration(tokens, pos + 1, site, errors);
        class_declaration(tokens, pos + 1, site, errors)
    } else if check(tokens, pos, TokenType::Fun) {
        lemma_function(tokens, pos + 1, site, errors, "function"@);
        function(tokens, pos + 1, site, errors, "function"@)
    } else if check(tokens, pos, TokenType::Var) {
        lemma_var_declaration(tokens, pos + 1, site, errors);
        var_declaration(tokens, pos + 1, site, errors)
    } else {
        lemma_statement(tokens, pos, site, errors);
        statement(tokens, pos, site, errors)
    };
    if parsed.result is Err {
        if !at_end(tokens, parsed.pos) {
            lemma_skip(tokens, parsed.pos + 1);
        }
    }
}

proof fn lemma_program_items(
    tokens: Seq<TokenView>,
    pos: int,
    site: int,
    errors: Seq<LoxResultView>,
    parsed: Seq<StmtView>,
    lo: int,
)
    requires
        room(tokens, pos, site),
        lo <= site,
        neat_all(parsed, lo, site),
    ensures
        neat_all(
            program_items(tokens, pos, site, errors, parsed).stmts,
            lo,
            program_items(tokens, pos, site, errors, parsed).site,
        ),
        site <= program_items(tokens, pos, site, errors, parsed).site <= site + (tokens.len()
            - pos),
        diagnostics_only(errors) ==> diagnostics_only(program_items(tokens, pos, site, errors, parsed).errors),
    decreases tokens.len() - pos,
{
    if !at_end(tokens, pos) {
        lemma_declaration(tokens, pos, site, errors);
        let item = declaration(tokens, pos, site, errors);
        if pos < item.pos <= tokens.len() {
            match item.stmt {
                Some(s) => {
                    lemma_stmts_with_one_more(parsed, s);
                    lemma_apart(sites_stmts(parsed), sites_stmt(s), lo, site, item.site);
                    lemma_program_items(
                        tokens,
                        item.pos,
                        item.site,
                        item.errors,
                        parsed.push(s),
                        lo,
                    );
                },
                None => {
                    lemma_wider(sites_stmts(parsed), lo, site, lo, item.site);
                    lemma_program_items(tokens, item.pos, item.site, item.errors, parsed, lo);
                },
            }
        }
    }
}

/// Every site of a parsed program has a number of its own, not below that
/// of the first site, and the branches of `if` and the bodies of `while` in
/// the program are no declarations.
pub proof fn lemma_parsed_program_is_tidy(tokens: Seq<TokenView>, first_site: int)
    requires
        0 <= first_site,
        first_site + tokens.len() <= usize::MAX,
    ensures
        tidy_stmts(program_items(tokens, 0, first_site, Seq::empty(), Seq::empty()).stmts),
        within(
            sites_stmts(program_items(tokens, 0, first_site, Seq::empty(), Seq::empty()).stmts),
            first_site,
            program_items(tokens, 0, first_site, Seq::empty(), Seq::empty()).site,
        ),
        diagnostics_only(program_items(tokens, 0, first_site, Seq::empty(), Seq::empty()).errors),
        first_site <= program_items(tokens, 0, first_site, Seq::empty(), Seq::empty()).site
            <= first_site + tokens.len(),
{
    let none = Seq::<StmtView>::empty();
    assert(sites_stmts(none) == Set::<usize>::empty());
    assert(tidy_stmts(none));
    lemma_program_items(tokens, 0, first_site, Seq::empty(), none, first_site);
}


} // verus!
