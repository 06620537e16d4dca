use rs_lox_tw::ast_printer::AstPrinter;
use rs_lox_tw::errors::{LoxResult, ParserErrorType};
use rs_lox_tw::expr::Expr;
use rs_lox_tw::object::Object;
use rs_lox_tw::parser::Parser;
use rs_lox_tw::scanner::Scanner;
use rs_lox_tw::stmt::Stmt;
use rs_lox_tw::text::Piece;
use rs_lox_tw::token::Token;
use rs_lox_tw::token_type::TokenType;

fn tokens_of(source: &str) -> Vec<Token> {
    let mut scanner = Scanner::new(source.to_string());
    scanner.scan_tokens().unwrap().clone()
}

fn parse_source(source: &str) -> Result<Vec<Stmt>, LoxResult> {
    let tokens = tokens_of(source);
    let mut parser = Parser::new(&tokens);
    parser.parse()
}

fn diagnostics_of(source: &str) -> Vec<LoxResult> {
    let tokens = tokens_of(source);
    let mut parser = Parser::new(&tokens);
    let _ = parser.parse();
    parser.errors
}

fn in_text(pieces: &[Piece]) -> String {
    let mut out = String::new();
    for piece in pieces {
        match piece {
            Piece::Text(text) => out.push_str(text),
            Piece::Number(bits) => out.push_str(&format!("{}", f64::from_bits(*bits))),
        }
    }
    out
}

fn printed(source: &str) -> String {
    let statements = parse_source(source).unwrap();
    assert_eq!(statements.len(), 1);
    match &statements[0] {
        Stmt::Expression { expression } => in_text(&AstPrinter.print(expression)),
        other => panic!("not an expression statement: {:?}", other),
    }
}

fn kind_of(error: &LoxResult) -> ParserErrorType {
    match error {
        LoxResult::Parser { error_type, .. } => *error_type,
        other => panic!("not a diagnostic of the parser: {:?}", other),
    }
}

#[test]
fn binds_the_star_tighter_than_the_plus() {
    assert_eq!(printed("1 + 2 * 3;"), "(+ 1 (* 2 3))");
    assert_eq!(printed("1 * 2 + 3;"), "(+ (* 1 2) 3)");
}

#[test]
fn joins_operators_of_one_level_from_the_left() {
    assert_eq!(printed("1 - 2 - 3;"), "(- (- 1 2) 3)");
    assert_eq!(printed("8 / 4 / 2;"), "(/ (/ 8 4) 2)");
    assert_eq!(printed("1 < 2 <= 3;"), "(<= (< 1 2) 3)");
    assert_eq!(printed("1 == 2 != 3;"), "(!= (== 1 2) 3)");
    assert_eq!(printed("a or b or c;"), "(or (or a b) c)");
    assert_eq!(printed("a and b and c;"), "(and (and a b) c)");
}

#[test]
fn follows_the_ladder_of_precedence() {
    assert_eq!(
        printed("a = b or c and d == e < f + g * -h;"),
        "(= a (or b (and c (== d (< e (+ f (* g (- h))))))))"
    );
    assert_eq!(printed("!-!a;"), "(! (- (! a)))");
    assert_eq!(printed("(1 + 2) * 3;"), "(* (group (+ 1 2)) 3)");
}

#[test]
fn assigns_from_the_right() {
    assert_eq!(printed("a = b = 3;"), "(= a (= b 3))");
}

#[test]
fn turns_a_property_on_the_left_into_a_set() {
    assert_eq!(printed("a.b = 3;"), "(set b a 3)");
    assert_eq!(printed("a.b.c = d.e;"), "(set c (get b a) (get e d))");
}

#[test]
fn chains_calls_and_properties() {
    assert_eq!(printed("a.b(c).d;"), "(get d (call (get b a) c))");
    assert_eq!(printed("f()();"), "(call (call f))");
    assert_eq!(printed("f(1, 2)(3);"), "(call (call f 1 2) 3)");
}

#[test]
fn prints_literals_and_this() {
    assert_eq!(printed("nil;"), "nil");
    assert_eq!(printed("true;"), "true");
    assert_eq!(printed("false;"), "false");
    assert_eq!(printed("\"hi\";"), "\"hi\"");
    assert_eq!(printed("2.5;"), "2.5");
    assert_eq!(printed("this;"), "this");
    assert_eq!(printed("this.x;"), "(get x this)");
}

#[test]
fn parenthesizes_a_name_and_its_operands() {
    let one = Expr::Literal { value: Some(Object::Num(1.0f64.to_bits())) };
    let nothing = Expr::Literal { value: None };
    let name = Expr::Variable {
        name: Token::identifier(1, 0, 1, TokenType::Identifier, "x"),
        site: 0,
    };
    assert_eq!(in_text(&AstPrinter.parenthesize("f", &[])), "(f)");
    assert_eq!(in_text(&AstPrinter.parenthesize("f", &[&one])), "(f 1)");
    assert_eq!(in_text(&AstPrinter.parenthesize("add", &[&one, &name, &nothing])), "(add 1 x nil)");
    assert_eq!(
        AstPrinter.parenthesize("f", &[&one]),
        vec![
            Piece::Text("(f".to_string()),
            Piece::Text(" ".to_string()),
            Piece::Number(1.0f64.to_bits()),
            Piece::Text(")".to_string())
        ]
    );
}

#[test]
fn numbers_the_sites_in_order() {
    let statements = parse_source("a = b + this.c;").unwrap();
    match &statements[0] {
        Stmt::Expression { expression: Expr::Assign { site, value, .. } } => {
            assert_eq!(*site, 0);
            match &**value {
                Expr::Binary { left, right, .. } => {
                    assert!(matches!(&**left, Expr::Variable { site: 1, .. }));
                    match &**right {
                        Expr::Get { object, .. } => {
                            assert!(matches!(&**object, Expr::This { site: 2, .. }))
                        }
                        other => panic!("{:?}", other),
                    }
                }
                other => panic!("{:?}", other),
            }
        }
        other => panic!("{:?}", other),
    }
    let tokens = tokens_of("x;");
    let mut parser = Parser::starting_at(&tokens, 40);
    let later = parser.parse().unwrap();
    assert!(matches!(
        &later[0],
        Stmt::Expression { expression: Expr::Variable { site: 40, .. } }
    ));
    assert_eq!(parser.next_site, 41);
}

#[test]
fn refuses_an_assignment_to_what_is_no_variable() {
    let errors = diagnostics_of("1 = 2;");
    assert_eq!(errors.len(), 1);
    match &errors[0] {
        LoxResult::Parser { token, error_type, .. } => {
            assert_eq!(*error_type, ParserErrorType::InvalidAssignTarget);
            assert_eq!(token.ttype, TokenType::Equal);
            assert_eq!(token.src_start, 2);
        }
        other => panic!("{:?}", other),
    }
    assert_eq!(kind_of(&parse_source("a + b = c;").unwrap_err()), ParserErrorType::InvalidAssignTarget);
    assert_eq!(kind_of(&parse_source("(a) = 1;").unwrap_err()), ParserErrorType::InvalidAssignTarget);
    assert_eq!(kind_of(&parse_source("f() = 1;").unwrap_err()), ParserErrorType::InvalidAssignTarget);
}

#[test]
fn asks_for_an_expression_where_none_starts() {
    let error = parse_source("print ;").unwrap_err();
    match &error {
        LoxResult::Parser { token, error_type, msg } => {
            assert_eq!(*error_type, ParserErrorType::ExpectedExpression);
            assert_eq!(token.ttype, TokenType::Semicolon);
            assert_eq!(msg, "");
        }
        other => panic!("{:?}", other),
    }
    assert_eq!(kind_of(&parse_source("1 +").unwrap_err()), ParserErrorType::ExpectedExpression);
    assert_eq!(kind_of(&parse_source(")").unwrap_err()), ParserErrorType::ExpectedExpression);
}

#[test]
fn asks_for_the_token_that_is_missing() {
    let error = parse_source("print 1").unwrap_err();
    match &error {
        LoxResult::Parser { token, error_type, msg } => {
            assert_eq!(*error_type, ParserErrorType::InvalidConsumeType);
            assert_eq!(token.ttype, TokenType::Eof);
            assert_eq!(msg, "Expected ';' after value.");
        }
        other => panic!("{:?}", other),
    }
    let messages: Vec<(&str, &str)> = vec![
        ("1", "Expected ';' after expression."),
        ("(1;", "Expected ')' after expression."),
        ("f(1;", "Expected closing ')' after argument list."),
        ("a.1;", "Expected identifier after class calling '.'."),
        ("var 1;", "Expected variable name."),
        ("var a = 1", "Expected ';' after variable declaration."),
        ("var a 1;", "Expected ';' after variable declaration."),
        ("{ 1;", "Missing scope ending right brace '}'."),
        ("if 1) 2;", "Expected '(' after 'if' statement."),
        ("if (1 2;", "Missing closing ')' after if condition."),
        ("while 1) 2;", "Expected '(' after while statement."),
        ("while (1 2;", "Expected closing ')' after while statement."),
        ("for 1;", "Expected opening '(' after 'for' statement."),
        ("for (;1 2;) 3;", "Expected ';' after loop condition."),
        ("for (;; 1 2) 3;", "Expected closing ')' after for statement."),
        ("return 1", "Expected ';' after return statement."),
        ("fun 1() {}", "Expected function name."),
        ("fun f {}", "Expected opening '(' after function name"),
        ("fun f(1) {}", "Expected parameter name here."),
        ("fun f(a {}", "Expected closing ')' after parameters."),
        ("fun f() 1;", "Expected '{' before function body"),
        ("class 1 {}", "Expected class name."),
        ("class C }", "Expected opening '{' before class 'C' body."),
        ("class C { 1 }", "Expected method name."),
        ("class C { m {} }", "Expected opening '(' after method name"),
        ("class C { m() 1 }", "Expected '{' before method body"),
        ("class C { m() {}", "Expected closing '}' at the end of the class 'C' body."),
    ];
    for (source, expected) in messages {
        match parse_source(source).unwrap_err() {
            LoxResult::Parser { error_type, msg, .. } => {
                assert_eq!(error_type, ParserErrorType::InvalidConsumeType, "{}", source);
                assert_eq!(msg, expected, "{}", source);
            }
            other => panic!("{:?}", other),
        }
    }
}

fn call_with(arguments: usize) -> String {
    let list: Vec<String> = (0..arguments).map(|i| format!("a{}", i)).collect();
    format!("f({});", list.join(", "))
}

#[test]
fn caps_the_arguments_of_a_call() {
    let statements = parse_source(&call_with(255)).unwrap();
    match &statements[0] {
        Stmt::Expression { expression: Expr::Call { arguments, .. } } => {
            assert_eq!(arguments.len(), 255)
        }
        other => panic!("{:?}", other),
    }
    match parse_source(&call_with(256)).unwrap_err() {
        LoxResult::Parser { token, error_type, .. } => {
            assert_eq!(error_type, ParserErrorType::MaxArgNumber);
            assert_eq!(token.lexeme, "a255");
        }
        other => panic!("{:?}", other),
    }
}

#[test]
fn caps_the_parameters_of_a_function() {
    let list: Vec<String> = (0..256).map(|i| format!("p{}", i)).collect();
    let too_many = format!("fun f({}) {{}}", list.join(", "));
    match parse_source(&too_many).unwrap_err() {
        LoxResult::Parser { token, error_type, .. } => {
            assert_eq!(error_type, ParserErrorType::MaxArgNumber);
            assert_eq!(token.lexeme, "p255");
        }
        other => panic!("{:?}", other),
    }
    let just_enough = format!("fun f({}) {{}}", list[..255].join(", "));
    match &parse_source(&just_enough).unwrap()[0] {
        Stmt::Function { params, .. } => assert_eq!(params.len(), 255),
        other => panic!("{:?}", other),
    }
}

#[test]
fn parses_declarations_of_variables() {
    let statements = parse_source("var a; var b = 1;").unwrap();
    assert!(matches!(&statements[0], Stmt::Var { initializer: None, .. }));
    match &statements[1] {
        Stmt::Var { name, initializer: Some(value) } => {
            assert_eq!(name.lexeme, "b");
            assert_eq!(in_text(&AstPrinter.print(value)), "1");
        }
        other => panic!("{:?}", other),
    }
}

#[test]
fn attaches_an_else_to_the_nearest_if() {
    let statements = parse_source("if (a) if (b) 1; else 2;").unwrap();
    match &statements[0] {
        Stmt::If { then_branch, else_branch, .. } => {
            assert!(else_branch.is_none());
            match &**then_branch {
                Stmt::If { else_branch, .. } => assert!(else_branch.is_some()),
                other => panic!("{:?}", other),
            }
        }
        other => panic!("{:?}", other),
    }
}

#[test]
fn parses_a_while_statement() {
    let statements = parse_source("while (a < 3) a = a + 1;").unwrap();
    match &statements[0] {
        Stmt::While { condition, body } => {
            assert_eq!(in_text(&AstPrinter.print(condition)), "(< a 3)");
            assert!(matches!(&**body, Stmt::Expression { .. }));
        }
        other => panic!("{:?}", other),
    }
}

#[test]
fn turns_a_for_statement_into_a_while_statement() {
    let statements = parse_source("for (var i = 0; i < 3; i = i + 1) print i;").unwrap();
    assert_eq!(statements.len(), 1);
    match &statements[0] {
        Stmt::Block { statements } => {
            assert_eq!(statements.len(), 2);
            assert!(matches!(&statements[0], Stmt::Var { .. }));
            match &statements[1] {
                Stmt::While { condition, body } => {
                    assert_eq!(in_text(&AstPrinter.print(condition)), "(< i 3)");
                    match &**body {
                        Stmt::Block { statements } => {
                            assert_eq!(statements.len(), 2);
                            assert!(matches!(&statements[0], Stmt::Print { .. }));
                            match &statements[1] {
                                Stmt::Expression { expression } => assert_eq!(
                                    in_text(&AstPrinter.print(expression)),
                                    "(= i (+ i 1))"
                                ),
                                other => panic!("{:?}", other),
                            }
                        }
                        other => panic!("{:?}", other),
                    }
                }
                other => panic!("{:?}", other),
            }
        }
        other => panic!("{:?}", other),
    }
}

#[test]
fn lets_every_clause_of_a_for_statement_be_left_out() {
    match &parse_source("for (;;) print 1;").unwrap()[0] {
        Stmt::While { condition, body } => {
            assert!(matches!(condition, Expr::Literal { value: Some(Object::True) }));
            assert!(matches!(&**body, Stmt::Print { .. }));
        }
        other => panic!("{:?}", other),
    }
    match &parse_source("for (i = 0;;) print 1;").unwrap()[0] {
        Stmt::Block { statements } => {
            assert!(matches!(&statements[0], Stmt::Expression { .. }));
            assert!(matches!(&statements[1], Stmt::While { .. }));
        }
        other => panic!("{:?}", other),
    }
    match &parse_source("for (; i < 2;) print 1;").unwrap()[0] {
        Stmt::While { condition, .. } => {
            assert_eq!(in_text(&AstPrinter.print(condition)), "(< i 2)")
        }
        other => panic!("{:?}", other),
    }
}

#[test]
fn parses_functions_and_classes() {
    let statements = parse_source(
        "fun add(a, b) { return a + b; } class C { init(x) { this.x = x; } get() { return this.x; } }",
    )
    .unwrap();
    match &statements[0] {
        Stmt::Function { name, params, body } => {
            assert_eq!(name.lexeme, "add");
            assert_eq!(params.len(), 2);
            assert_eq!(params[1].lexeme, "b");
            assert_eq!(body.len(), 1);
            match &body[0] {
                Stmt::Return { keyword, value } => {
                    assert_eq!(keyword.ttype, TokenType::Return);
                    assert!(value.is_some());
                }
                other => panic!("{:?}", other),
            }
        }
        other => panic!("{:?}", other),
    }
    match &statements[1] {
        Stmt::Class { name, methods } => {
            assert_eq!(name.lexeme, "C");
            assert_eq!(methods.len(), 2);
            assert!(matches!(&methods[0], Stmt::Function { .. }));
        }
        other => panic!("{:?}", other),
    }
    assert!(matches!(
        &parse_source("return;").unwrap()[0],
        Stmt::Return { value: None, .. }
    ));
}

#[test]
fn goes_on_after_a_diagnostic_and_keeps_them_all() {
    let errors = diagnostics_of("var 1 = 2; print 3; var = 4; print (5;");
    assert_eq!(errors.len(), 3);
    let tokens = tokens_of("var 1 = 2; print 3; var = 4; print 5;");
    let mut parser = Parser::new(&tokens);
    let first = parser.parse().unwrap_err();
    assert_eq!(parser.errors.len(), 2);
    assert_eq!(first, parser.errors[0]);
    match &first {
        LoxResult::Parser { token, msg, .. } => {
            assert_eq!(token.ttype, TokenType::Number);
            assert_eq!(msg, "Expected variable name.");
        }
        other => panic!("{:?}", other),
    }
}

#[test]
fn resumes_at_the_next_statement() {
    let errors = diagnostics_of("print 1 2 3 var a = 1; print );");
    assert_eq!(errors.len(), 2);
    match &errors[1] {
        LoxResult::Parser { token, error_type, .. } => {
            assert_eq!(*error_type, ParserErrorType::ExpectedExpression);
            assert_eq!(token.ttype, TokenType::RightParen);
        }
        other => panic!("{:?}", other),
    }
    let inside = diagnostics_of("{ var 1; print 2; } print 3;");
    assert_eq!(inside.len(), 1);
}

#[test]
fn takes_tokens_without_an_end_as_ended() {
    let mut tokens = tokens_of("print 1;");
    tokens.pop();
    let mut parser = Parser::new(&tokens);
    assert_eq!(parser.parse().unwrap().len(), 1);
    let none: Vec<Token> = Vec::new();
    let mut empty = Parser::new(&none);
    assert_eq!(empty.parse().unwrap().len(), 0);
    let mut cut = tokens_of("print 1;");
    cut.truncate(2);
    let mut short = Parser::new(&cut);
    match short.parse().unwrap_err() {
        LoxResult::Parser { token, msg, .. } => {
            assert_eq!(token.ttype, TokenType::Eof);
            assert_eq!(msg, "Expected ';' after value.");
        }
        other => panic!("{:?}", other),
    }
}

#[test]
fn matches_one_of_several_kinds() {
    let tokens = tokens_of("+ 1");
    let mut parser = Parser::new(&tokens);
    assert!(!parser.matchs_next(&[TokenType::Minus, TokenType::Star]));
    assert_eq!(parser.current, 0);
    assert!(parser.matchs_next(&[TokenType::Minus, TokenType::Plus]));
    assert_eq!(parser.current, 1);
    assert!(!parser.matchs_next(&[]));
    assert!(parser.matchs_next(&[TokenType::Number]));
    assert!(!parser.matchs_next(&[TokenType::Eof]));
    assert_eq!(parser.current, 2);
}
