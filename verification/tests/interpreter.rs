use rs_lox_tw::environment::Environment;
use rs_lox_tw::errors::{EnvironmentErrorType, LoxResult, RuntimeErrorType};
use rs_lox_tw::interpreter::{binary_operation, unary_operation, Interpreter};
use rs_lox_tw::lox_callable::LoxCallable;
use rs_lox_tw::lox_native::NativeFunction;
use rs_lox_tw::native_functions::{clock_seconds, NativeClock};
use rs_lox_tw::object::Object;
use rs_lox_tw::parser::Parser;
use rs_lox_tw::resolver::Resolver;
use rs_lox_tw::scanner::Scanner;
use rs_lox_tw::stmt::Stmt;
use rs_lox_tw::text::Piece;
use rs_lox_tw::token::Token;
use rs_lox_tw::token_type::TokenType;

fn shown(pieces: &[Piece]) -> String {
    let mut out = String::new();
    for piece in pieces {
        match piece {
            Piece::Text(text) => out.push_str(text),
            Piece::Number(bits) => out.push_str(&format!("{}", f64::from_bits(*bits))),
        }
    }
    out
}

fn program(source: &str) -> Vec<Stmt> {
    let mut scanner = Scanner::new(source.to_string());
    let tokens = scanner.scan_tokens().unwrap().clone();
    let mut parser = Parser::new(&tokens);
    parser.parse().unwrap()
}

fn run_in(interpreter: &mut Interpreter, source: &str, first_site: usize) -> Result<(), LoxResult> {
    let mut scanner = Scanner::new(source.to_string());
    let tokens = scanner.scan_tokens()?.clone();
    let mut parser = Parser::starting_at(&tokens, first_site);
    let statements = parser.parse()?;
    let mut resolver = Resolver::new();
    resolver.resolve_stmts(&statements, interpreter)?;
    interpreter.interpret(&statements)
}

fn run(source: &str) -> (Result<(), LoxResult>, Vec<String>) {
    let mut interpreter = Interpreter::new();
    let result = run_in(&mut interpreter, source, 0);
    let lines = interpreter.output.iter().map(|line| shown(line)).collect();
    (result, lines)
}

fn prints(source: &str) -> Vec<String> {
    let (result, lines) = run(source);
    assert_eq!(result, Ok(()), "{}", source);
    lines
}

fn fails(source: &str) -> LoxResult {
    run(source).0.unwrap_err()
}

fn runtime_kind(source: &str) -> RuntimeErrorType {
    match fails(source) {
        LoxResult::Runtime { error_type, .. } => error_type,
        other => panic!("no runtime error: {:?}", other),
    }
}

fn operator(ttype: TokenType, text: &str) -> Token {
    Token::identifier(1, 0, 1, ttype, text)
}

fn number(value: f64) -> Object {
    Object::Num(value.to_bits())
}

fn text(value: &str) -> Object {
    Object::Str(value.to_string())
}

#[test]
fn evaluates_with_precedence() {
    assert_eq!(prints("print 1 + 2 * 3;"), vec!["7"]);
    assert_eq!(prints("print (1 + 2) * 3;"), vec!["9"]);
    assert_eq!(prints("print 10 - 4 - 3;"), vec!["3"]);
    assert_eq!(prints("print 8 / 4 / 2;"), vec!["1"]);
    assert_eq!(prints("print -2 * 3;"), vec!["-6"]);
}

#[test]
fn computes_with_doubles() {
    assert_eq!(prints("print 0.1 + 0.2;"), vec!["0.30000000000000004"]);
    assert_eq!(prints("print 1 / 3;"), vec![format!("{}", 1.0f64 / 3.0)]);
    assert_eq!(prints("print 7 / 2;"), vec!["3.5"]);
    assert_eq!(prints("print 2.5 * 4;"), vec!["10"]);
    assert_eq!(prints("print 1 - 2.25;"), vec!["-1.25"]);
    assert_eq!(prints("print 1 / 0;"), vec!["inf"]);
    assert_eq!(prints("print -1 / 0;"), vec!["-inf"]);
    assert_eq!(prints("print 0 / 0 == 0 / 0;"), vec!["false"]);
    assert_eq!(prints("print 123456789 * 987654321;"), vec![format!("{}", 123456789.0f64 * 987654321.0)]);
}

#[test]
fn applies_each_binary_operator() {
    let cases: Vec<(TokenType, &str, f64, f64, Object)> = vec![
        (TokenType::Plus, "+", 1.5, 2.0, number(3.5)),
        (TokenType::Minus, "-", 1.5, 2.0, number(-0.5)),
        (TokenType::Star, "*", 1.5, 2.0, number(3.0)),
        (TokenType::Slash, "/", 1.5, 2.0, number(0.75)),
        (TokenType::Greater, ">", 1.5, 2.0, Object::False),
        (TokenType::Greater, ">", 2.0, 1.5, Object::True),
        (TokenType::Greater, ">", 2.0, 2.0, Object::False),
        (TokenType::GreaterEqual, ">=", 2.0, 2.0, Object::True),
        (TokenType::GreaterEqual, ">=", 1.0, 2.0, Object::False),
        (TokenType::Less, "<", 1.5, 2.0, Object::True),
        (TokenType::Less, "<", 2.0, 2.0, Object::False),
        (TokenType::LessEqual, "<=", 2.0, 2.0, Object::True),
        (TokenType::LessEqual, "<=", 3.0, 2.0, Object::False),
        (TokenType::Less, "<", f64::NAN, 2.0, Object::False),
        (TokenType::GreaterEqual, ">=", f64::NAN, 2.0, Object::False),
        (TokenType::EqualEqual, "==", 2.0, 2.0, Object::True),
        (TokenType::BangEqual, "!=", 2.0, 2.0, Object::False),
        (TokenType::BangEqual, "!=", 2.0, 3.0, Object::True),
    ];
    for (ttype, lexeme, a, b, expected) in cases {
        let result = binary_operation(&operator(ttype, lexeme), number(a), number(b)).unwrap();
        match (&result, &expected) {
            (Object::Num(x), Object::Num(y)) => assert_eq!(x, y, "{} {} {}", a, lexeme, b),
            _ => assert_eq!(result, expected, "{} {} {}", a, lexeme, b),
        }
    }
}

#[test]
fn joins_strings_with_the_plus() {
    assert_eq!(
        binary_operation(&operator(TokenType::Plus, "+"), text("ab"), text("cd")).unwrap(),
        text("abcd")
    );
    assert_eq!(prints("print \"ab\" + \"cd\" + \"\";"), vec!["\"abcd\""]);
}

#[test]
fn refuses_operands_of_the_wrong_kind() {
    assert_eq!(runtime_kind("print 1 + \"a\";"), RuntimeErrorType::ExpectedAddableOperands);
    assert_eq!(runtime_kind("print \"a\" + 1;"), RuntimeErrorType::ExpectedAddableOperands);
    assert_eq!(runtime_kind("print nil + nil;"), RuntimeErrorType::ExpectedAddableOperands);
    assert_eq!(runtime_kind("print 1 - \"a\";"), RuntimeErrorType::ExpectedNumberOperands);
    assert_eq!(runtime_kind("print \"a\" * 2;"), RuntimeErrorType::ExpectedNumberOperands);
    assert_eq!(runtime_kind("print true / 2;"), RuntimeErrorType::ExpectedNumberOperands);
    assert_eq!(runtime_kind("print \"a\" < \"b\";"), RuntimeErrorType::ExpectedNumberOperands);
    assert_eq!(runtime_kind("print 1 >= nil;"), RuntimeErrorType::ExpectedNumberOperands);
    assert_eq!(runtime_kind("print -\"a\";"), RuntimeErrorType::ExpectedNumberOperand);
    assert_eq!(runtime_kind("print -nil;"), RuntimeErrorType::ExpectedNumberOperand);
    match fails("print 1 +\n true;") {
        LoxResult::Runtime { token, .. } => {
            assert_eq!(token.ttype, TokenType::Plus);
            assert_eq!(token.src_line, 1);
        }
        other => panic!("{:?}", other),
    }
}

#[test]
fn reports_an_operator_that_is_none() {
    let comma = operator(TokenType::Comma, ",");
    assert_eq!(
        binary_operation(&comma, number(1.0), number(2.0)),
        Err(LoxResult::Runtime { token: comma.clone(), error_type: RuntimeErrorType::UnreachableCode })
    );
    assert_eq!(
        unary_operation(&comma, number(1.0)),
        Err(LoxResult::Runtime { token: comma, error_type: RuntimeErrorType::UnreachableCode })
    );
}

#[test]
fn applies_each_unary_operator() {
    assert_eq!(unary_operation(&operator(TokenType::Minus, "-"), number(2.0)).unwrap(), number(-2.0));
    assert_eq!(unary_operation(&operator(TokenType::Bang, "!"), Object::Nil).unwrap(), Object::True);
    assert_eq!(unary_operation(&operator(TokenType::Bang, "!"), number(0.0)).unwrap(), Object::False);
    assert_eq!(prints("print !true; print !nil; print !0; print !\"\"; print !!nil;"), vec![
        "false", "true", "false", "false", "false"
    ]);
    assert_eq!(prints("print --3;"), vec!["3"]);
}

#[test]
fn compares_any_two_values_for_equality() {
    assert_eq!(
        prints(
            "print 1 == 1; print 1 == 2; print \"a\" == \"a\"; print \"a\" == \"b\"; print nil == nil; \
             print true == true; print true == false; print 1 == \"1\"; print nil == false; print 1 != 2;"
        ),
        vec!["true", "false", "true", "false", "true", "true", "false", "false", "false", "true"]
    );
    assert_eq!(prints("fun f() {} print f == f; class C {} print C == C; var c = C(); print c == c;"), vec![
        "false", "false", "false"
    ]);
}

#[test]
fn takes_only_nil_and_false_for_false() {
    assert_eq!(
        prints(
            "if (0) print \"zero\"; if (\"\") print \"empty\"; if (nil) print \"nil\"; else print \"not nil\"; \
             if (false) print \"false\"; else print \"not false\";"
        ),
        vec!["\"zero\"", "\"empty\"", "\"not nil\"", "\"not false\""]
    );
    let interpreter = Interpreter::new();
    assert!(interpreter.is_truthy(number(0.0)));
    assert!(!interpreter.is_truthy(Object::Nil));
    assert!(!interpreter.is_truthy(Object::False));
}

#[test]
fn gives_the_operand_itself_from_a_logical_operator() {
    assert_eq!(
        prints(
            "print nil or \"yes\"; print 1 or 2; print false or nil; print nil and 1; print 1 and 2; \
             print false and 1; print 0 and \"x\";"
        ),
        vec!["\"yes\"", "1", "nil", "nil", "2", "false", "\"x\""]
    );
}

#[test]
fn leaves_the_right_operand_alone_when_the_left_decides() {
    assert_eq!(
        prints(
            "var a = 0; fun touch() { a = a + 1; return true; } \
             true or touch(); false and touch(); print a; false or touch(); true and touch(); print a;"
        ),
        vec!["0", "2"]
    );
}

#[test]
fn declares_and_assigns_variables() {
    assert_eq!(prints("var a; print a; a = 2; print a; var b = a + 1; print b;"), vec!["nil", "2", "3"]);
    assert_eq!(prints("var a = 1; print a = 5; print a;"), vec!["5", "5"]);
    assert_eq!(prints("var a = 1; var a = 2; print a;"), vec!["2"]);
}

#[test]
fn refuses_a_variable_that_nothing_declares() {
    match fails("print nothing;") {
        LoxResult::Environment { error_type, msg } => {
            assert_eq!(error_type, EnvironmentErrorType::UnknownVariable);
            assert_eq!(msg, "Line 1 [6:13] -> No such variable 'nothing'.");
        }
        other => panic!("{:?}", other),
    }
    match fails("nothing = 1;") {
        LoxResult::Environment { error_type, msg } => {
            assert_eq!(error_type, EnvironmentErrorType::UnknownVariable);
            assert_eq!(msg, "Cannot assign value to unknown variable 'nothing'.");
        }
        other => panic!("{:?}", other),
    }
    assert!(matches!(fails("var a = a;"), LoxResult::Environment { .. }));
    assert!(matches!(fails("{ nothing = 1; }"), LoxResult::Environment { .. }));
}

#[test]
fn assigns_to_a_local_within_its_own_initializer() {
    assert_eq!(prints("{ var a = (a = 1) + 1; print a; }"), vec!["2"]);
}

#[test]
fn keeps_the_variables_of_a_block_to_the_block() {
    assert_eq!(
        prints("var a = 1; { var a = 2; print a; { var a = 3; print a; } print a; } print a;"),
        vec!["2", "3", "2", "1"]
    );
    assert_eq!(prints("var a = 1; { a = 2; var b = a; print b; } print a;"), vec!["2", "2"]);
    assert!(matches!(fails("{ var a = 1; } print a;"), LoxResult::Environment { .. }));
}

#[test]
fn steps_back_out_of_a_block_after_an_error() {
    let mut interpreter = Interpreter::new();
    assert!(run_in(&mut interpreter, "{ { var a = 1; print a + nil; } }", 0).is_err());
    assert_eq!(interpreter.environment, 0);
    assert_eq!(run_in(&mut interpreter, "var b = 2; print b;", 100), Ok(()));
    assert_eq!(shown(&interpreter.output[0]), "2");
}

#[test]
fn branches_on_a_condition() {
    assert_eq!(
        prints("if (1 < 2) print \"a\"; else print \"b\"; if (2 < 1) print \"c\"; else print \"d\"; if (nil) print \"e\";"),
        vec!["\"a\"", "\"d\""]
    );
}

#[test]
fn repeats_while_the_condition_holds() {
    assert_eq!(prints("var i = 0; while (i < 3) { print i; i = i + 1; } print i;"), vec![
        "0", "1", "2", "3"
    ]);
    assert_eq!(prints("while (false) print 1;"), Vec::<String>::new());
    assert_eq!(prints("var n = 0; var i = 0; while (i < 1000) { n = n + i; i = i + 1; } print n;"), vec![
        "499500"
    ]);
}

#[test]
fn runs_a_for_statement() {
    assert_eq!(prints("for (var i = 0; i < 3; i = i + 1) print i;"), vec!["0", "1", "2"]);
    assert_eq!(prints("var i = 5; for (; i < 7;) { print i; i = i + 1; }"), vec!["5", "6"]);
    assert_eq!(prints("var s = 0; for (var i = 1; i <= 4; i = i + 1) { s = s + i; } print s;"), vec!["10"]);
    assert!(matches!(fails("for (var i = 0; i < 1; i = i + 1) {} print i;"), LoxResult::Environment { .. }));
}

#[test]
fn calls_functions() {
    assert_eq!(prints("fun add(a, b) { return a + b; } print add(1, 2);"), vec!["3"]);
    assert_eq!(prints("fun f() { print 1; } print f();"), vec!["1", "nil"]);
    assert_eq!(prints("fun f() { return; } print f();"), vec!["nil"]);
    assert_eq!(prints("fun f(a) { a = a + 1; return a; } var x = 1; print f(x); print x;"), vec!["2", "1"]);
    assert_eq!(prints("fun f() {} print f;"), vec!["<fn f()>"]);
    assert_eq!(prints("fun f(a, b, c) {} print f;"), vec!["<fn f(a, b, c)>"]);
}

#[test]
fn evaluates_the_arguments_from_the_left() {
    assert_eq!(
        prints("fun show(x) { print x; return x; } fun f(a, b, c) { return a + b + c; } print f(show(1), show(2), show(3));"),
        vec!["1", "2", "3", "6"]
    );
}

#[test]
fn returns_through_blocks_and_loops() {
    assert_eq!(
        prints("fun find() { var i = 0; while (true) { { if (i == 3) return i; } i = i + 1; } } print find(); var after = 1; print after;"),
        vec!["3", "1"]
    );
    let mut interpreter = Interpreter::new();
    assert_eq!(run_in(&mut interpreter, "fun f() { { { return 1; } } } f();", 0), Ok(()));
    assert_eq!(interpreter.environment, 0);
}

#[test]
fn recurses() {
    assert_eq!(
        prints("fun fib(n) { if (n < 2) return n; return fib(n - 1) + fib(n - 2); } print fib(15);"),
        vec!["610"]
    );
    assert_eq!(
        prints("fun count(n) { if (n == 0) return 0; return 1 + count(n - 1); } print count(200);"),
        vec!["200"]
    );
}

#[test]
fn closes_over_the_environment_of_the_declaration() {
    assert_eq!(
        prints(
            "fun counter() { var n = 0; fun next() { n = n + 1; return n; } return next; } \
             var a = counter(); var b = counter(); print a(); print a(); print b(); print a();"
        ),
        vec!["1", "2", "1", "3"]
    );
    assert_eq!(
        prints("var a = \"global\"; { fun show() { print a; } show(); var a = \"block\"; show(); }"),
        vec!["\"global\"", "\"global\""]
    );
}

#[test]
fn gives_each_round_of_a_loop_its_own_environment() {
    assert_eq!(
        prints(
            "var first; var second; var third; \
             for (var i = 0; i < 3; i = i + 1) { var j = i; fun f() { print j; } \
               if (i == 0) first = f; if (i == 1) second = f; if (i == 2) third = f; } \
             first(); second(); third();"
        ),
        vec!["0", "1", "2"]
    );
    assert_eq!(
        prints(
            "var a; var b; var i = 0; \
             while (i < 2) { var mine = i * 10; fun f() { return mine; } if (i == 0) a = f; else b = f; i = i + 1; } \
             print a(); print b();"
        ),
        vec!["0", "10"]
    );
}

#[test]
fn refuses_a_call_with_the_wrong_number_of_arguments() {
    assert_eq!(runtime_kind("fun f(a, b) {} f(1);"), RuntimeErrorType::InvalidArgsCount);
    assert_eq!(runtime_kind("fun f(a, b) {} f(1, 2, 3);"), RuntimeErrorType::InvalidArgsCount);
    assert_eq!(runtime_kind("fun f() {} f(1);"), RuntimeErrorType::InvalidArgsCount);
    assert_eq!(runtime_kind("class C { init(x) {} } C();"), RuntimeErrorType::InvalidArgsCount);
    assert_eq!(runtime_kind("class C {} C(1);"), RuntimeErrorType::InvalidArgsCount);
    assert_eq!(runtime_kind("clock(1);"), RuntimeErrorType::InvalidArgsCount);
    match fails("fun f(a) {}\nf(1, 2);") {
        LoxResult::Runtime { token, error_type } => {
            assert_eq!(error_type, RuntimeErrorType::InvalidArgsCount);
            assert_eq!(token.ttype, TokenType::RightParen);
            assert_eq!(token.src_line, 2);
        }
        other => panic!("{:?}", other),
    }
}

#[test]
fn refuses_a_call_of_what_cannot_be_called() {
    assert_eq!(runtime_kind("var n = 3; n();"), RuntimeErrorType::InvalidCallObjectType);
    assert_eq!(runtime_kind("\"text\"();"), RuntimeErrorType::InvalidCallObjectType);
    assert_eq!(runtime_kind("nil();"), RuntimeErrorType::InvalidCallObjectType);
    assert_eq!(runtime_kind("true(1, 2);"), RuntimeErrorType::InvalidCallObjectType);
    assert_eq!(runtime_kind("class C {} var c = C(); c();"), RuntimeErrorType::InvalidCallObjectType);
}

#[test]
fn makes_instances_of_classes() {
    assert_eq!(
        prints("class C { init(x) { this.x = x; } } var c = C(3); print c.x;"),
        vec!["3"]
    );
    assert_eq!(
        prints("class C { init(x) { this.x = x; } } print C(3);"),
        vec!["<instance of <class C\n- this.init = <fn init(x)>\n>\n- this.x = 3\n>\n"]
    );
    assert_eq!(prints("class C {} print C; print C();"), vec![
        "<class C\nMethods: None\n>\n",
        "<instance of <class C\nMethods: None\n>\nNo defined properties.\n>\n"
    ]);
}

#[test]
fn gives_the_instance_whatever_init_returns() {
    assert_eq!(
        prints("class C { init() { this.x = 1; return; } } var c = C(); print c.x; print c.init() == nil; c.init().x = 2; print c.x;"),
        vec!["1", "false", "2"]
    );
    assert_eq!(
        prints("class C { init(x) { if (x) return 5; this.late = 1; } } var c = C(true); c.mark = 1; print c.mark; print C(false).late;"),
        vec!["1", "1"]
    );
}

#[test]
fn prints_classes_and_instances_with_their_members() {
    assert_eq!(
        prints("class P { a() {} b(x, y) {} a(z) {} } print P;"),
        vec!["<class P\n- this.a = <fn a(z)>\n- this.b = <fn b(x, y)>\n>\n"]
    );
    assert_eq!(
        prints("class P {} var p = P(); p.b = 2; p.a = \"s\"; p.b = 2.5; p.f = clock; print p;"),
        vec![
            "<instance of <class P\nMethods: None\n>\n- this.b = 2.5\n- this.a = \"s\"\n- this.f = <native_function>\n>\n"
        ]
    );
    assert_eq!(
        prints("class P {} var outer = P(); outer.inner = P(); outer.inner.v = 1; print outer;"),
        vec![
            "<instance of <class P\nMethods: None\n>\n- this.inner = <instance of <class P\nMethods: None\n>\n- this.v = 1\n>\n\n>\n"
        ]
    );
}

#[test]
fn prints_instances_within_instances_as_deep_as_the_budget() {
    let statements = program("class P {} var p = P(); p.me = p; print p;");
    let mut interpreter = Interpreter::new();
    interpreter.fuel = 2;
    assert_eq!(interpreter.interpret(&statements), Ok(()));
    assert_eq!(
        shown(&interpreter.output[0]),
        "<instance of <class P\nMethods: None\n>\n- this.me = <instance of <class P\nMethods: None\n>\n- this.me = <instance of P>\n>\n\n>\n"
    );
    interpreter.fuel = 0;
    assert_eq!(shown(&interpreter.stringify(&Object::Instance(0))), "<instance of P>");
    assert_eq!(
        interpreter.stringify(&Object::Num(1.5f64.to_bits())),
        vec![Piece::Number(1.5f64.to_bits())]
    );
}

#[test]
fn keeps_fields_with_the_instance() {
    assert_eq!(
        prints(
            "class P {} var a = P(); var b = P(); a.x = 1; b.x = 2; a.y = a.x + b.x; \
             print a.x; print b.x; print a.y; print a.x = 7; print a.x;"
        ),
        vec!["1", "2", "3", "7", "7"]
    );
    assert_eq!(prints("class P {} var a = P(); var same = a; same.x = 5; print a.x;"), vec!["5"]);
}

#[test]
fn binds_methods_to_their_instance() {
    assert_eq!(
        prints(
            "class Counter { init() { this.n = 0; } next() { this.n = this.n + 1; return this.n; } } \
             var c = Counter(); print c.next(); print c.next(); var m = c.next; print m(); print c.n;"
        ),
        vec!["1", "2", "3", "3"]
    );
    assert_eq!(
        prints("class A { who() { return this.name; } } var a = A(); a.name = \"a\"; var b = A(); b.name = \"b\"; \
                b.who = a.who; print b.who();"),
        vec!["\"a\""]
    );
    assert_eq!(prints("class A { m() {} } print A().m;"), vec!["<fn m()>"]);
}

#[test]
fn looks_for_fields_before_methods() {
    assert_eq!(
        prints("class A { m() { return \"method\"; } } var a = A(); print a.m(); fun f() { return \"field\"; } a.m = f; print a.m();"),
        vec!["\"method\"", "\"field\""]
    );
}

#[test]
fn lets_methods_see_their_class_and_closures() {
    assert_eq!(
        prints("class A { make() { return A(); } } var made = A().make(); made.tag = 7; print made.tag;"),
        vec!["7"]
    );
    assert_eq!(
        prints("{ var tag = \"t\"; class A { m() { return tag; } } print A().m(); }"),
        vec!["\"t\""]
    );
    assert_eq!(
        prints("class A { m() { fun inner() { return this.v; } return inner(); } } var a = A(); a.v = 4; print a.m();"),
        vec!["4"]
    );
}

#[test]
fn refuses_properties_of_what_is_no_instance() {
    assert_eq!(runtime_kind("var n = 1; print n.x;"), RuntimeErrorType::InvalidObjectProperty);
    assert_eq!(runtime_kind("var n = 1; n.x = 2;"), RuntimeErrorType::InvalidObjectProperty);
    assert_eq!(runtime_kind("class C {} print C.x;"), RuntimeErrorType::InvalidObjectProperty);
    assert_eq!(runtime_kind("fun f() {} f.x = 1;"), RuntimeErrorType::InvalidObjectProperty);
    assert_eq!(runtime_kind("print nil.x;"), RuntimeErrorType::InvalidObjectProperty);
}

#[test]
fn refuses_a_property_that_the_instance_lacks() {
    match fails("class C {} var c = C(); print c.missing;") {
        LoxResult::Runtime { token, error_type } => {
            assert_eq!(error_type, RuntimeErrorType::UndefinedProperty);
            assert_eq!(token.lexeme, "missing");
        }
        other => panic!("{:?}", other),
    }
}

#[test]
fn does_not_evaluate_the_value_of_a_set_on_what_is_no_instance() {
    let (result, lines) = run("fun touch() { print \"touched\"; return 1; } var n = 1; n.x = touch();");
    assert!(result.is_err());
    assert_eq!(lines, Vec::<String>::new());
}

#[test]
fn stops_at_the_first_runtime_error() {
    let (result, lines) = run("print 1; print 2 + nil; print 3;");
    assert!(matches!(result, Err(LoxResult::Runtime { .. })));
    assert_eq!(lines, vec!["1"]);
    let (inside, seen) = run("fun f() { print \"in\"; nil(); print \"never\"; } f(); print \"after\";");
    assert!(inside.is_err());
    assert_eq!(seen, vec!["\"in\""]);
    let (statement, none) = run("1 + nil; print \"after\";");
    assert!(statement.is_err());
    assert_eq!(none, Vec::<String>::new());
}

#[test]
fn goes_on_with_new_input_after_an_error() {
    let mut interpreter = Interpreter::new();
    assert_eq!(run_in(&mut interpreter, "var a = 1; fun f() { return a; }", 0), Ok(()));
    assert!(run_in(&mut interpreter, "print a + nil;", 100).is_err());
    assert_eq!(run_in(&mut interpreter, "a = 5; print f();", 200), Ok(()));
    assert_eq!(shown(&interpreter.output[0]), "5");
}

#[test]
fn tells_the_time_in_seconds() {
    let before = chrono::offset::Local::now().timestamp_millis() as f64 / 1000.0;
    let mut interpreter = Interpreter::new();
    assert_eq!(run_in(&mut interpreter, "print clock(); print clock;", 0), Ok(()));
    let after = chrono::offset::Local::now().timestamp_millis() as f64 / 1000.0;
    match &interpreter.output[0][0] {
        Piece::Number(bits) => {
            let told = f64::from_bits(*bits);
            assert!(before <= told && told <= after, "{} <= {} <= {}", before, told, after);
        }
        other => panic!("{:?}", other),
    }
    assert_eq!(shown(&interpreter.output[1]), "<native_function>");
    assert_eq!(f64::from_bits(clock_seconds(1500)), 1.5);
    assert_eq!(f64::from_bits(clock_seconds(-250)), -0.25);
    assert_eq!(f64::from_bits(clock_seconds(1700000000123)), 1700000000123.0f64 / 1000.0);
    assert_eq!(NativeClock.arity(), 0);
    assert_eq!(NativeClock.call(7.0f64.to_bits()), number(7.0));
}

#[test]
fn reads_the_clock_before_each_statement() {
    let mut interpreter = Interpreter::new();
    assert_eq!(interpreter.clock, 0);
    assert_eq!(run_in(&mut interpreter, "var start = clock(); var i = 0; while (i < 20000) i = i + 1; print clock() - start;", 0), Ok(()));
    match &interpreter.output[0][0] {
        Piece::Number(bits) => assert!(f64::from_bits(*bits) >= 0.0),
        other => panic!("{:?}", other),
    }
    assert!(f64::from_bits(interpreter.clock) > 1.0e9);
}

#[test]
fn ends_a_program_that_outruns_its_budget() {
    let statements = program("while (true) {}");
    let mut interpreter = Interpreter::new();
    interpreter.fuel = 50;
    assert_eq!(interpreter.interpret(&statements), Err(LoxResult::OutOfFuel));
    assert_eq!(interpreter.environment, 0);
    assert_eq!(interpreter.environments.len(), 52);

    let deep = program("fun down(n) { return down(n + 1); } down(0);");
    let mut shallow = Interpreter::new();
    shallow.fuel = 20;
    let mut resolver = Resolver::new();
    assert_eq!(resolver.resolve_stmts(&deep, &mut shallow), Ok(()));
    assert_eq!(shallow.interpret(&deep), Err(LoxResult::OutOfFuel));
    assert_eq!(shallow.environment, 0);

    let fits = program("var i = 0; while (i < 10) i = i + 1; print i;");
    let mut enough = Interpreter::new();
    enough.fuel = 10;
    assert_eq!(enough.interpret(&fits), Ok(()));
    let mut short = Interpreter::new();
    short.fuel = 9;
    assert_eq!(short.interpret(&fits), Err(LoxResult::OutOfFuel));

    let calls = program("fun f() { return 1; } print f();");
    let mut none = Interpreter::new();
    none.fuel = 0;
    assert_eq!(none.interpret(&calls), Err(LoxResult::OutOfFuel));
    let mut one = Interpreter::new();
    one.fuel = 1;
    assert_eq!(one.interpret(&calls), Ok(()));
}

#[test]
fn gives_the_same_output_on_every_run() {
    let source = "var total = 0; fun add(n) { total = total + n; return total; } \
                  class Box { init(v) { this.v = v; } twice() { return this.v * 2; } } \
                  for (var i = 0; i < 5; i = i + 1) { print add(i); print Box(i).twice(); } \
                  print \"done\" + \"!\"; print total / 3;";
    let (first_result, first) = run(source);
    let (second_result, second) = run(source);
    assert_eq!(first_result, Ok(()));
    assert_eq!(second_result, Ok(()));
    assert_eq!(first, second);
    assert_eq!(first.len(), 12);
    assert_eq!(first[11], format!("{}", 10.0f64 / 3.0));
    let (failed_once, seen_once) = run("print 1; print nil();");
    let (failed_twice, seen_twice) = run("print 1; print nil();");
    assert_eq!(failed_once, failed_twice);
    assert_eq!(seen_once, seen_twice);
}

#[test]
fn takes_a_name_that_no_scope_declares_yet_for_a_global() {
    let (result, _) = run(
        "{ fun even(n) { if (n == 0) return true; return odd(n - 1); } \
           fun odd(n) { if (n == 0) return false; return even(n - 1); } print even(3); }",
    );
    match result.unwrap_err() {
        LoxResult::Environment { msg, .. } => {
            assert_eq!(msg, "Line 1 [48:51] -> No such variable 'odd'.")
        }
        other => panic!("{:?}", other),
    }
}

#[test]
fn never_misses_a_variable_that_the_resolver_found() {
    let sources = vec![
        "{ var a = 1; { var b = 2; { print a + b; a = b; } } print a; }",
        "fun outer() { var x = 1; fun middle() { var y = 2; fun inner() { return x + y; } return inner; } return middle()(); } print outer();",
        "{ var n = 0; while (n < 3) { var m = n; { n = m + 1; } } print n; }",
        "class A { init(v) { this.v = v; } get() { var t = this; fun f() { return t.v + this.v; } return f(); } } print A(2).get();",
        "fun f(a, b) { { var c = a; { var d = b; return c + d; } } } print f(1, 2);",
        "fun even(n) { if (n == 0) return true; return odd(n - 1); } fun odd(n) { if (n == 0) return false; return even(n - 1); } { print even(10); }",
    ];
    for source in sources {
        let (result, _) = run(source);
        assert_eq!(result, Ok(()), "{}", source);
    }
}

#[test]
fn evaluates_and_executes_on_its_own_budget() {
    let statements = program("print 1 + 2; 3 * 4;");
    let mut interpreter = Interpreter::new();
    assert_eq!(interpreter.execute(&statements[0]), Ok(()));
    assert_eq!(shown(&interpreter.output[0]), "3");
    match &statements[1] {
        Stmt::Expression { expression } => {
            assert_eq!(interpreter.evaluate(expression), Ok(number(12.0)))
        }
        other => panic!("{:?}", other),
    }
    let block = program("var inner = 1; print 2;");
    interpreter.environments.push(Environment::from_enclosing(0));
    assert_eq!(interpreter.execute_block(&block, 1), Ok(()));
    assert_eq!(interpreter.environment, 0);
    assert_eq!(shown(&interpreter.output[1]), "2");
    assert!(interpreter.environments[0].values.get("inner").is_none());
    assert_eq!(interpreter.environments[1].values.get("inner"), Some(&number(1.0)));
}

#[test]
fn calls_a_value_from_the_host() {
    let mut interpreter = Interpreter::new();
    assert_eq!(run_in(&mut interpreter, "fun add(a, b) { return a + b; } class C { init(x) { this.x = x; } }", 0), Ok(()));
    let paren = Token::right_paren(1, 0);
    let add = interpreter.environments[0].values.get("add").unwrap().clone();
    assert_eq!(interpreter.call(add.clone(), &paren, vec![number(1.0), number(2.0)]), Ok(number(3.0)));
    assert!(matches!(
        interpreter.call(add, &paren, vec![number(1.0)]),
        Err(LoxResult::Runtime { error_type: RuntimeErrorType::InvalidArgsCount, .. })
    ));
    let class = interpreter.environments[0].values.get("C").unwrap().clone();
    match interpreter.call(class, &paren, vec![text("v")]) {
        Ok(Object::Instance(i)) => {
            assert_eq!(interpreter.instances[i].fields.get("x"), Some(&text("v")))
        }
        other => panic!("{:?}", other),
    }
    assert!(matches!(
        interpreter.call(number(1.0), &paren, vec![]),
        Err(LoxResult::Runtime { error_type: RuntimeErrorType::InvalidCallObjectType, .. })
    ));
    let clock = interpreter.environments[0].values.get("clock").unwrap().clone();
    interpreter.clock = 2.5f64.to_bits();
    assert_eq!(interpreter.call(clock, &paren, vec![]), Ok(number(2.5)));
}

#[test]
fn looks_variables_up_by_distance_or_in_the_globals() {
    let mut interpreter = Interpreter::new();
    let name = Token::identifier(1, 0, 1, TokenType::Identifier, "v");
    interpreter.environments[0].define("v".to_string(), text("global"));
    let mut middle = Environment::from_enclosing(0);
    middle.define("v".to_string(), text("middle"));
    interpreter.environments.push(middle);
    interpreter.environments.push(Environment::from_enclosing(1));
    interpreter.environment = 2;
    assert_eq!(interpreter.look_up_variable(&name, 9), Ok(text("global")));
    interpreter.resolve(9, 1);
    assert_eq!(interpreter.look_up_variable(&name, 9), Ok(text("middle")));
    interpreter.resolve(9, 2);
    assert_eq!(interpreter.look_up_variable(&name, 9), Ok(text("global")));
    interpreter.resolve(9, 0);
    assert!(matches!(interpreter.look_up_variable(&name, 9), Err(LoxResult::Environment { .. })));
    interpreter.resolve(9, 3);
    assert!(matches!(interpreter.look_up_variable(&name, 9), Err(LoxResult::Environment { .. })));
}

#[test]
fn starts_with_the_clock_alone() {
    let interpreter = Interpreter::new();
    assert_eq!(interpreter.environments.len(), 1);
    assert_eq!(interpreter.environment, 0);
    assert_eq!(interpreter.fuel, usize::MAX);
    assert_eq!(interpreter.environments[0].values.keys, vec!["clock".to_string()]);
    assert!(matches!(
        interpreter.environments[0].values.get("clock"),
        Some(&Object::Native(NativeFunction { function: NativeClock }))
    ));
    assert!(interpreter.locals.is_empty());
    assert!(interpreter.output.is_empty());
}

#[test]
fn reports_values_that_point_nowhere() {
    let mut interpreter = Interpreter::new();
    interpreter.environments[0].define("f".to_string(), Object::Function(99));
    interpreter.environments[0].define("c".to_string(), Object::Class(99));
    interpreter.environments[0].define("i".to_string(), Object::Instance(99));
    assert_eq!(runtime_kind_in(&mut interpreter, "f();"), RuntimeErrorType::UnreachableCode);
    assert_eq!(runtime_kind_in(&mut interpreter, "c();"), RuntimeErrorType::UnreachableCode);
    assert_eq!(runtime_kind_in(&mut interpreter, "i.x;"), RuntimeErrorType::UnreachableCode);
    assert_eq!(runtime_kind_in(&mut interpreter, "i.x = 1;"), RuntimeErrorType::UnreachableCode);
    assert_eq!(run_in(&mut interpreter, "print f; print c; print i;", 50), Ok(()));
    let lines: Vec<String> = interpreter.output.iter().map(|line| shown(line)).collect();
    assert_eq!(lines, vec!["<fn>", "<class>", "<instance>"]);
}

fn runtime_kind_in(interpreter: &mut Interpreter, source: &str) -> RuntimeErrorType {
    match run_in(interpreter, source, 10).unwrap_err() {
        LoxResult::Runtime { error_type, .. } => error_type,
        other => panic!("no runtime error: {:?}", other),
    }
}

#[test]
fn later_methods_of_one_name_count() {
    assert_eq!(
        prints("class A { m() { return 1; } m() { return 2; } } print A().m();"),
        vec!["2"]
    );
}

#[test]
fn prints_strings_in_quotes() {
    assert_eq!(prints("print \"a b\"; print \"\"; print nil; print true; print 2.50;"), vec![
        "\"a b\"", "\"\"", "nil", "true", "2.5"
    ]);
}
