use rs_lox_tw::errors::{
    LoxResult, ParserErrorType, ResolverErrorType, RuntimeErrorType, ScannerErrorType,
};
use rs_lox_tw::lox::Lox;
use rs_lox_tw::stmt::Stmt;
use rs_lox_tw::text::Piece;

fn written(pieces: &[Piece]) -> String {
    let mut out = String::new();
    for piece in pieces {
        match piece {
            Piece::Text(text) => out.push_str(text),
            Piece::Number(bits) => out.push_str(&format!("{}", f64::from_bits(*bits))),
        }
    }
    out
}

fn output_of(lox: &Lox) -> Vec<String> {
    lox.interpreter.output.iter().map(|line| written(line)).collect()
}

#[test]
fn runs_source_text_through_every_stage() {
    let mut lox = Lox::new();
    assert_eq!(lox.run("print 1 + 2 * 3;".to_string()), Ok(()));
    assert_eq!(output_of(&lox), vec!["7"]);
    assert_eq!(lox.next_site, 0);
    assert!(lox.diagnostics.is_empty());
}

#[test]
fn starts_with_an_interpreter_that_has_run_nothing() {
    let lox = Lox::new();
    assert_eq!(lox.next_site, 0);
    assert!(lox.diagnostics.is_empty());
    assert!(lox.interpreter.functions.is_empty());
    assert!(lox.interpreter.classes.is_empty());
    assert!(lox.interpreter.locals.is_empty());
    assert_eq!(lox.interpreter.environments.len(), 1);
}

#[test]
fn runs_nothing_of_a_text_that_does_not_scan() {
    let mut lox = Lox::new();
    assert_eq!(
        lox.run("print 1; var fns = [];".to_string()),
        Err(LoxResult::Scanner { c: '[', error_type: ScannerErrorType::InvalidCharacter })
    );
    assert!(output_of(&lox).is_empty());
    assert_eq!(
        lox.run("print \"open".to_string()),
        Err(LoxResult::Scanner { c: '"', error_type: ScannerErrorType::UnterminatedString })
    );
}

#[test]
fn runs_nothing_of_a_text_that_does_not_parse() {
    let mut lox = Lox::new();
    let error = lox.run("print 1; print ; var 2; print 3;".to_string()).unwrap_err();
    assert!(matches!(
        error,
        LoxResult::Parser { error_type: ParserErrorType::ExpectedExpression, .. }
    ));
    assert_eq!(lox.diagnostics.len(), 2);
    assert_eq!(lox.diagnostics[0], error);
    assert!(matches!(
        lox.diagnostics[1],
        LoxResult::Parser { error_type: ParserErrorType::InvalidConsumeType, .. }
    ));
    assert!(output_of(&lox).is_empty());
    assert_eq!(lox.run("print 4;".to_string()), Ok(()));
    assert!(lox.diagnostics.is_empty());
    assert_eq!(output_of(&lox), vec!["4"]);
}

#[test]
fn runs_nothing_of_a_text_that_does_not_resolve() {
    let mut lox = Lox::new();
    assert!(matches!(
        lox.run("print 1; { var a = a; }".to_string()),
        Err(LoxResult::Resolver { error_type: ResolverErrorType::VariableNotInitialized, .. })
    ));
    assert!(matches!(
        lox.run("print 1; fun f(){ var x=1; var x=2; }".to_string()),
        Err(LoxResult::Resolver { error_type: ResolverErrorType::VariableAlreadyExists, .. })
    ));
    assert!(matches!(
        lox.run("print 1; return 2;".to_string()),
        Err(LoxResult::Resolver { error_type: ResolverErrorType::TopLevelReturn, .. })
    ));
    assert!(output_of(&lox).is_empty());
}

#[test]
fn stops_a_run_at_its_first_error() {
    let mut lox = Lox::new();
    assert!(matches!(
        lox.run("print 1; nil(); print 2;".to_string()),
        Err(LoxResult::Runtime { error_type: RuntimeErrorType::InvalidCallObjectType, .. })
    ));
    assert_eq!(output_of(&lox), vec!["1"]);
}

#[test]
fn numbers_the_sites_on_from_one_text_to_the_next() {
    let mut lox = Lox::new();
    assert_eq!(
        lox.run("fun make() { var n = 0; fun next() { n = n + 1; return n; } return next; }".to_string()),
        Ok(())
    );
    let after_first = lox.next_site;
    assert_eq!(after_first, 4);
    assert_eq!(lox.run("var a = make(); { var n = 10; print a() + n; }".to_string()), Ok(()));
    assert!(lox.next_site > after_first);
    assert_eq!(lox.run("{ var shadow = 5; { print a() + shadow; } }".to_string()), Ok(()));
    assert_eq!(output_of(&lox), vec!["11", "7"]);
}

#[test]
fn goes_on_after_an_error_in_an_earlier_text() {
    let mut lox = Lox::new();
    assert_eq!(lox.run("var a = 1;".to_string()), Ok(()));
    assert!(lox.run("print a + nil;".to_string()).is_err());
    assert!(lox.run("print (;".to_string()).is_err());
    assert_eq!(lox.run("a = a + 1; print a;".to_string()), Ok(()));
    assert_eq!(output_of(&lox), vec!["2"]);
    assert_eq!(lox.interpreter.environment, 0);
}

#[test]
fn prepares_without_running() {
    let mut lox = Lox::new();
    let statements = lox.prepare("var a = 1; { print a; }".to_string()).unwrap();
    assert_eq!(statements.len(), 2);
    assert!(matches!(statements[0], Stmt::Var { .. }));
    assert!(output_of(&lox).is_empty());
    assert_eq!(lox.next_site, 1);
    assert!(lox.interpreter.locals.is_empty());
    let inner = lox.prepare("{ var b = 2; print b; }".to_string()).unwrap();
    assert_eq!(inner.len(), 1);
    assert_eq!(lox.interpreter.locals.get(&1), Some(&0));
    assert_eq!(lox.interpreter.interpret(&inner), Ok(()));
    assert_eq!(output_of(&lox), vec!["2"]);
}

#[test]
fn finds_every_variable_in_one_text_after_another() {
    let mut lox = Lox::new();
    let texts = vec![
        "fun make(start) { var n = start; fun next() { n = n + 1; return n; } return next; }",
        "var a = make(0); { var b = make(10); print a() + b(); }",
        "class Box { init(v) { this.v = v; } get() { return this.v; } }",
        "{ var box = Box(a()); { var get = box.get; print get(); } }",
        "{ var unknown = missing; }",
        "{ var shadow = a; { var a = shadow(); print a; } }",
    ];
    for text in texts {
        let result = lox.run(text.to_string());
        assert!(
            !matches!(&result, Err(LoxResult::Environment { msg, .. }) if msg.starts_with("No variable")),
            "{}: {:?}",
            text,
            result
        );
    }
    assert_eq!(output_of(&lox), vec!["12", "2", "3"]);
}

#[test]
fn finds_every_variable_that_the_resolver_found() {
    let sources = vec![
        "{ var a = 1; { var b = 2; { print a + b; a = b; } } print a; }",
        "fun outer() { var x = 1; fun middle() { var y = 2; fun inner() { return x + y; } return middle; } return middle()(); } print outer;",
        "class A { init(v) { this.v = v; } get() { var t = this; fun f() { return t.v + this.v; } return f(); } } print A(2).get();",
        "{ var a = (a = 1) + 1; print a; }",
        "var i = 0; while (i < 3) { var j = i; { fun show() { print j; } show(); } i = i + 1; }",
    ];
    for source in sources {
        let mut lox = Lox::new();
        let result = lox.run(source.to_string());
        assert!(
            !matches!(&result, Err(LoxResult::Environment { msg, .. }) if msg.starts_with("No variable")),
            "{}: {:?}",
            source,
            result
        );
        assert_eq!(result, Ok(()), "{}", source);
    }
}
