use rs_lox_tw::errors::{LoxResult, ResolverErrorType};
use rs_lox_tw::interpreter::Interpreter;
use rs_lox_tw::parser::Parser;
use rs_lox_tw::resolver::{FunctionType, Resolver};
use rs_lox_tw::scanner::Scanner;
use rs_lox_tw::stmt::Stmt;
use rs_lox_tw::text::Piece;
use rs_lox_tw::token::Token;
use rs_lox_tw::token_type::TokenType;

fn scanner_and_interpreter(source: &str) -> (Scanner, Interpreter) {
    let scanner = Scanner::new(source.to_string());
    let interpreter = Interpreter::new();
    (scanner, interpreter)
}

fn statements_of(source: &str) -> Vec<Stmt> {
    let mut scanner = Scanner::new(source.to_string());
    let tokens = scanner.scan_tokens().unwrap().clone();
    let mut parser = Parser::new(&tokens);
    parser.parse().unwrap()
}

fn resolve_source(source: &str) -> (Result<(), LoxResult>, Interpreter) {
    let statements = statements_of(source);
    let mut interpreter = Interpreter::new();
    let mut resolver = Resolver::new();
    let result = resolver.resolve_stmts(&statements, &mut interpreter);
    (result, interpreter)
}

fn line_of(pieces: &[Piece]) -> String {
    let mut out = String::new();
    for piece in pieces {
        match piece {
            Piece::Text(text) => out.push_str(text),
            Piece::Number(bits) => out.push_str(&format!("{}", f64::from_bits(*bits))),
        }
    }
    out
}

#[test]
fn test_error_variable_already_exists() {
    let source = "fun bad() {
      var a = \"first\";
      var a = \"second\";
    }";

    let (mut scanner, mut interpreter) = scanner_and_interpreter(source);
    let mut resolver = Resolver::new();
    if let Ok(tokens) = scanner.scan_tokens() {
        let mut parser = Parser::new(tokens);

        match parser.parse() {
            Ok(stmts) => {
                match resolver.resolve_stmts(&stmts, &mut interpreter) {
                    Ok(_) => {}
                    Err(e) => {
                        println!("{}", line_of(&e.message()));
                        return;
                    }
                }

                assert_eq!(
                    interpreter.interpret(&stmts),
                    Err(LoxResult::Resolver {
                        token: Token::identifier(0, 0, 0, TokenType::Identifier, "a"),
                        error_type: ResolverErrorType::VariableAlreadyExists,
                    })
                )
            }
            Err(e) => {
                println!("There was an error: {}", line_of(&e.message()))
            }
        }
    }
}

#[test]
fn refuses_a_second_declaration_in_one_scope() {
    let (result, _) = resolve_source("fun f(){ var x=1; var x=2; }");
    match result.unwrap_err() {
        LoxResult::Resolver { token, error_type } => {
            assert_eq!(error_type, ResolverErrorType::VariableAlreadyExists);
            assert_eq!(token.lexeme, "x");
            assert_eq!(token.src_start, 22);
        }
        other => panic!("{:?}", other),
    }
    let (again, _) = resolve_source("fun bad() {\n var a = \"first\";\n var a = \"second\";\n }");
    match again.unwrap_err() {
        LoxResult::Resolver { token, error_type } => {
            assert_eq!(error_type, ResolverErrorType::VariableAlreadyExists);
            assert_eq!(token.lexeme, "a");
            assert_eq!(token.src_line, 3);
        }
        other => panic!("{:?}", other),
    }
}

#[test]
fn allows_a_declaration_to_shadow_an_outer_one() {
    let (result, _) = resolve_source("fun f(){ var x=1; { var x=2; } }");
    assert_eq!(result, Ok(()));
    let (params, _) = resolve_source("fun f(x){ { var x=2; } }");
    assert_eq!(params, Ok(()));
}

#[test]
fn refuses_a_parameter_declared_again() {
    let (twice, _) = resolve_source("fun f(a, a) {}");
    assert!(matches!(
        twice,
        Err(LoxResult::Resolver { error_type: ResolverErrorType::VariableAlreadyExists, .. })
    ));
    let (body, _) = resolve_source("fun f(a) { var a = 1; }");
    assert!(matches!(
        body,
        Err(LoxResult::Resolver { error_type: ResolverErrorType::VariableAlreadyExists, .. })
    ));
}

#[test]
fn allows_the_global_scope_to_declare_again() {
    let (result, _) = resolve_source("var a = 1; var a = 2;");
    assert_eq!(result, Ok(()));
}

#[test]
fn refuses_a_variable_in_its_own_initializer() {
    let (result, _) = resolve_source("{ var a = a; }");
    match result.unwrap_err() {
        LoxResult::Resolver { token, error_type } => {
            assert_eq!(error_type, ResolverErrorType::VariableNotInitialized);
            assert_eq!(token.lexeme, "a");
            assert_eq!(token.src_start, 10);
        }
        other => panic!("{:?}", other),
    }
    let (shadow, _) = resolve_source("var a = 1; { var a = a; }");
    assert!(matches!(
        shadow,
        Err(LoxResult::Resolver { error_type: ResolverErrorType::VariableNotInitialized, .. })
    ));
    let (inner, _) = resolve_source("fun f() { var a = a; }");
    assert!(matches!(
        inner,
        Err(LoxResult::Resolver { error_type: ResolverErrorType::VariableNotInitialized, .. })
    ));
}

#[test]
fn leaves_the_global_scope_to_the_interpreter() {
    let (result, interpreter) = resolve_source("var a = a;");
    assert_eq!(result, Ok(()));
    assert!(interpreter.locals.is_empty());
}

#[test]
fn lets_an_initializer_read_an_outer_variable_of_another_name() {
    let (result, _) = resolve_source("{ var a = 1; { var b = a; } }");
    assert_eq!(result, Ok(()));
}

#[test]
fn refuses_a_return_at_the_top_level() {
    let (result, _) = resolve_source("return 1;");
    match result.unwrap_err() {
        LoxResult::Resolver { token, error_type } => {
            assert_eq!(error_type, ResolverErrorType::TopLevelReturn);
            assert_eq!(token.ttype, TokenType::Return);
        }
        other => panic!("{:?}", other),
    }
    let (block, _) = resolve_source("{ if (true) return; }");
    assert!(matches!(
        block,
        Err(LoxResult::Resolver { error_type: ResolverErrorType::TopLevelReturn, .. })
    ));
    let (after, _) = resolve_source("fun f() { return 1; } return 2;");
    assert!(matches!(
        after,
        Err(LoxResult::Resolver { error_type: ResolverErrorType::TopLevelReturn, .. })
    ));
}

#[test]
fn allows_a_return_in_functions_and_methods() {
    let (function, _) = resolve_source("fun f() { fun g() { return 1; } return g; }");
    assert_eq!(function, Ok(()));
    let (method, _) = resolve_source("class C { m() { return this; } }");
    assert_eq!(method, Ok(()));
}

#[test]
fn records_the_distance_of_each_local_use() {
    // Sites: `a` in `b = a` is 0, `a` in `print a` is 1, `b` is 2, `c` is 3.
    let (result, interpreter) =
        resolve_source("var c = 0; { var a = 1; { var b = a; { print a; print b; print c; } } }");
    assert_eq!(result, Ok(()));
    assert_eq!(interpreter.locals.get(&0), Some(&1));
    assert_eq!(interpreter.locals.get(&1), Some(&2));
    assert_eq!(interpreter.locals.get(&2), Some(&1));
    assert_eq!(interpreter.locals.get(&3), None);
    assert_eq!(interpreter.locals.len(), 3);
}

#[test]
fn records_the_nearest_declaration() {
    // Sites: the first `print a` is 0, the second is 1.
    let (result, interpreter) = resolve_source("{ var a = 1; { var a = 2; print a; } print a; }");
    assert_eq!(result, Ok(()));
    assert_eq!(interpreter.locals.get(&0), Some(&0));
    assert_eq!(interpreter.locals.get(&1), Some(&0));
}

#[test]
fn records_assignments_and_this() {
    // Sites: `x` read is 0, `a = ...` is 1, `this` is 2.
    let (result, interpreter) =
        resolve_source("class C { m(x) { var a; a = x; return this; } }");
    assert_eq!(result, Ok(()));
    assert_eq!(interpreter.locals.get(&0), Some(&0));
    assert_eq!(interpreter.locals.get(&1), Some(&0));
    assert_eq!(interpreter.locals.get(&2), Some(&1));
}

#[test]
fn counts_the_scopes_of_functions() {
    // Sites: `a` is 0 (two scopes out: the function's and the inner block's), `p` is 1.
    let (result, interpreter) = resolve_source("{ var a = 1; fun f(p) { { print a + p; } } }");
    assert_eq!(result, Ok(()));
    assert_eq!(interpreter.locals.get(&0), Some(&2));
    assert_eq!(interpreter.locals.get(&1), Some(&1));
}

#[test]
fn leaves_the_resolver_at_the_top_level_after_a_program() {
    let statements = statements_of("{ var a; } fun f() { return; } class C { m() {} }");
    let mut interpreter = Interpreter::new();
    let mut resolver = Resolver::new();
    assert_eq!(resolver.resolve_stmts(&statements, &mut interpreter), Ok(()));
    assert_eq!(resolver.scopes.len(), 0);
    assert_eq!(resolver.current_function, FunctionType::Void);
}

#[test]
fn touches_only_the_record_of_the_sites() {
    let statements = statements_of("{ var a = 1; print a; }");
    let mut interpreter = Interpreter::new();
    let mut resolver = Resolver::new();
    assert_eq!(resolver.resolve_stmts(&statements, &mut interpreter), Ok(()));
    assert_eq!(interpreter.environments.len(), 1);
    assert_eq!(interpreter.environment, 0);
    assert_eq!(interpreter.output.len(), 0);
    assert_eq!(interpreter.functions.len(), 0);
    interpreter.resolve(77, 5);
    assert_eq!(interpreter.locals.get(&77), Some(&5));
}
