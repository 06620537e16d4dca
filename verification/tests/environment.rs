use rs_lox_tw::environment::Environment;
use rs_lox_tw::errors::{EnvironmentErrorType, LoxResult};
use rs_lox_tw::lox_callable::LoxCallable;
use rs_lox_tw::lox_class::LoxClass;
use rs_lox_tw::lox_function::LoxFunction;
use rs_lox_tw::lox_instance::LoxInstance;
use rs_lox_tw::object::Object;
use rs_lox_tw::table::Table;
use rs_lox_tw::token::Token;
use rs_lox_tw::token_type::TokenType;
use std::rc::Rc;

fn named(text: &str) -> Token {
    Token::identifier(1, 0, 1, TokenType::Identifier, text)
}

fn number(value: f64) -> Object {
    Object::Num(value.to_bits())
}

fn chain() -> Vec<Environment> {
    let mut globals = Environment::new();
    globals.define("g".to_string(), number(0.0));
    globals.define("x".to_string(), number(10.0));
    let mut middle = Environment::from_enclosing(0);
    middle.define("x".to_string(), number(11.0));
    middle.define("m".to_string(), number(1.0));
    let mut inner = Environment::from_enclosing(1);
    inner.define("i".to_string(), number(2.0));
    vec![globals, middle, inner]
}

#[test]
fn keeps_each_name_once() {
    let mut table: Table<bool> = Table::new();
    assert_eq!(table.get("a"), None);
    assert!(!table.contains_key("a"));
    table.insert("a".to_string(), false);
    table.insert("b".to_string(), true);
    table.insert("a".to_string(), true);
    assert_eq!(table.keys, vec!["a".to_string(), "b".to_string()]);
    assert_eq!(table.get("a"), Some(&true));
    assert_eq!(table.get("b"), Some(&true));
    assert_eq!(table.find("b"), Some(1));
    assert_eq!(table.find("c"), None);
    assert!(table.contains_key("b"));
}

#[test]
fn defines_in_one_environment() {
    let mut environment = Environment::new();
    assert_eq!(environment.enclosing, None);
    environment.define("a".to_string(), number(1.0));
    environment.define("a".to_string(), number(2.0));
    assert_eq!(environment.values.get("a"), Some(&number(2.0)));
    assert_eq!(Environment::from_enclosing(4).enclosing, Some(4));
}

#[test]
fn finds_the_nearest_holder_of_a_name() {
    let envs = chain();
    assert_eq!(Environment::holder(&envs, 2, "i"), Some(2));
    assert_eq!(Environment::holder(&envs, 2, "x"), Some(1));
    assert_eq!(Environment::holder(&envs, 2, "g"), Some(0));
    assert_eq!(Environment::holder(&envs, 1, "i"), None);
    assert_eq!(Environment::holder(&envs, 0, "x"), Some(0));
    assert_eq!(Environment::holder(&envs, 2, "none"), None);
    assert_eq!(Environment::holder(&envs, 7, "x"), None);
}

#[test]
fn gets_through_the_chain() {
    let envs = chain();
    assert_eq!(Environment::get(&envs, 2, &named("x")), Ok(number(11.0)));
    assert_eq!(Environment::get(&envs, 0, &named("x")), Ok(number(10.0)));
    assert_eq!(Environment::get(&envs, 2, &named("g")), Ok(number(0.0)));
    assert_eq!(
        Environment::get(&envs, 1, &named("i")),
        Err(LoxResult::Environment {
            error_type: EnvironmentErrorType::UnknownVariable,
            msg: "Line 1 [0:1] -> No such variable 'i'.".to_string()
        })
    );
}

#[test]
fn walks_exactly_the_distance() {
    let envs = chain();
    assert_eq!(Environment::ancestor(&envs, 2, 0), Some(2));
    assert_eq!(Environment::ancestor(&envs, 2, 1), Some(1));
    assert_eq!(Environment::ancestor(&envs, 2, 2), Some(0));
    assert_eq!(Environment::ancestor(&envs, 2, 3), None);
    assert_eq!(Environment::ancestor(&envs, 5, 0), None);
    assert_eq!(Environment::get_at(&envs, 2, 0, &named("i")), Ok(number(2.0)));
    assert_eq!(Environment::get_at(&envs, 2, 1, &named("x")), Ok(number(11.0)));
    assert_eq!(Environment::get_at(&envs, 2, 2, &named("x")), Ok(number(10.0)));
    assert_eq!(
        Environment::get_at(&envs, 2, 0, &named("x")),
        Err(LoxResult::Environment {
            error_type: EnvironmentErrorType::UnknownVariable,
            msg: "No variable 'x' at the recorded distance, Line 1 [0:1].".to_string()
        })
    );
    assert!(Environment::get_at(&envs, 2, 1, &named("g")).is_err());
    assert!(Environment::get_at(&envs, 2, 3, &named("x")).is_err());
}

#[test]
fn assigns_where_the_name_lives() {
    let mut envs = chain();
    assert_eq!(Environment::assign(&mut envs, 2, &named("x"), number(5.0)), Ok(()));
    assert_eq!(envs[1].values.get("x"), Some(&number(5.0)));
    assert_eq!(envs[0].values.get("x"), Some(&number(10.0)));
    assert_eq!(
        Environment::assign(&mut envs, 2, &named("none"), number(5.0)),
        Err(LoxResult::Environment {
            error_type: EnvironmentErrorType::UnknownVariable,
            msg: "Cannot assign value to unknown variable 'none'.".to_string()
        })
    );
    assert_eq!(envs[2].values.get("none"), None);
    assert_eq!(Environment::assign_at(&mut envs, 2, 2, &named("x"), number(6.0)), Ok(()));
    assert_eq!(envs[0].values.get("x"), Some(&number(6.0)));
    assert_eq!(envs[1].values.get("x"), Some(&number(5.0)));
    assert_eq!(Environment::assign_at(&mut envs, 2, 0, &named("x"), number(7.0)), Ok(()));
    assert_eq!(envs[2].values.get("x"), Some(&number(7.0)));
    assert_eq!(envs[1].values.get("x"), Some(&number(5.0)));
    assert_eq!(
        Environment::assign_at(&mut envs, 2, 9, &named("x"), number(7.0)),
        Err(LoxResult::Environment {
            error_type: EnvironmentErrorType::UnknownVariable,
            msg: "No variable 'x' at the recorded distance, Line 1 [0:1].".to_string()
        })
    );
}

#[test]
fn stops_at_a_link_that_does_not_lead_outwards() {
    let mut looped = Environment::from_enclosing(0);
    looped.define("a".to_string(), number(1.0));
    let envs = vec![looped];
    assert_eq!(Environment::holder(&envs, 0, "b"), None);
    assert_eq!(Environment::ancestor(&envs, 0, 3), Some(0));
}

fn function(name: &str, params: &[&str], closure: usize) -> LoxFunction {
    LoxFunction {
        name: named(name),
        params: Rc::new(params.iter().map(|p| named(p)).collect()),
        body: Rc::new(Vec::new()),
        closure,
        is_init_function: name == "init",
    }
}

#[test]
fn tells_how_many_arguments_a_callable_takes() {
    assert_eq!(function("f", &[], 0).arity(), 0);
    assert_eq!(function("f", &["a", "b", "c"], 0).arity(), 3);
    let mut methods: Table<LoxFunction> = Table::new();
    methods.insert("m".to_string(), function("m", &["a"], 0));
    let plain = LoxClass { name: "P".to_string(), methods };
    assert_eq!(plain.arity(), 0);
    let mut with_init: Table<LoxFunction> = Table::new();
    with_init.insert("init".to_string(), function("init", &["a", "b"], 0));
    let class = LoxClass { name: "C".to_string(), methods: with_init };
    assert_eq!(class.arity(), 2);
    assert!(class.find_method("init").unwrap().is_init_function);
    assert!(class.find_method("other").is_none());
    assert_eq!(plain.find_method("m").unwrap().params.len(), 1);
}

#[test]
fn shares_the_body_of_a_function_between_its_copies() {
    let first = function("f", &["a"], 3);
    let copy = first.clone();
    assert!(Rc::ptr_eq(&first.body, &copy.body));
    assert!(Rc::ptr_eq(&first.params, &copy.params));
    assert_eq!(copy.closure, 3);
    let mut envs = chain();
    let bound = first.bind(&number(4.0), &mut envs);
    assert_eq!(bound.closure, 3);
    assert_eq!(bound.name.lexeme, "f");
    assert!(Rc::ptr_eq(&first.body, &bound.body));
    assert_eq!(envs.len(), 4);
    assert_eq!(envs[3].enclosing, Some(3));
    assert_eq!(envs[3].values.get("this"), Some(&number(4.0)));
    assert_eq!(envs[3].values.keys.len(), 1);
}

#[test]
fn keeps_the_fields_of_an_instance() {
    let mut instance = LoxInstance::new(2);
    assert_eq!(instance.class, 2);
    assert_eq!(instance.get(&named("x")), None);
    instance.set(&named("x"), number(1.0));
    instance.set(&named("y"), number(2.0));
    instance.set(&named("x"), number(3.0));
    assert_eq!(instance.get(&named("x")), Some(number(3.0)));
    assert_eq!(instance.get(&named("y")), Some(number(2.0)));
}
