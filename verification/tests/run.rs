use molang::compile;
use molang::CompileError;
use molang::run;
use molang::FromMolangValue;
use molang::ToMolangValue;
use molang::Aliases;
use molang::Bindings;
use molang::MolangError;
use molang::NoExternals;
use molang::Value;

fn eval(source: &str, constants: &Bindings, variables: &mut Bindings) -> Result<Value, MolangError> {
    let block = compile(source).unwrap();
    run(
        &block,
        constants,
        variables,
        &Aliases::new(),
        &mut NoExternals,
    )
}

fn eval_simple(source: &str) -> Result<Value, MolangError> {
    eval(source, &Bindings::new(), &mut Bindings::new())
}

#[test]
fn constant() {
    let mut constants = Bindings::new();
    constants.insert("pi".to_string(), Value::Number(3));
    assert_eq!(
        Ok(Value::Number(300)),
        eval("pi * 100", &constants, &mut Bindings::new())
    );
}

#[test]
fn ternary_not() {
    assert_eq!(Ok(Value::Number(200)), eval_simple("!1 ? 100 : 200"));
}

#[test]
fn assignment() {
    let mut variables = Bindings::new();
    variables.insert("lolz".to_string(), Value::Struct(Bindings::new()));
    let constants = Bindings::new();
    assert_eq!(
        Ok(Value::Number(200)),
        eval("lolz.nested.property = 200", &constants, &mut variables)
    );
    assert_eq!(
        Ok(Value::Number(200)),
        eval("lolz.nested.property", &constants, &mut variables)
    );
}

#[test]
fn binary_operators_on_variables() {
    let constants = Bindings::new();
    for (source, expected) in [
        ("a + b", 12),
        ("a - b", 2),
        ("a * b", 35),
        ("a / b", 1),
    ] {
        let mut variables = Bindings::new();
        variables.insert("a".to_string(), Value::Number(7));
        variables.insert("b".to_string(), Value::Number(5));
        assert_eq!(
            Ok(Value::Number(expected)),
            eval(source, &constants, &mut variables),
        );
    }
}

#[test]
fn division_truncates_and_zero_divisor_yields_zero() {
    assert_eq!(Ok(Value::Number(2)), eval_simple("5 / 2"));
    assert_eq!(Ok(Value::Number(0)), eval_simple("1 / 0"));
}

#[test]
fn not_of_zero_and_nonzero() {
    assert_eq!(Ok(Value::Number(1)), eval_simple("!0"));
    assert_eq!(Ok(Value::Number(0)), eval_simple("!1"));
    let mut variables = Bindings::new();
    variables.insert("neg".to_string(), Value::Number(-5));
    assert_eq!(
        Ok(Value::Number(0)),
        eval("!neg", &Bindings::new(), &mut variables)
    );
}

#[test]
fn nullish_takes_primary_when_not_null() {
    let mut variables = Bindings::new();
    variables.insert("a".to_string(), Value::Number(4));
    variables.insert("b".to_string(), Value::Number(9));
    assert_eq!(
        Ok(Value::Number(4)),
        eval("a ?? b", &Bindings::new(), &mut variables)
    );
}

#[test]
fn nullish_takes_fallback_when_null() {
    let mut variables = Bindings::new();
    variables.insert("a".to_string(), Value::Null);
    variables.insert("b".to_string(), Value::Number(9));
    assert_eq!(
        Ok(Value::Number(9)),
        eval("a ?? b", &Bindings::new(), &mut variables)
    );
}

#[test]
fn alias_resolution() {
    let mut variables = Bindings::new();
    variables.insert("variable".to_string(), Value::Struct(Bindings::new()));
    let mut aliases = Aliases::new();
    aliases.insert("v".to_string(), "variable".to_string());
    let constants = Bindings::new();
    let first = compile("v.x = 1").unwrap();
    assert_eq!(
        Ok(Value::Number(1)),
        run(&first, &constants, &mut variables, &aliases, &mut NoExternals)
    );
    let second = compile("variable.x").unwrap();
    assert_eq!(
        Ok(Value::Number(1)),
        run(&second, &constants, &mut variables, &aliases, &mut NoExternals)
    );
}

#[test]
fn block_fall_through_yields_zero() {
    assert_eq!(Ok(Value::Number(0)), eval_simple("1; 2;"));
}

#[test]
fn block_stops_at_return() {
    assert_eq!(Ok(Value::Number(5)), eval_simple("1; return 5;"));
}

#[test]
fn return_as_single_statement() {
    assert_eq!(Ok(Value::Number(5)), eval_simple("return 5"));
}

#[test]
fn same_precedence_scan_groups_right() {
    assert_eq!(Ok(Value::Number(7)), eval_simple("8 - 3 - 2"));
}

#[test]
fn unknown_name_fails_with_variable_not_found() {
    assert_eq!(
        Err(MolangError::VariableNotFound("doesnotexist".to_string())),
        eval_simple("doesnotexist")
    );
}

#[test]
fn assigning_to_a_constant_fails() {
    let mut constants = Bindings::new();
    constants.insert("pi".to_string(), Value::Number(3));
    assert_eq!(
        Err(MolangError::NotAssignable("Constant pi".to_string())),
        eval("pi = 1", &constants, &mut Bindings::new())
    );
}

#[test]
fn equality_of_numbers() {
    assert_eq!(Ok(Value::Number(1)), eval_simple("2 == 2"));
    assert_eq!(Ok(Value::Number(0)), eval_simple("1 == 2"));
}

#[test]
fn equality_of_structs_ignores_insertion_order() {
    let mut one = Bindings::new();
    one.insert("x".to_string(), Value::Number(1));
    one.insert("y".to_string(), Value::Number(2));
    let mut two = Bindings::new();
    two.insert("y".to_string(), Value::Number(2));
    two.insert("x".to_string(), Value::Number(1));
    let mut variables = Bindings::new();
    variables.insert("p".to_string(), Value::Struct(one));
    variables.insert("q".to_string(), Value::Struct(two));
    assert_eq!(
        Ok(Value::Number(1)),
        eval("p == q", &Bindings::new(), &mut variables)
    );
}

#[test]
fn arithmetic_on_a_struct_is_a_type_error() {
    let mut variables = Bindings::new();
    variables.insert("s".to_string(), Value::Struct(Bindings::new()));
    assert_eq!(
        Err(MolangError::TypeError("Number".to_string(), "Struct".to_string())),
        eval("s + 1", &Bindings::new(), &mut variables)
    );
}

#[test]
fn property_access_on_a_number_is_a_bad_access() {
    let mut variables = Bindings::new();
    variables.insert("n".to_string(), Value::Number(3));
    assert_eq!(
        Err(MolangError::BadAccess(".".to_string(), "Number".to_string())),
        eval("n.x", &Bindings::new(), &mut variables)
    );
}

#[test]
fn missing_struct_key_reads_as_null() {
    let mut variables = Bindings::new();
    variables.insert("s".to_string(), Value::Struct(Bindings::new()));
    variables.insert("b".to_string(), Value::Number(8));
    assert_eq!(
        Ok(Value::Number(8)),
        eval("s.missing ?? b", &Bindings::new(), &mut variables)
    );
}

#[test]
fn ternary_without_colon_is_a_syntax_error() {
    assert_eq!(
        Err(MolangError::SyntaxError(
            "Expected colon to close ternary".to_string()
        )),
        eval_simple("1 ? 2")
    );
}

#[test]
fn bare_colon_is_a_syntax_error() {
    assert_eq!(
        Err(MolangError::SyntaxError("Unexpected colon".to_string())),
        eval_simple("1 : 2")
    );
}

#[test]
fn assignment_creates_the_missing_path() {
    let mut variables = Bindings::new();
    variables.insert("lolz".to_string(), Value::Struct(Bindings::new()));
    let constants = Bindings::new();
    eval("lolz.nested.property = 200", &constants, &mut variables).unwrap();
    match variables.get(&"lolz".to_string()) {
        Some(Value::Struct(outer)) => match outer.get(&"nested".to_string()) {
            Some(Value::Struct(inner)) => {
                assert_eq!(
                    Some(&Value::Number(200)),
                    inner.get(&"property".to_string())
                );
            },
            other => panic!("nested was {other:?}"),
        },
        other => panic!("lolz was {other:?}"),
    }
}

#[test]
fn assigning_to_a_literal_fails() {
    assert!(matches!(
        eval_simple("1 = 2"),
        Err(MolangError::NotAssignable(_))
    ));
}

#[test]
fn conditional_takes_the_then_branch() {
    assert_eq!(Ok(Value::Number(100)), eval_simple("1 ? 100 : 200"));
    assert_eq!(Ok(Value::Number(100)), eval_simple("!0 ? 100 : 200"));
}

#[test]
fn value_marshalling_round_trip() {
    assert_eq!(Value::Number(7), 7i64.to_value());
    assert_eq!(Ok(7i64), i64::from_value(Value::Number(7)));
    assert_eq!(Value::Null, Option::<i64>::None.to_value());
    assert_eq!(Ok(None), Option::<i64>::from_value(Value::Null));
    assert_eq!(Ok(Some(3)), Option::<i64>::from_value(Value::Number(3)));
    assert!(i64::from_value(Value::Null).is_err());
}

#[test]
fn addition_wraps_at_the_numeric_limit() {
    let mut variables = Bindings::new();
    variables.insert("a".to_string(), Value::Number(i64::MAX));
    variables.insert("b".to_string(), Value::Number(1));
    assert_eq!(
        Ok(Value::Number(i64::MIN)),
        eval("a + b", &Bindings::new(), &mut variables)
    );
}

#[test]
fn assigning_to_an_unknown_variable_fails() {
    assert_eq!(
        Err(MolangError::VariableNotFound("nope".to_string())),
        eval_simple("nope = 1")
    );
}

#[test]
fn parenthesised_operands_are_not_stripped_as_a_pair() {
    assert_eq!(Ok(Value::Number(3)), eval_simple("(1) + (2)"));
    assert_eq!(Ok(Value::Number(6)), eval_simple("(1)+(2)+(3)"));
}

#[test]
fn parentheses_override_the_right_grouping() {
    assert_eq!(Ok(Value::Number(3)), eval_simple("(8 - 3) - 2"));
}

#[test]
fn deep_operator_nesting_is_rejected() {
    let mut probe = String::from("1");
    for _ in 0..400 {
        probe = format!("(1+{probe})");
    }
    assert!(matches!(
        compile(&probe),
        Err(CompileError::TokeniseError(_))
    ));
    let mut small = String::from("1");
    for _ in 0..20 {
        small = format!("(1+{small})");
    }
    assert_eq!(Ok(Value::Number(21)), eval_simple(&small));
}

#[test]
fn long_flat_operator_chains_are_bounded() {
    let mut long = String::from("1");
    for _ in 0..400 {
        long.push_str("+1");
    }
    assert!(matches!(compile(&long), Err(CompileError::TokeniseError(_))));
    let mut okchain = String::from("1");
    for _ in 0..100 {
        okchain.push_str("+1");
    }
    assert_eq!(Ok(Value::Number(101)), eval_simple(&okchain));
}
