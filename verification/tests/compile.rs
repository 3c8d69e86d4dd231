use molang::blockise;
use molang::compile;
use molang::tokenise;
use molang::Access;
use molang::Block;
use molang::CompileError;
use molang::Expr;
use molang::Instruction;
use molang::Operator;
use molang::Token;
use molang::TokeniseError;
use molang::Value;

#[test]
fn number() {
    assert_eq!(vec![Token::Number(100)], tokenise("100.0").unwrap());
}

#[test]
fn mod_number() {
    assert_eq!(vec![Token::Number(100)], tokenise("100.0").unwrap());
}

#[test]
fn tokeniser_number() {
    assert_eq!(vec![Token::Number(100)], tokenise("100.0").unwrap());
}

#[test]
fn variable() {
    assert_eq!(
        vec![
            Token::Number(100),
            Token::Operator(Operator::Multiply),
            Token::Access(vec![Access::Name("abc".to_string())]),
        ],
        tokenise("100.0*abc").unwrap()
    );
}

#[test]
fn tokeniser_function() {
    assert_eq!(
        vec![Token::Access(vec![
            Access::Name("sin".to_string()),
            Access::Call(vec![Token::Number(1)]),
        ])],
        tokenise("sin(1)").unwrap()
    );
}

#[test]
fn mod_function() {
    assert_eq!(
        vec![Token::Access(vec![
            Access::Name("math".to_string()),
            Access::Name("sin".to_string()),
            Access::Call(vec![Token::Number(1)]),
        ])],
        tokenise("math.sin(1)").unwrap()
    );
}

#[test]
fn multiply() {
    assert_eq!(
        vec![
            Token::Number(100),
            Token::Operator(Operator::Multiply),
            Token::Number(99),
        ],
        tokenise("100.0*99").unwrap()
    );
}

#[test]
fn mod_multiply() {
    assert_eq!(
        vec![
            Token::Number(100),
            Token::Operator(Operator::Multiply),
            Token::Number(99),
        ],
        tokenise("100.0*99").unwrap()
    );
}

#[test]
fn divide() {
    assert_eq!(
        vec![
            Token::Number(100),
            Token::Operator(Operator::Divide),
            Token::Number(99),
        ],
        tokenise("100.0/99").unwrap()
    );
}

#[test]
fn mod_divide() {
    assert_eq!(
        vec![
            Token::Number(100),
            Token::Operator(Operator::Divide),
            Token::Number(99),
        ],
        tokenise("100.0/99").unwrap()
    );
}

#[test]
fn statements() {
    assert_eq!(
        Block {
            multiple: true,
            statements: vec![
                Expr::Literal(Value::Number(1)),
                Expr::Literal(Value::Number(1)),
            ],
        },
        blockise(tokenise("1; 1;").unwrap()).unwrap()
    );
}

#[test]
fn return_statements() {
    assert_eq!(
        Block {
            multiple: true,
            statements: vec![
                Expr::Literal(Value::Number(1)),
                Expr::Derived(Box::new(Instruction::Return(Expr::Literal(Value::Number(
                    1
                ))))),
            ],
        },
        blockise(tokenise("1; return 1;").unwrap()).unwrap()
    );
}

#[test]
fn chain_with_spaces() {
    assert_eq!(
        vec![Token::Access(vec![
            Access::Name("a".to_string()),
            Access::Name("b".to_string()),
        ])],
        tokenise("a .b").unwrap()
    );
}

#[test]
fn underscores_in_numbers() {
    assert_eq!(vec![Token::Number(1000000)], tokenise("1_000_000").unwrap());
}

#[test]
fn double_point_is_an_error() {
    assert_eq!(
        Err(TokeniseError::Expectation {
            found: ".".to_string(),
            expected: "a digit".to_string(),
        }),
        tokenise("1.0.2")
    );
}

#[test]
fn fractional_literal_is_an_error() {
    assert!(tokenise("1.5").is_err());
}

#[test]
fn huge_literal_is_an_error() {
    assert!(tokenise("99999999999999999999999999").is_err());
}

#[test]
fn unknown_character_is_an_error() {
    assert_eq!(
        Err(TokeniseError::Expectation {
            found: "#".to_string(),
            expected: "anything else".to_string(),
        }),
        tokenise("1 # 2")
    );
}

#[test]
fn unterminated_call_is_an_error() {
    assert_eq!(
        Err(TokeniseError::Expectation {
            found: "EOF".to_string(),
            expected: ")".to_string(),
        }),
        tokenise("f(1, 2")
    );
}

#[test]
fn unterminated_block_is_an_error() {
    assert_eq!(
        Err(TokeniseError::Expectation {
            found: "EOF".to_string(),
            expected: "}".to_string(),
        }),
        tokenise("{1; 2;")
    );
}

#[test]
fn nesting_deeper_than_the_limit_is_an_error() {
    let mut probe = String::from("f");
    for _ in 0..80 {
        probe = format!("g({probe})");
    }
    assert!(tokenise(&probe).is_err());
    assert!(tokenise("g(1)").is_ok());
}

#[test]
fn empty_source_is_incomplete() {
    assert_eq!(Err(CompileError::IncompleteExpression), compile(""));
}

#[test]
fn tokens_before_prefix_operator() {
    assert_eq!(
        Err(CompileError::TokensBeforePrefixOperator),
        compile("1 ! 2")
    );
}

#[test]
fn parenthesised_expression() {
    assert_eq!(
        Block {
            multiple: false,
            statements: vec![Expr::Literal(Value::Number(5))],
        },
        compile("(5)").unwrap()
    );
}

#[test]
fn subtraction_groups_from_the_right() {
    assert_eq!(
        Block {
            multiple: false,
            statements: vec![Expr::Derived(Box::new(Instruction::Subtract(
                Expr::Literal(Value::Number(8)),
                Expr::Derived(Box::new(Instruction::Subtract(
                    Expr::Literal(Value::Number(3)),
                    Expr::Literal(Value::Number(2)),
                ))),
            )))],
        },
        compile("8 - 3 - 2").unwrap()
    );
}

#[test]
fn a_block_token_is_not_an_expression() {
    assert_eq!(Err(CompileError::IncompleteExpression), compile("{1}"));
}

#[test]
fn empty_argument_lists_parse() {
    assert_eq!(
        vec![Token::Access(vec![
            Access::Name("f".to_string()),
            Access::Call(vec![]),
        ])],
        tokenise("f()").unwrap()
    );
}

#[test]
fn deep_access_chains_are_bounded() {
    let mut chain = String::from("a");
    for _ in 0..400 {
        chain.push_str(".b");
    }
    assert!(matches!(compile(&chain), Err(CompileError::TokeniseError(_))));
    let mut short = String::from("a");
    for _ in 0..50 {
        short.push_str(".b");
    }
    assert!(compile(&short).is_ok());
}
