use foundry_js::assembler::{ContractDefinition, ContractPart, FunctionDefinition};
use foundry_js::cases::{
    extract_function_calls_and_assertions, extract_test_case, extract_test_cases, Assertion,
    FunctionCall, TestCase,
};
use foundry_js::classifier::Statement;
use foundry_js::error::TranslateError;
use foundry_js::expr::Expression;

fn unsupported() -> Expression {
    Expression::Unsupported { description: "a + b".to_string() }
}

fn ident(name: &str) -> Expression {
    Expression::Identifier { name: name.to_string() }
}

fn call(callee: Expression, arguments: Vec<Expression>) -> Statement {
    Statement::Expression(Expression::Call { callee: Box::new(callee), arguments })
}

fn function(name: &str, body: Option<Vec<Statement>>) -> ContractPart {
    ContractPart::Function(FunctionDefinition { name: Some(name.to_string()), is_public: false, body })
}

fn recorded(name: &str, arguments: Vec<&str>) -> FunctionCall {
    FunctionCall {
        function_name: name.to_string(),
        arguments: arguments.into_iter().map(|a| a.to_string()).collect(),
    }
}

#[test]
fn calls_of_bare_names_are_recorded_in_order() {
    let unit = vec![
        ContractDefinition {
            name: Some("A".to_string()),
            parts: vec![
                function("helper", None),
                function(
                    "testOne",
                    Some(vec![
                        call(ident("deposit"), vec![ident("x")]),
                        call(
                            Expression::MemberAccess {
                                object: Box::new(ident("token")),
                                member: "mint".to_string(),
                            },
                            vec![],
                        ),
                        Statement::Unsupported,
                        call(ident("assertEq"), vec![ident("a"), ident("b")]),
                    ]),
                ),
            ],
        },
        ContractDefinition {
            name: None,
            parts: vec![ContractPart::Other, function("testTwo", Some(vec![]))],
        },
    ];
    assert_eq!(
        extract_test_cases(&unit),
        Ok(vec![
            TestCase {
                name: "testOne".to_string(),
                function_calls: vec![recorded("deposit", vec!["x"])],
                assertions: vec![Assertion {
                    assertion_type: "assertEq".to_string(),
                    expected_value: "a".to_string(),
                }],
            },
            TestCase { name: "testTwo".to_string(), function_calls: vec![], assertions: vec![] },
        ])
    );
}

#[test]
fn a_test_without_body_is_an_error() {
    let unit = vec![ContractDefinition {
        name: Some("A".to_string()),
        parts: vec![function("testOne", Some(vec![])), function("testTwo", None)],
    }];
    assert_eq!(extract_test_cases(&unit), Err(TranslateError::MissingBody));
    assert_eq!(extract_test_cases(&vec![]), Ok(vec![]));
}

#[test]
fn an_untranslatable_argument_is_an_error_and_changes_nothing() {
    let mut case = TestCase {
        name: "testOne".to_string(),
        function_calls: vec![recorded("a", vec![])],
        assertions: vec![],
    };
    let before = case.clone();
    let bad = call(ident("f"), vec![unsupported()]);
    assert_eq!(
        extract_function_calls_and_assertions(&bad, &mut case),
        Err(TranslateError::UnsupportedNode("a + b".to_string()))
    );
    assert_eq!(case, before);
    let good = call(ident("f"), vec![ident("y")]);
    assert_eq!(extract_function_calls_and_assertions(&good, &mut case), Ok(()));
    assert_eq!(case.function_calls, vec![recorded("a", vec![]), recorded("f", vec!["y"])]);
    assert_eq!(extract_function_calls_and_assertions(&Statement::Unsupported, &mut case), Ok(()));
    assert_eq!(case.function_calls.len(), 2);
}

#[test]
fn a_case_of_a_nameless_function_has_the_empty_name() {
    let f = FunctionDefinition { name: None, is_public: true, body: Some(vec![]) };
    assert_eq!(
        extract_test_case(&f),
        Ok(TestCase { name: String::new(), function_calls: vec![], assertions: vec![] })
    );
}

#[test]
fn assertions_are_recorded_as_assertions() {
    let mut case = TestCase { name: "t".to_string(), function_calls: vec![], assertions: vec![] };
    let equal = call(
        ident("assertEq"),
        vec![
            Expression::Call {
                callee: Box::new(Expression::MemberAccess {
                    object: Box::new(ident("token")),
                    member: "balanceOf".to_string(),
                }),
                arguments: vec![ident("bob")],
            },
            ident("expected"),
        ],
    );
    assert_eq!(extract_function_calls_and_assertions(&equal, &mut case), Ok(()));
    let truth = call(ident("assertTrue"), vec![ident("ok")]);
    assert_eq!(extract_function_calls_and_assertions(&truth, &mut case), Ok(()));
    assert!(case.function_calls.is_empty());
    assert_eq!(
        case.assertions,
        vec![
            Assertion {
                assertion_type: "assertEq".to_string(),
                expected_value: "await contract.read.balanceOf(bob)".to_string(),
            },
            Assertion { assertion_type: "assertTrue".to_string(), expected_value: "ok".to_string() },
        ]
    );
}

#[test]
fn an_assertion_without_operand_is_an_error() {
    let mut case = TestCase { name: "t".to_string(), function_calls: vec![], assertions: vec![] };
    let bare = call(ident("assertTrue"), vec![]);
    assert_eq!(
        extract_function_calls_and_assertions(&bare, &mut case),
        Err(TranslateError::MissingOperand)
    );
    let bad = call(ident("assertEq"), vec![unsupported(), ident("b")]);
    assert_eq!(
        extract_function_calls_and_assertions(&bad, &mut case),
        Err(TranslateError::UnsupportedNode("a + b".to_string()))
    );
    assert!(case.assertions.is_empty());
}
