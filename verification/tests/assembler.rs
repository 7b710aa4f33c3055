use foundry_js::assembler::{
    assemble_contract, extract_function, extract_state_variable, extract_test_contract,
    is_setup_function, is_test_contract_name, is_test_function, ContractDefinition, ContractPart,
    FunctionDefinition, StateVariable, TestContract, TestFunction, VariableDefinition,
};
use foundry_js::classifier::{Statement, TestStep};
use foundry_js::declarations::{
    declaration, extract_contract_functions, extract_functions_from_steps, is_known, place_for,
    sort_signatures, FunctionSignature,
};
use foundry_js::error::TranslateError;
use foundry_js::expr::{Denomination, Expression, LiteralKind};

fn unsupported() -> Expression {
    Expression::Unsupported { description: "a + b".to_string() }
}

fn ident(name: &str) -> Expression {
    Expression::Identifier { name: name.to_string() }
}

fn member(object: Expression, name: &str) -> Expression {
    Expression::MemberAccess { object: Box::new(object), member: name.to_string() }
}

fn call(callee: Expression, arguments: Vec<Expression>) -> Statement {
    Statement::Expression(Expression::Call { callee: Box::new(callee), arguments })
}

fn ether(value: &str) -> Expression {
    Expression::Literal {
        kind: LiteralKind::Number,
        value: value.to_string(),
        denomination: Some(Denomination::Ether),
    }
}

fn function(name: &str, is_public: bool, body: Vec<Statement>) -> ContractPart {
    ContractPart::Function(FunctionDefinition {
        name: Some(name.to_string()),
        is_public,
        body: Some(body),
    })
}

fn contract(name: &str, parts: Vec<ContractPart>) -> ContractDefinition {
    ContractDefinition { name: Some(name.to_string()), parts }
}

fn call_step(contract: Option<&str>, function: &str, arguments: Vec<&str>) -> TestStep {
    TestStep::FunctionCall {
        contract: contract.map(|c| c.to_string()),
        function: function.to_string(),
        arguments: arguments.into_iter().map(|a| a.to_string()).collect(),
    }
}

fn signature(name: &str, arity: usize) -> FunctionSignature {
    FunctionSignature { name: name.to_string(), arity }
}

#[test]
fn token_scenario_end_to_end() {
    let unit = vec![contract(
        "TokenTest",
        vec![
            ContractPart::Variable(VariableDefinition {
                name: "token".to_string(),
                type_: "Token".to_string(),
                initializer: None,
            }),
            function(
                "setUp",
                true,
                vec![
                    Statement::Construction { contract: "Token".to_string(), arguments: vec![] },
                    call(member(ident("token"), "mint"), vec![ident("alice"), ether("1000")]),
                ],
            ),
            function(
                "testTransfer",
                true,
                vec![
                    call(member(ident("token"), "transfer"), vec![ident("bob"), ether("100")]),
                    call(
                        ident("assertEq"),
                        vec![
                            Expression::Call {
                                callee: Box::new(member(ident("token"), "balanceOf")),
                                arguments: vec![ident("bob")],
                            },
                            ether("100"),
                        ],
                    ),
                ],
            ),
        ],
    )];
    let tests = extract_test_contract(&unit).unwrap();
    assert_eq!(tests.name, "TokenTest");
    assert_eq!(
        tests.state_variables,
        vec![StateVariable { name: "token".to_string(), type_: "Token".to_string(), value: None }]
    );
    let setup = tests.setup.clone().unwrap();
    assert_eq!(setup.name, "setUp");
    assert_eq!(
        setup.steps,
        vec![
            TestStep::Constructor { contract: "Token".to_string(), arguments: vec![] },
            call_step(Some("token"), "mint", vec!["alice", "BigInt(\"1000000000000000000000\")"]),
        ]
    );
    assert_eq!(tests.test_functions.len(), 1);
    let test = &tests.test_functions[0];
    assert_eq!(test.name, "testTransfer");
    assert_eq!(test.steps.len(), 2);
    assert_eq!(
        test.steps[0],
        call_step(Some("token"), "transfer", vec!["bob", "BigInt(\"100000000000000000000\")"])
    );
    match &test.steps[1] {
        TestStep::Assertion { assert_type, arguments } => {
            assert_eq!(assert_type, "assertEq");
            assert_eq!(arguments[0], "await contract.read.balanceOf(bob)");
            assert_eq!(arguments[1], "BigInt(\"100000000000000000000\")");
        }
        other => panic!("not an assertion: {:?}", other),
    }
    let writes = test
        .steps
        .iter()
        .filter(|step| matches!(step, TestStep::FunctionCall { function, .. } if function == "transfer"))
        .count();
    assert_eq!(writes, 1);
    assert_eq!(
        extract_contract_functions(&tests),
        vec!["function mint(address, address) public", "function transfer(address, address) public"]
    );
}

#[test]
fn no_test_contract_is_an_error() {
    assert_eq!(extract_test_contract(&vec![]), Err(TranslateError::NoTestContract));
    let unit = vec![
        contract("Token", vec![]),
        contract("TestToken", vec![]),
        ContractDefinition { name: None, parts: vec![] },
        contract("est", vec![]),
    ];
    assert_eq!(extract_test_contract(&unit), Err(TranslateError::NoTestContract));
}

#[test]
fn the_first_test_contract_is_taken() {
    let unit = vec![
        contract("Helper", vec![function("testNot", true, vec![])]),
        contract("FirstTest", vec![function("testOne", true, vec![])]),
        contract("SecondTest", vec![function("testTwo", true, vec![])]),
    ];
    let tests = extract_test_contract(&unit).unwrap();
    assert_eq!(tests.name, "FirstTest");
    assert_eq!(tests.test_functions.len(), 1);
    assert_eq!(tests.test_functions[0].name, "testOne");
    assert!(is_test_contract_name(&unit[1]));
    assert!(!is_test_contract_name(&unit[0]));
    assert!(is_test_contract_name(&contract("Test", vec![])));
}

#[test]
fn the_first_setup_function_is_kept() {
    let c = contract(
        "ATest",
        vec![
            function("setUp", true, vec![call(ident("first"), vec![])]),
            function("setUp", true, vec![call(ident("second"), vec![unsupported()])]),
        ],
    );
    let tests = assemble_contract(&c).unwrap();
    assert_eq!(
        tests.setup,
        Some(TestFunction {
            name: "setUp".to_string(),
            steps: vec![call_step(None, "first", vec![])],
        })
    );
    assert!(tests.test_functions.is_empty());
}

#[test]
fn setup_needs_no_visibility() {
    let c = contract("ATest", vec![function("setUp", false, vec![])]);
    assert_eq!(
        assemble_contract(&c).unwrap().setup,
        Some(TestFunction { name: "setUp".to_string(), steps: vec![] })
    );
}

#[test]
fn tests_are_the_public_functions_named_test() {
    let c = contract(
        "ATest",
        vec![
            function("testB", true, vec![]),
            function("testHidden", false, vec![call(ident("f"), vec![unsupported()])]),
            function("helper", true, vec![]),
            function("test", true, vec![]),
            function("Test", true, vec![]),
            ContractPart::Function(FunctionDefinition { name: None, is_public: true, body: None }),
            ContractPart::Other,
            function("testFailA", true, vec![]),
            function("testA", true, vec![]),
        ],
    );
    let tests = assemble_contract(&c).unwrap();
    let names: Vec<&str> = tests.test_functions.iter().map(|f| f.name.as_str()).collect();
    assert_eq!(names, vec!["testB", "test", "testFailA", "testA"]);
    assert_eq!(tests.setup, None);
}

#[test]
fn function_predicates() {
    let public = FunctionDefinition { name: Some("testX".to_string()), is_public: true, body: None };
    let hidden = FunctionDefinition { name: Some("testX".to_string()), is_public: false, body: None };
    let setup = FunctionDefinition { name: Some("setUp".to_string()), is_public: false, body: None };
    let nameless = FunctionDefinition { name: None, is_public: true, body: None };
    assert!(is_test_function(&public));
    assert!(!is_test_function(&hidden));
    assert!(!is_test_function(&setup));
    assert!(!is_test_function(&nameless));
    assert!(is_setup_function(&setup));
    assert!(!is_setup_function(&public));
    assert!(!is_setup_function(&nameless));
}

#[test]
fn a_test_without_body_has_no_steps() {
    assert_eq!(
        extract_function("testX", &None),
        Ok(TestFunction { name: "testX".to_string(), steps: vec![] })
    );
    assert_eq!(
        extract_function("testX", &Some(vec![Statement::Unsupported])),
        Ok(TestFunction { name: "testX".to_string(), steps: vec![] })
    );
}

#[test]
fn state_variables_keep_source_order_and_translate_values() {
    let c = contract(
        "ATest",
        vec![
            ContractPart::Variable(VariableDefinition {
                name: "b".to_string(),
                type_: "address".to_string(),
                initializer: Some(ident("bob")),
            }),
            function("testX", true, vec![]),
            ContractPart::Variable(VariableDefinition {
                name: "a".to_string(),
                type_: "uint256".to_string(),
                initializer: Some(ether("1")),
            }),
        ],
    );
    let tests = assemble_contract(&c).unwrap();
    assert_eq!(
        tests.state_variables,
        vec![
            StateVariable {
                name: "b".to_string(),
                type_: "address".to_string(),
                value: Some("bob".to_string()),
            },
            StateVariable {
                name: "a".to_string(),
                type_: "uint256".to_string(),
                value: Some("BigInt(\"1000000000000000000\")".to_string()),
            },
        ]
    );
    let bad = VariableDefinition {
        name: "c".to_string(),
        type_: "uint256".to_string(),
        initializer: Some(unsupported()),
    };
    assert_eq!(extract_state_variable(&bad), Err(TranslateError::UnsupportedNode("a + b".to_string())));
}

#[test]
fn a_contract_fails_with_the_first_error_in_source_order() {
    let c = contract(
        "ATest",
        vec![
            function("testA", true, vec![call(member(ident("vm"), "prank"), vec![])]),
            ContractPart::Variable(VariableDefinition {
                name: "c".to_string(),
                type_: "uint256".to_string(),
                initializer: Some(unsupported()),
            }),
        ],
    );
    assert_eq!(assemble_contract(&c), Err(TranslateError::MissingActor));
    assert_eq!(extract_test_contract(&vec![c]), Err(TranslateError::MissingActor));
}

#[test]
fn a_contract_without_name_has_the_empty_name() {
    let c = ContractDefinition { name: None, parts: vec![] };
    assert_eq!(
        assemble_contract(&c),
        Ok(TestContract {
            name: String::new(),
            state_variables: vec![],
            setup: None,
            test_functions: vec![],
        })
    );
}

#[test]
fn one_declaration_for_each_name_sorted_by_name() {
    let tests = TestContract {
        name: "ATest".to_string(),
        state_variables: vec![],
        setup: Some(TestFunction {
            name: "setUp".to_string(),
            steps: vec![call_step(Some("t"), "mint", vec!["a", "b"])],
        }),
        test_functions: vec![
            TestFunction {
                name: "testA".to_string(),
                steps: vec![
                    call_step(Some("t"), "transfer", vec!["a", "b"]),
                    TestStep::VMStopPrank,
                    call_step(Some("t"), "approve", vec!["a", "b"]),
                    call_step(Some("t"), "transfer", vec!["c", "d"]),
                ],
            },
            TestFunction {
                name: "testB".to_string(),
                steps: vec![
                    call_step(None, "Zebra", vec![]),
                    call_step(Some("u"), "mint", vec!["a", "b"]),
                    call_step(None, "balanceOf", vec!["x"]),
                ],
            },
        ],
    };
    assert_eq!(
        extract_contract_functions(&tests),
        vec![
            "function Zebra() public",
            "function approve(address, address) public",
            "function balanceOf(address) public",
            "function mint(address, address) public",
            "function transfer(address, address) public",
        ]
    );
}

#[test]
fn the_first_seen_arity_wins() {
    let tests = TestContract {
        name: "ATest".to_string(),
        state_variables: vec![],
        setup: None,
        test_functions: vec![TestFunction {
            name: "testA".to_string(),
            steps: vec![
                call_step(None, "f", vec!["a"]),
                call_step(None, "f", vec!["a", "b", "c"]),
                call_step(None, "f", vec![]),
            ],
        }],
    };
    assert_eq!(extract_contract_functions(&tests), vec!["function f(address) public"]);
}

#[test]
fn no_calls_no_declarations() {
    let tests = TestContract {
        name: "ATest".to_string(),
        state_variables: vec![],
        setup: None,
        test_functions: vec![TestFunction {
            name: "testA".to_string(),
            steps: vec![
                TestStep::VMPrank("a".to_string()),
                TestStep::Assertion { assert_type: "assertTrue".to_string(), arguments: vec![] },
            ],
        }],
    };
    assert!(extract_contract_functions(&tests).is_empty());
}

#[test]
fn observation_keeps_what_was_there() {
    let mut functions = vec![signature("f", 5)];
    let steps = vec![
        call_step(None, "g", vec!["a"]),
        call_step(None, "f", vec![]),
        TestStep::VMStopPrank,
        call_step(None, "g", vec![]),
        call_step(None, "a", vec!["x", "y"]),
    ];
    extract_functions_from_steps(&steps, &mut functions);
    assert_eq!(functions, vec![signature("f", 5), signature("g", 1), signature("a", 2)]);
    assert!(is_known(&functions, "g"));
    assert!(!is_known(&functions, "h"));
}

#[test]
fn signatures_sort_by_code_point() {
    let sorted = sort_signatures(&vec![
        signature("b", 1),
        signature("a", 2),
        signature("B", 3),
        signature("ab", 4),
        signature("", 5),
        signature("é", 6),
        signature("z", 7),
    ]);
    let names: Vec<&str> = sorted.iter().map(|s| s.name.as_str()).collect();
    assert_eq!(names, vec!["", "B", "a", "ab", "b", "z", "é"]);
    assert_eq!(place_for(&sorted, "c"), 5);
    assert_eq!(place_for(&sorted, ""), 0);
}

#[test]
fn declaration_text() {
    assert_eq!(declaration(&signature("f", 0)), "function f() public");
    assert_eq!(declaration(&signature("f", 1)), "function f(address) public");
    assert_eq!(declaration(&signature("f", 3)), "function f(address, address, address) public");
}
