use foundry_js::classifier::{
    classify, classify_all, classify_call, directive, Assigned, Directive, Statement, TestStep,
};
use foundry_js::error::TranslateError;
use foundry_js::expr::{Denomination, Expression, LiteralKind, NodeKind};

fn unsupported() -> Expression {
    Expression::Unsupported { description: "a + b".to_string() }
}

fn ident(name: &str) -> Expression {
    Expression::Identifier { name: name.to_string() }
}

fn member(object: Expression, name: &str) -> Expression {
    Expression::MemberAccess { object: Box::new(object), member: name.to_string() }
}

fn call(callee: Expression, arguments: Vec<Expression>) -> Expression {
    Expression::Call { callee: Box::new(callee), arguments }
}

fn number(value: &str) -> Expression {
    Expression::Literal { kind: LiteralKind::Number, value: value.to_string(), denomination: None }
}

fn ether(value: &str) -> Expression {
    Expression::Literal {
        kind: LiteralKind::Number,
        value: value.to_string(),
        denomination: Some(Denomination::Ether),
    }
}

fn statement(e: Expression) -> Statement {
    Statement::Expression(e)
}

#[test]
fn start_of_impersonation() {
    let s = statement(call(member(ident("vm"), "startPrank"), vec![ident("alice")]));
    assert_eq!(classify(&s), Ok(Some(TestStep::VMStartPrank("alice".to_string()))));
}

#[test]
fn end_of_impersonation() {
    let s = statement(call(member(ident("vm"), "stopPrank"), vec![]));
    assert_eq!(classify(&s), Ok(Some(TestStep::VMStopPrank)));
    let s = statement(call(member(ident("vm"), "stopPrank"), vec![unsupported()]));
    assert_eq!(classify(&s), Ok(Some(TestStep::VMStopPrank)));
}

#[test]
fn impersonation_for_one_call() {
    let s = statement(call(member(ident("vm"), "prank"), vec![member(ident("users"), "bob")]));
    assert_eq!(classify(&s), Ok(Some(TestStep::VMPrank("users.bob".to_string()))));
}

#[test]
fn impersonation_takes_the_first_argument_only() {
    let s = statement(call(member(ident("vm"), "prank"), vec![ident("a"), unsupported()]));
    assert_eq!(classify(&s), Ok(Some(TestStep::VMPrank("a".to_string()))));
}

#[test]
fn impersonation_without_actor_is_an_error() {
    let s = statement(call(member(ident("vm"), "prank"), vec![]));
    assert_eq!(classify(&s), Err(TranslateError::MissingActor));
    let s = statement(call(member(ident("vm"), "startPrank"), vec![]));
    assert_eq!(classify(&s), Err(TranslateError::MissingActor));
}

#[test]
fn impersonation_with_an_untranslatable_actor_is_an_error() {
    let s = statement(call(member(ident("vm"), "prank"), vec![unsupported()]));
    assert_eq!(classify(&s), Err(TranslateError::UnsupportedNode("a + b".to_string())));
}

#[test]
fn other_members_of_vm_are_plain_calls() {
    let s = statement(call(member(ident("vm"), "warp"), vec![number("5")]));
    assert_eq!(
        classify(&s),
        Ok(Some(TestStep::FunctionCall {
            contract: Some("vm".to_string()),
            function: "warp".to_string(),
            arguments: vec!["BigInt(5)".to_string()],
        }))
    );
}

#[test]
fn directive_names_on_another_object_are_plain_calls() {
    let s = statement(call(member(ident("hevm"), "prank"), vec![ident("a")]));
    assert_eq!(
        classify(&s),
        Ok(Some(TestStep::FunctionCall {
            contract: Some("hevm".to_string()),
            function: "prank".to_string(),
            arguments: vec!["a".to_string()],
        }))
    );
    let s = statement(call(ident("prank"), vec![ident("a")]));
    assert_eq!(
        classify(&s),
        Ok(Some(TestStep::FunctionCall {
            contract: None,
            function: "prank".to_string(),
            arguments: vec!["a".to_string()],
        }))
    );
}

#[test]
fn directives_by_name() {
    assert_eq!(directive(&member(ident("vm"), "startPrank")), Some(Directive::Start));
    assert_eq!(directive(&member(ident("vm"), "stopPrank")), Some(Directive::Stop));
    assert_eq!(directive(&member(ident("vm"), "prank")), Some(Directive::Once));
    assert_eq!(directive(&member(ident("vm"), "deal")), None);
    assert_eq!(directive(&member(member(ident("a"), "vm"), "prank")), None);
    assert_eq!(directive(&ident("vm")), None);
}

#[test]
fn equality_assertion() {
    let s = statement(call(
        ident("assertEq"),
        vec![call(member(ident("token"), "balanceOf"), vec![ident("bob")]), ether("100")],
    ));
    assert_eq!(
        classify(&s),
        Ok(Some(TestStep::Assertion {
            assert_type: "assertEq".to_string(),
            arguments: vec![
                "await contract.read.balanceOf(bob)".to_string(),
                "BigInt(\"100000000000000000000\")".to_string(),
            ],
        }))
    );
}

#[test]
fn truth_assertion() {
    let s = statement(call(ident("assertTrue"), vec![ident("ok")]));
    assert_eq!(
        classify(&s),
        Ok(Some(TestStep::Assertion {
            assert_type: "assertTrue".to_string(),
            arguments: vec!["ok".to_string()],
        }))
    );
}

#[test]
fn assertion_by_trailing_name() {
    let s = statement(call(member(ident("checks"), "assertTrue"), vec![ident("ok")]));
    assert_eq!(
        classify(&s),
        Ok(Some(TestStep::Assertion {
            assert_type: "assertTrue".to_string(),
            arguments: vec!["ok".to_string()],
        }))
    );
}

#[test]
fn plain_call_with_receiver() {
    let s = statement(call(member(ident("token"), "transfer"), vec![ident("bob"), ether("100")]));
    assert_eq!(
        classify(&s),
        Ok(Some(TestStep::FunctionCall {
            contract: Some("token".to_string()),
            function: "transfer".to_string(),
            arguments: vec!["bob".to_string(), "BigInt(\"100000000000000000000\")".to_string()],
        }))
    );
}

#[test]
fn plain_call_without_receiver() {
    let s = statement(call(ident("helper"), vec![]));
    assert_eq!(
        classify(&s),
        Ok(Some(TestStep::FunctionCall {
            contract: None,
            function: "helper".to_string(),
            arguments: vec![],
        }))
    );
}

#[test]
fn plain_call_on_a_member_chain() {
    let s = statement(call(member(member(ident("a"), "b"), "run"), vec![]));
    assert_eq!(
        classify(&s),
        Ok(Some(TestStep::FunctionCall {
            contract: Some("a.b".to_string()),
            function: "run".to_string(),
            arguments: vec![],
        }))
    );
}

#[test]
fn call_with_an_invalid_callee_is_an_error() {
    let s = statement(call(call(ident("f"), vec![]), vec![]));
    assert_eq!(classify(&s), Err(TranslateError::InvalidCallee(NodeKind::Call)));
    assert_eq!(
        classify_call(&number("1"), &vec![]),
        Err(TranslateError::InvalidCallee(NodeKind::Literal))
    );
}

#[test]
fn call_with_an_untranslatable_argument_is_an_error() {
    let s = statement(call(ident("f"), vec![unsupported()]));
    assert_eq!(classify(&s), Err(TranslateError::UnsupportedNode("a + b".to_string())));
    let s = statement(call(ident("assertEq"), vec![ident("a"), unsupported()]));
    assert_eq!(classify(&s), Err(TranslateError::UnsupportedNode("a + b".to_string())));
    let s = statement(call(member(unsupported(), "f"), vec![]));
    assert_eq!(classify(&s), Err(TranslateError::UnsupportedNode("a + b".to_string())));
}

#[test]
fn statements_that_are_no_calls_are_skipped() {
    assert_eq!(classify(&Statement::Unsupported), Ok(None));
    assert_eq!(classify(&statement(ident("x"))), Ok(None));
    assert_eq!(classify(&statement(member(ident("a"), "b"))), Ok(None));
    assert_eq!(classify(&statement(unsupported())), Ok(None));
    assert_eq!(classify(&statement(number("1"))), Ok(None));
}

#[test]
fn declaration_without_initial_value() {
    let s = Statement::VariableDeclaration {
        name: "x".to_string(),
        type_: "uint256".to_string(),
        initializer: None,
    };
    assert_eq!(
        classify(&s),
        Ok(Some(TestStep::VariableDeclaration {
            name: "x".to_string(),
            type_: "uint256".to_string(),
            value: None,
        }))
    );
}

#[test]
fn declaration_with_initial_value() {
    let s = Statement::VariableDeclaration {
        name: "x".to_string(),
        type_: "uint256".to_string(),
        initializer: Some(Assigned::Expression(call(ident("foo"), vec![ident("y")]))),
    };
    assert_eq!(
        classify(&s),
        Ok(Some(TestStep::VariableDeclaration {
            name: "x".to_string(),
            type_: "uint256".to_string(),
            value: Some("await contract.read.foo(y)".to_string()),
        }))
    );
    let s = Statement::VariableDeclaration {
        name: "x".to_string(),
        type_: "uint256".to_string(),
        initializer: Some(Assigned::Expression(unsupported())),
    };
    assert_eq!(classify(&s), Err(TranslateError::UnsupportedNode("a + b".to_string())));
}

#[test]
fn construction() {
    let s = Statement::Construction {
        contract: "Token".to_string(),
        arguments: vec![Expression::Literal {
            kind: LiteralKind::String,
            value: "Gold".to_string(),
            denomination: None,
        }],
    };
    assert_eq!(
        classify(&s),
        Ok(Some(TestStep::Constructor {
            contract: "Token".to_string(),
            arguments: vec!["\"Gold\"".to_string()],
        }))
    );
    let s = Statement::Construction { contract: "T".to_string(), arguments: vec![unsupported()] };
    assert_eq!(classify(&s), Err(TranslateError::UnsupportedNode("a + b".to_string())));
}

#[test]
fn steps_keep_the_order_of_their_statements() {
    let body = vec![
        Statement::VariableDeclaration {
            name: "x".to_string(),
            type_: "uint256".to_string(),
            initializer: None,
        },
        statement(call(ident("foo"), vec![ident("x")])),
        statement(call(ident("assertEq"), vec![call(ident("foo"), vec![ident("x")]), number("1")])),
    ];
    let steps = classify_all(&body).unwrap();
    assert_eq!(
        steps,
        vec![
            TestStep::VariableDeclaration {
                name: "x".to_string(),
                type_: "uint256".to_string(),
                value: None,
            },
            TestStep::FunctionCall {
                contract: None,
                function: "foo".to_string(),
                arguments: vec!["x".to_string()],
            },
            TestStep::Assertion {
                assert_type: "assertEq".to_string(),
                arguments: vec!["await contract.read.foo(x)".to_string(), "BigInt(1)".to_string()],
            },
        ]
    );
}

#[test]
fn skipped_statements_leave_the_order_of_the_others() {
    let body = vec![
        Statement::Unsupported,
        statement(call(ident("a"), vec![])),
        statement(ident("noise")),
        statement(call(ident("b"), vec![])),
        Statement::Unsupported,
        statement(call(ident("a"), vec![])),
    ];
    let names: Vec<String> = classify_all(&body)
        .unwrap()
        .into_iter()
        .map(|step| match step {
            TestStep::FunctionCall { function, .. } => function,
            _ => String::new(),
        })
        .collect();
    assert_eq!(names, vec!["a", "b", "a"]);
}

#[test]
fn a_body_fails_with_its_first_error() {
    let body = vec![
        statement(call(ident("a"), vec![])),
        statement(call(member(ident("vm"), "prank"), vec![])),
        statement(call(ident("f"), vec![unsupported()])),
    ];
    assert_eq!(classify_all(&body), Err(TranslateError::MissingActor));
    assert_eq!(classify_all(&vec![]), Ok(vec![]));
}

#[test]
fn assigned_and_declared_constructions_are_constructor_steps() {
    let expected = Ok(Some(TestStep::Constructor {
        contract: "Token".to_string(),
        arguments: vec!["owner".to_string()],
    }));
    let assigned = Statement::Assignment {
        target: ident("token"),
        value: Assigned::Construction {
            contract: "Token".to_string(),
            arguments: vec![ident("owner")],
        },
    };
    assert_eq!(classify(&assigned), expected);
    let declared = Statement::VariableDeclaration {
        name: "token".to_string(),
        type_: "Token".to_string(),
        initializer: Some(Assigned::Construction {
            contract: "Token".to_string(),
            arguments: vec![ident("owner")],
        }),
    };
    assert_eq!(classify(&declared), expected);
    let failing = Statement::Assignment {
        target: ident("token"),
        value: Assigned::Construction { contract: "Token".to_string(), arguments: vec![unsupported()] },
    };
    assert_eq!(classify(&failing), Err(TranslateError::UnsupportedNode("a + b".to_string())));
}

#[test]
fn assignment_of_an_expression_is_skipped() {
    let s = Statement::Assignment {
        target: ident("x"),
        value: Assigned::Expression(call(ident("f"), vec![unsupported()])),
    };
    assert_eq!(classify(&s), Ok(None));
}
