use foundry_js::error::TranslateError;
use foundry_js::expr::{Denomination, Expression, LiteralKind, NodeKind};
use foundry_js::serialized::{
    extract_function_args, extract_function_name, extract_number_literal, extract_variable_name,
    inside_text, parse_arguments_string, parse_ast_string, parse_function_call_string,
    parse_identifier_string, parse_member_access_string, parse_number_literal_string,
    parse_variable_string, printed, read_list, read_node, read_record_name, read_unit,
    split_fields, unquote, Printed,
};

const L: &str = "File(0, 1, 2)";

fn record(name: &str) -> String {
    format!("Identifier {{ loc: {}, name: \"{}\" }}", L, name)
}

fn var(name: &str) -> String {
    format!("Variable({})", record(name))
}

fn member(object: &str, name: &str) -> String {
    format!("MemberAccess({}, {}, {})", L, object, record(name))
}

fn call(callee: &str, arguments: &[String]) -> String {
    format!("FunctionCall({}, {}, [{}])", L, callee, arguments.join(", "))
}

fn number(digits: &str, exponent: &str, unit: Option<&str>) -> String {
    let unit = match unit {
        Some(name) => format!("Some({})", record(name)),
        None => "None".to_string(),
    };
    format!("NumberLiteral({}, \"{}\", \"{}\", {})", L, digits, exponent, unit)
}

fn refused(text: &str) -> TranslateError {
    TranslateError::UnsupportedNode(text.to_string())
}

fn ident(name: &str) -> Expression {
    Expression::Identifier { name: name.to_string() }
}

#[test]
fn printed_number_with_exponent_is_padded() {
    let text = r#"NumberLiteral(File(0, 479, 485), "100", "18", None)"#;
    let expected = Ok(r#"BigInt("100000000000000000000")"#.to_string());
    assert_eq!(parse_number_literal_string(text), expected);
    assert_eq!(extract_number_literal(text), expected);
    assert_eq!(parse_ast_string(text), expected);
}

#[test]
fn printed_number_without_scale_wraps_the_digits() {
    let text = r#"NumberLiteral(File(0, 1, 2), "42", "", None)"#;
    assert_eq!(parse_number_literal_string(text), Ok(r#"BigInt("42")"#.to_string()));
}

#[test]
fn printed_number_with_unit_and_exponent() {
    assert_eq!(
        parse_number_literal_string(&number("5", "", Some("gwei"))),
        Ok(r#"BigInt("5000000000")"#.to_string())
    );
    assert_eq!(
        parse_number_literal_string(&number("1", "3", Some("ether"))),
        Ok(r#"BigInt("1000000000000000000000")"#.to_string())
    );
    assert_eq!(parse_number_literal_string(&number("9", "0", None)), Ok(r#"BigInt("9")"#.to_string()));
}

#[test]
fn printed_number_of_any_length_keeps_every_digit() {
    let digits = "123456789012345678901234567890";
    assert_eq!(
        parse_number_literal_string(&number(digits, "18", None)),
        Ok(format!("BigInt(\"{}000000000000000000\")", digits))
    );
}

#[test]
fn printed_hex_number() {
    let text = format!("HexNumberLiteral({}, \"0x1f\", None)", L);
    assert_eq!(parse_number_literal_string(&text), Ok(r#"BigInt("0x1f")"#.to_string()));
    assert_eq!(parse_ast_string(&text), Ok(r#"BigInt("0x1f")"#.to_string()));
}

#[test]
fn text_that_is_no_number_literal_is_refused() {
    for text in [
        "",
        "NumberLiteral(1)",
        r#"NumberLiteral(File(0, 1, 2), "1", "x", None)"#,
        r#"NumberLiteral(File(0, 1, 2), "1", "-2", None)"#,
        r#"NumberLiteral(File(0, 1, 2), 1, "", None)"#,
        r#"NumberLiteral(File(0, 1, 2), "1", "", Maybe)"#,
        r#", "12"#,
    ] {
        assert_eq!(parse_number_literal_string(text), Err(refused(text)));
        assert_eq!(extract_number_literal(text), Err(refused(text)));
    }
    let days = number("1", "", Some("days"));
    assert_eq!(parse_number_literal_string(&days), Err(refused(&days)));
    assert_eq!(parse_number_literal_string(&var("x")), Err(refused(&var("x"))));
}

#[test]
fn printed_call_without_arguments_is_read_through_the_read_interface() {
    let text = r#"FunctionCall(File(0, 1, 2), Variable(Identifier { loc: File(0, 1, 2), name: "foo" }), [])"#;
    assert_eq!(parse_function_call_string(text), Ok("await contract.read.foo()".to_string()));
    assert_eq!(parse_ast_string(text), Ok("await contract.read.foo()".to_string()));
}

#[test]
fn printed_call_with_one_argument() {
    let text = r#"FunctionCall(File(0, 1, 2), Variable(Identifier { loc: File(0, 1, 2), name: "foo" }), [Variable(Identifier { loc: File(0, 1, 2), name: "x" })])"#;
    assert_eq!(parse_function_call_string(text), Ok("await contract.read.foo(x)".to_string()));
}

#[test]
fn printed_transfer_is_written_through_the_write_interface() {
    let text = call(
        &member(&var("token"), "transfer"),
        &[var("bob"), number("100", "18", None)],
    );
    assert_eq!(
        parse_function_call_string(&text),
        Ok(r#"contract.write.transfer(bob, BigInt("100000000000000000000"))"#.to_string())
    );
}

#[test]
fn printed_calls_are_routed_by_name() {
    for name in ["transfer", "approve", "transferFrom"] {
        let text = call(&member(&var("token"), name), &[var("a")]);
        assert_eq!(parse_function_call_string(&text), Ok(format!("contract.write.{}(a)", name)));
        let bare = call(&var(name), &[var("a")]);
        assert_eq!(parse_function_call_string(&bare), Ok(format!("contract.write.{}(a)", name)));
    }
    for name in ["balanceOf", "transferOwnership", "mint"] {
        let text = call(&member(&var("token"), name), &[var("bob")]);
        assert_eq!(
            parse_function_call_string(&text),
            Ok(format!("await contract.read.{}(bob)", name))
        );
    }
}

#[test]
fn printed_nested_call_keeps_every_argument() {
    let inner = call(&var("bar"), &[var("a"), var("b")]);
    let text = call(&var("foo"), &[inner, var("c")]);
    assert_eq!(
        parse_function_call_string(&text),
        Ok("await contract.read.foo(await contract.read.bar(a, b), c)".to_string())
    );
}

#[test]
fn printed_call_with_an_invalid_callee_is_rejected() {
    let text = call(&number("1", "", None), &[]);
    assert_eq!(
        parse_function_call_string(&text),
        Err(TranslateError::InvalidCallee(NodeKind::Literal))
    );
    let text = call(&call(&var("f"), &[]), &[]);
    assert_eq!(parse_function_call_string(&text), Err(TranslateError::InvalidCallee(NodeKind::Call)));
    let text = call("Add(a, b)", &[]);
    assert_eq!(
        parse_function_call_string(&text),
        Err(TranslateError::InvalidCallee(NodeKind::Unsupported))
    );
}

#[test]
fn text_that_is_no_printed_call_is_refused() {
    for text in [
        "",
        "FunctionCall(loc, f)",
        "FunctionCall(File(0, 1, 2), f, g, [])",
        "FunctionCall(File(0, 1, 2), f, x)",
        "foo(x)",
    ] {
        assert_eq!(parse_function_call_string(text), Err(refused(text)));
    }
    assert_eq!(parse_function_call_string(&var("x")), Err(refused(&var("x"))));
}

#[test]
fn printed_call_with_an_unsupported_argument_names_it() {
    let text = call(&var("f"), &[var("a"), "Add(File(0, 1, 2), x, y)".to_string()]);
    assert_eq!(parse_function_call_string(&text), Err(refused("Add(File(0, 1, 2), x, y)")));
}

#[test]
fn printed_member_access() {
    let text = r#"MemberAccess(File(0, 1, 2), Variable(Identifier { loc: File(0, 1, 2), name: "token" }), Identifier { loc: File(0, 1, 2), name: "transfer" })"#;
    assert_eq!(parse_member_access_string(text), Ok("token.transfer".to_string()));
    let chain = member(&member(&var("a"), "b"), "c");
    assert_eq!(parse_member_access_string(&chain), Ok("a.b.c".to_string()));
    assert_eq!(parse_ast_string(&chain), Ok("a.b.c".to_string()));
}

#[test]
fn text_that_is_no_printed_member_access_is_refused() {
    for text in ["", "MemberAccess(loc, token)", "MemberAccess(File(0, 1, 2), a, b)", "a.b"] {
        assert_eq!(parse_member_access_string(text), Err(refused(text)));
    }
}

#[test]
fn printed_identifier_record_is_its_name() {
    let text = r#"Identifier { loc: File(0, 1, 2), name: "transfer" }"#;
    assert_eq!(parse_ast_string(text), Ok("transfer".to_string()));
    assert_eq!(parse_identifier_string(text), Ok("transfer".to_string()));
    assert_eq!(extract_variable_name(text), Ok("transfer".to_string()));
    assert_eq!(read_record_name(text), Some("transfer"));
}

#[test]
fn printed_variable_is_its_name() {
    let text = r#"Variable(Identifier { loc: File(0, 474, 477), name: "bob" })"#;
    assert_eq!(parse_ast_string(text), Ok("bob".to_string()));
    assert_eq!(parse_variable_string(text), Ok("bob".to_string()));
    assert_eq!(extract_variable_name(text), Ok("bob".to_string()));
    assert_eq!(parse_variable_string(&var("")), Ok(String::new()));
}

#[test]
fn text_that_prints_no_name_is_refused() {
    for text in [
        "",
        "bob",
        "Identifier(x)",
        "Variable(x)",
        "Variable(Other { name: \"bob\" })",
        "Variable(Identifier { loc: File(0, 1, 2) })",
        "Identifier { name: \"a\", name: \"b\", name: \"c\" }",
        "Identifier { loc: File(0, 1, 2), name: bob }",
    ] {
        assert_eq!(extract_variable_name(text), Err(refused(text)));
        assert_eq!(parse_variable_string(text), Err(refused(text)));
        assert_eq!(parse_identifier_string(text), Err(refused(text)));
    }
    assert_eq!(parse_variable_string(&record("x")), Err(refused(&record("x"))));
    assert_eq!(parse_identifier_string(&var("x")), Err(refused(&var("x"))));
}

#[test]
fn text_of_no_known_kind_is_rejected_by_name() {
    for text in ["Add(File(0, 1, 2), a, b)", "Ternary(..)", "File(0, 1, 2)", "bob", ""] {
        assert_eq!(parse_ast_string(text), Err(refused(text)));
    }
}

#[test]
fn printed_array_literal() {
    let text = format!("ArrayLiteral({}, [{}, {}])", L, var("a"), number("1", "", None));
    assert_eq!(parse_ast_string(&text), Ok(r#"[a, BigInt("1")]"#.to_string()));
}

#[test]
fn printed_list_translates_item_by_item() {
    let list = format!("[{}, {}, {}]", var("a"), call(&var("f"), &[var("x"), var("y")]), var("c"));
    assert_eq!(parse_arguments_string(&list), Ok("a, await contract.read.f(x, y), c".to_string()));
    assert_eq!(parse_arguments_string("[]"), Ok(String::new()));
}

#[test]
fn printed_list_strips_one_pair_of_brackets() {
    let inner = format!("ArrayLiteral({}, [{}, {}])", L, var("a"), var("b"));
    let list = format!("[{}, {}]", inner, var("c"));
    assert_eq!(parse_arguments_string(&list), Ok("[a, b], c".to_string()));
    assert_eq!(read_list("[[a, b], c]"), Some(vec!["[a, b]", "c"]));
}

#[test]
fn text_that_is_no_list_is_refused() {
    for text in ["", "a", "[a", "a]"] {
        assert_eq!(parse_arguments_string(text), Err(refused(text)));
    }
    assert_eq!(parse_arguments_string("[a]"), Err(refused("a")));
}

#[test]
fn function_name_is_the_trailing_name_of_the_callee() {
    let text = call(&member(&var("token"), "balanceOf"), &[var("bob")]);
    assert_eq!(extract_function_name(&text), Ok("balanceOf".to_string()));
    let bare = call(&var("assertEq"), &[var("a"), var("b")]);
    assert_eq!(extract_function_name(&bare), Ok("assertEq".to_string()));
}

#[test]
fn function_name_errors() {
    let text = call(&number("1", "", None), &[var("bob")]);
    assert_eq!(extract_function_name(&text), Err(TranslateError::InvalidCallee(NodeKind::Literal)));
    let text = call("Add(a, b)", &[]);
    assert_eq!(
        extract_function_name(&text),
        Err(TranslateError::InvalidCallee(NodeKind::Unsupported))
    );
    assert_eq!(extract_function_name("name: \"x\""), Err(refused("name: \"x\"")));
    assert_eq!(extract_function_name(&var("x")), Err(refused(&var("x"))));
}

#[test]
fn function_arguments_are_the_items_of_the_list() {
    assert_eq!(extract_function_args("f([x, y])"), Ok(vec!["x".to_string(), "y".to_string()]));
    assert_eq!(extract_function_args("f([])"), Ok(vec![]));
    assert_eq!(
        extract_function_args("f([g(a, b), [c, d], \"e, f\", {h, i}])"),
        Ok(vec![
            "g(a, b)".to_string(),
            "[c, d]".to_string(),
            "\"e, f\"".to_string(),
            "{h, i}".to_string(),
        ])
    );
    let text = call(&var("foo"), &[var("a"), number("1", "", None)]);
    assert_eq!(extract_function_args(&text), Ok(vec![var("a"), number("1", "", None)]));
}

#[test]
fn function_arguments_of_text_without_a_list_are_refused() {
    for text in ["", "f(a, b)", "[a, b]", "f([a, b]", "f()", "(", "f([a], b)"] {
        assert_eq!(extract_function_args(text), Err(refused(text)));
    }
}

#[test]
fn nodes_are_read_as_expressions() {
    let text = call(&member(&var("token"), "transfer"), &[var("bob"), number("100", "18", None)]);
    assert_eq!(
        read_node(&text),
        Expression::Call {
            callee: Box::new(Expression::MemberAccess {
                object: Box::new(ident("token")),
                member: "transfer".to_string(),
            }),
            arguments: vec![
                ident("bob"),
                Expression::Literal {
                    kind: LiteralKind::Number,
                    value: "100".to_string(),
                    denomination: Some(Denomination::Places(18)),
                },
            ],
        }
    );
    assert_eq!(read_node("x + y"), Expression::Unsupported { description: "x + y".to_string() });
}

#[test]
fn one_node_is_read_without_the_nodes_inside() {
    let text = call(&var("f"), &[var("a"), var("b")]);
    let seen = printed(&text);
    match &seen {
        Printed::Call { callee, items } => {
            assert_eq!(*callee, var("f"));
            assert_eq!(items.len(), 2);
            assert_eq!(items[1], var("b"));
        }
        other => panic!("not a call: {:?}", other),
    }
    assert_eq!(printed(&var("x")), Printed::Name("x"));
    assert_eq!(printed("?"), Printed::Unsupported);
}

#[test]
fn reading_helpers() {
    assert_eq!(inside_text("Variable(x)", "Variable(", ")"), Some("x"));
    assert_eq!(inside_text("Variable(x", "Variable(", ")"), None);
    assert_eq!(inside_text("\"", "\"", "\""), None);
    assert_eq!(inside_text("\"\"", "\"", "\""), Some(""));
    assert_eq!(unquote("\"ab\""), Some("ab"));
    assert_eq!(unquote("ab"), None);
    assert_eq!(split_fields("a, {b, c}, (d, e), [f, g], \"h, i\""), vec![
        "a", "{b, c}", "(d, e)", "[f, g]", "\"h, i\""
    ]);
    assert_eq!(read_unit("None"), Some(None));
    assert_eq!(read_unit(&format!("Some({})", record("ether"))), Some(Some(Denomination::Ether)));
    assert_eq!(read_unit(&format!("Some({})", record("days"))), None);
    assert_eq!(read_unit("none"), None);
}
