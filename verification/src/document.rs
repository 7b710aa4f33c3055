//! Documents of nested values, and the expressions that they describe.
//!
//! A document describes an expression as an object with a `type` member: a
//! `FunctionCall` with its `function` and `arguments`, a `MemberAccess` with its
//! `object` and `member`, a `Variable` or an `Identifier` with its name, a
//! `NumberLiteral` or a `HexNumberLiteral` with its `value`. An array describes an
//! array literal; a string, a number and a truth value describe literals.

use vstd::prelude::*;
use vstd::string::*;
use crate::error::{ErrorView, TranslateError};
use crate::expr::{Denomination, Expression, LiteralKind};
use crate::text::same_text;
use crate::translator::{translate, translation, translations};

verus! {

/// A value of a document: nothing, a truth value, a number as written, a string,
/// an array of values, or an object of named values.
#[derive(Debug, PartialEq, Eq)]
pub enum JsonValue {
    Null,
    Bool(bool),
    Number(String),
    String(String),
    Array(Vec<JsonValue>),
    Object(Vec<JsonMember>),
}

/// A named value of an object.
#[derive(Debug, PartialEq, Eq)]
pub struct JsonMember {
    pub key: String,
    pub value: JsonValue,
}

/// The value of the first member at or after `from` whose key is `key`.
pub open spec fn member_from(members: Seq<JsonMember>, key: Seq<char>, from: int) -> Option<
    JsonValue,
>
    decreases members.len() - from,
{
    if from < 0 || from >= members.len() {
        None
    } else if members[from].key@ == key {
        Some(members[from].value)
    } else {
        member_from(members, key, from + 1)
    }
}

/// The value that an object holds under `key`; none for a value that is no object
/// or holds no such key.
pub open spec fn member_of(value: JsonValue, key: Seq<char>) -> Option<JsonValue> {
    match value {
        JsonValue::Object(members) => member_from(members@, key, 0),
        _ => None,
    }
}

/// The string that an object holds under `key`; none where it holds no string
/// there.
pub open spec fn text_member(value: JsonValue, key: Seq<char>) -> Option<Seq<char>> {
    match member_of(value, key) {
        Some(JsonValue::String(text)) => Some(text@),
        _ => None,
    }
}

/// The value that an object holds under `key`.
pub fn member<'a>(value: &'a JsonValue, key: &str) -> (r: Option<&'a JsonValue>)
    ensures
        r is Some == member_of(*value, key@) is Some,
        r matches Some(found) ==> member_of(*value, key@) == Some(*found),
{
    match value {
        JsonValue::Object(members) => {
            let mut i: usize = 0;
            while i < members.len()
                invariant
                    i <= members.len(),
                    member_of(*value, key@) == member_from(members@, key@, 0),
                    member_from(members@, key@, 0) == member_from(members@, key@, i as int),
                decreases members.len() - i,
            {
                if same_text(members[i].key.as_str(), key) {
                    return Some(&members[i].value);
                }
                i += 1;
            }
            None
        },
        _ => None,
    }
}

/// The string that an object holds under `key`.
pub fn text<'a>(value: &'a JsonValue, key: &str) -> (r: Option<&'a str>)
    ensures
        r is Some == text_member(*value, key@) is Some,
        r matches Some(found) ==> text_member(*value, key@) == Some(found@),
{
    match member(value, key) {
        Some(JsonValue::String(found)) => Some(found.as_str()),
        _ => None,
    }
}

/// What a value describes, without the expressions inside it.
pub enum Shape {
    /// A call; the callee and the arguments are described by members.
    Call,
    /// A member access of the given member; the object is described by a member.
    Member(Seq<char>),
    /// An identifier of the given name.
    Name(Seq<char>),
    /// A literal of the given kind, text and unit.
    Literal(LiteralKind, Seq<char>, Option<Denomination>),
    /// An array literal; the elements are described by the items.
    Array,
    /// Nothing that has a translation; the description says what was found.
    Unsupported(Seq<char>),
}

/// The value that an object holds under `key`, and nothing where it holds none.
pub open spec fn child(value: JsonValue, key: Seq<char>) -> JsonValue {
    match member_of(value, key) {
        Some(found) => found,
        None => JsonValue::Null,
    }
}

/// The items of the array that an object holds under `key`, and none where it
/// holds no array there.
pub open spec fn items_of(value: JsonValue, key: Seq<char>) -> Seq<JsonValue> {
    match member_of(value, key) {
        Some(JsonValue::Array(items)) => items@,
        _ => Seq::empty(),
    }
}

/// The name that a value describes: that of a `Variable`, which holds it in the
/// `name` of its `name`, or that of an `Identifier`, which holds it in its `name`.
pub open spec fn name_of(value: JsonValue) -> Option<Seq<char>> {
    if text_member(value, "type"@) == Some("Variable"@) {
        text_member(child(value, "name"@), "name"@)
    } else if text_member(value, "type"@) == Some("Identifier"@) {
        text_member(value, "name"@)
    } else {
        None
    }
}

/// What a `NumberLiteral` describes: the number under `value`, with the unit under
/// `subdenomination`, if there is one. A literal without a value, or with a unit
/// of an unknown name, is unsupported.
pub open spec fn number_shape(value: JsonValue) -> Shape {
    match text_member(value, "value"@) {
        Some(digits) => number_with_unit(value, digits),
        None => Shape::Unsupported("NumberLiteral"@),
    }
}

/// What a `NumberLiteral` with the given digits describes.
pub open spec fn number_with_unit(value: JsonValue, digits: Seq<char>) -> Shape {
    match text_member(value, "subdenomination"@) {
        None => Shape::Literal(LiteralKind::Number, digits, None),
        Some(unit) => if unit.len() == 0 {
            Shape::Literal(LiteralKind::Number, digits, None)
        } else {
            match Denomination::named(unit) {
                Some(denomination) => Shape::Literal(
                    LiteralKind::Number,
                    digits,
                    Some(denomination),
                ),
                None => Shape::Unsupported("NumberLiteral"@),
            }
        },
    }
}

/// What a `HexNumberLiteral` describes: the number under `value`. Without a value
/// it is unsupported.
pub open spec fn hex_shape(value: JsonValue) -> Shape {
    match text_member(value, "value"@) {
        Some(digits) => Shape::Literal(LiteralKind::HexNumber, digits, None),
        None => Shape::Unsupported("HexNumberLiteral"@),
    }
}

/// What an object describes, by its `type`. An object without a type is described
/// as `object`, and one that is not supported by its type.
pub open spec fn object_shape(value: JsonValue) -> Shape {
    match text_member(value, "type"@) {
        None => Shape::Unsupported("object"@),
        Some(kind) => if kind == "FunctionCall"@ {
            Shape::Call
        } else if kind == "MemberAccess"@ {
            match name_of(child(value, "member"@)) {
                Some(name) => Shape::Member(name),
                None => Shape::Unsupported(kind),
            }
        } else if kind == "Variable"@ || kind == "Identifier"@ {
            match name_of(value) {
                Some(name) => Shape::Name(name),
                None => Shape::Unsupported(kind),
            }
        } else if kind == "NumberLiteral"@ {
            number_shape(value)
        } else if kind == "HexNumberLiteral"@ {
            hex_shape(value)
        } else {
            Shape::Unsupported(kind)
        },
    }
}

/// What a value describes.
pub open spec fn shape_of(value: JsonValue) -> Shape {
    match value {
        JsonValue::Null => Shape::Unsupported("null"@),
        JsonValue::Bool(truth) => Shape::Literal(
            LiteralKind::Bool,
            if truth {
                "true"@
            } else {
                "false"@
            },
            None,
        ),
        JsonValue::Number(digits) => Shape::Literal(LiteralKind::Number, digits@, None),
        JsonValue::String(text) => Shape::Literal(LiteralKind::String, text@, None),
        JsonValue::Array(_) => Shape::Array,
        JsonValue::Object(_) => object_shape(value),
    }
}

/// The items of an array, and none for any other value.
pub open spec fn items(value: JsonValue) -> Seq<JsonValue> {
    match value {
        JsonValue::Array(items) => items@,
        _ => Seq::empty(),
    }
}

/// `e` is the expression that `value` describes: it has the shape of the value,
/// and the expressions inside it are those that the values inside describe, one
/// for one and in the same order.
pub open spec fn describes(value: JsonValue, e: Expression) -> bool
    decreases e,
{
    match e {
        Expression::Call { callee, arguments } => {
            &&& shape_of(value) == Shape::Call
            &&& describes(child(value, "function"@), *callee)
            &&& arguments@.len() == items_of(value, "arguments"@).len()
            &&& forall|i: int|
                0 <= i < arguments@.len() ==> describes(
                    #[trigger] items_of(value, "arguments"@)[i],
                    arguments@[i],
                )
        },
        Expression::MemberAccess { object, member } => {
            &&& shape_of(value) == Shape::Member(member@)
            &&& describes(child(value, "object"@), *object)
        },
        Expression::Identifier { name } => shape_of(value) == Shape::Name(name@),
        Expression::Literal { kind, value: text, denomination } => shape_of(value)
            == Shape::Literal(kind, text@, denomination),
        Expression::ArrayLiteral { elements } => {
            &&& shape_of(value) == Shape::Array
            &&& elements@.len() == items(value).len()
            &&& forall|i: int|
                0 <= i < elements@.len() ==> describes(#[trigger] items(value)[i], elements@[i])
        },
        Expression::Unsupported { description } => shape_of(value) == Shape::Unsupported(
            description@,
        ),
    }
}

/// What an object holds under a key is smaller than the object.
pub proof fn lemma_member_is_smaller(value: JsonValue, key: Seq<char>)
    ensures
        member_of(value, key) matches Some(found) ==> decreases_to!(value => found),
{
    match value {
        JsonValue::Object(members) => {
            lemma_member_from_is_smaller(members@, key, 0);
            if let Some(found) = member_from(members@, key, 0) {
                let i = choose|i: int| 0 <= i < members@.len() && members@[i].value == found;
                assert(decreases_to!(value => members));
                assert(decreases_to!(members => members@));
                assert(decreases_to!(members@ => members@[i]));
                assert(decreases_to!(members@[i] => members@[i].value));
            }
        },
        _ => {},
    }
}

/// What a lookup finds is the value of one of the members.
pub proof fn lemma_member_from_is_smaller(members: Seq<JsonMember>, key: Seq<char>, from: int)
    requires
        0 <= from,
    ensures
        member_from(members, key, from) matches Some(found) ==> exists|i: int|
            0 <= i < members.len() && members[i].value == found,
    decreases members.len() - from,
{
    if from < members.len() && members[from].key@ != key {
        lemma_member_from_is_smaller(members, key, from + 1);
    }
}

/// The name that a value describes.
pub fn name_in<'a>(value: &'a JsonValue) -> (r: Option<&'a str>)
    ensures
        r is Some == name_of(*value) is Some,
        r matches Some(name) ==> name_of(*value) == Some(name@),
{
    match text(value, "type") {
        Some(kind) => {
            if same_text(kind, "Variable") {
                match member(value, "name") {
                    Some(inner) => text(inner, "name"),
                    None => None,
                }
            } else if same_text(kind, "Identifier") {
                text(value, "name")
            } else {
                None
            }
        },
        None => None,
    }
}

/// The unsupported node with the given description.
pub fn unsupported(description: &str) -> (r: Expression)
    ensures
        r matches Expression::Unsupported { description: text } && text@ == description@,
{
    Expression::Unsupported { description: String::from_str(description) }
}

/// The expression that stands for a member that an object does not hold.
pub fn missing() -> (r: Expression)
    ensures
        describes(JsonValue::Null, r),
{
    unsupported("null")
}

/// The expression that a document describes. A value that describes nothing with
/// a translation gives the unsupported node, wherever it stands.
pub fn expression_of(value: &JsonValue) -> (r: Expression)
    ensures
        describes(*value, r),
    decreases value,
{
    match value {
        JsonValue::Null => unsupported("null"),
        JsonValue::Bool(truth) => Expression::Literal {
            kind: LiteralKind::Bool,
            value: if *truth {
                String::from_str("true")
            } else {
                String::from_str("false")
            },
            denomination: None,
        },
        JsonValue::Number(digits) => Expression::Literal {
            kind: LiteralKind::Number,
            value: digits.clone(),
            denomination: None,
        },
        JsonValue::String(text) => Expression::Literal {
            kind: LiteralKind::String,
            value: text.clone(),
            denomination: None,
        },
        JsonValue::Array(items) => {
            let elements = expressions_of(items);
            Expression::ArrayLiteral { elements }
        },
        JsonValue::Object(_) => {
            let kind = match text(value, "type") {
                Some(kind) => kind,
                None => {
                    return unsupported("object");
                },
            };
            if same_text(kind, "FunctionCall") {
                proof {
                    lemma_member_is_smaller(*value, "function"@);
                    lemma_member_is_smaller(*value, "arguments"@);
                }
                let callee = match member(value, "function") {
                    Some(function) => expression_of(function),
                    None => missing(),
                };
                let arguments = match member(value, "arguments") {
                    Some(JsonValue::Array(items)) => expressions_of(items),
                    _ => Vec::new(),
                };
                Expression::Call { callee: Box::new(callee), arguments }
            } else if same_text(kind, "MemberAccess") {
                proof {
                    lemma_member_is_smaller(*value, "object"@);
                }
                let name = match member(value, "member") {
                    Some(node) => name_in(node),
                    None => None,
                };
                match name {
                    Some(name) => {
                        let object = match member(value, "object") {
                            Some(node) => expression_of(node),
                            None => missing(),
                        };
                        Expression::MemberAccess {
                            object: Box::new(object),
                            member: String::from_str(name),
                        }
                    },
                    None => unsupported(kind),
                }
            } else if same_text(kind, "Variable") || same_text(kind, "Identifier") {
                match name_in(value) {
                    Some(name) => Expression::Identifier { name: String::from_str(name) },
                    None => unsupported(kind),
                }
            } else if same_text(kind, "NumberLiteral") {
                let digits = match text(value, "value") {
                    Some(digits) => digits,
                    None => {
                        return unsupported(kind);
                    },
                };
                let unit = match text(value, "subdenomination") {
                    None => None,
                    Some(unit) => {
                        if unit.unicode_len() == 0 {
                            None
                        } else {
                            match Denomination::from_name(unit) {
                                Some(denomination) => Some(denomination),
                                None => {
                                    return unsupported(kind);
                                },
                            }
                        }
                    },
                };
                Expression::Literal {
                    kind: LiteralKind::Number,
                    value: String::from_str(digits),
                    denomination: unit,
                }
            } else if same_text(kind, "HexNumberLiteral") {
                match text(value, "value") {
                    Some(digits) => Expression::Literal {
                        kind: LiteralKind::HexNumber,
                        value: String::from_str(digits),
                        denomination: None,
                    },
                    None => unsupported(kind),
                }
            } else {
                unsupported(kind)
            }
        },
    }
}

/// The expressions that the values describe, one for one and in the same order.
pub fn expressions_of(values: &Vec<JsonValue>) -> (r: Vec<Expression>)
    ensures
        r@.len() == values@.len(),
        forall|i: int| 0 <= i < r@.len() ==> describes(#[trigger] values@[i], r@[i]),
    decreases values,
{
    let mut out: Vec<Expression> = Vec::new();
    let mut i: usize = 0;
    while i < values.len()
        invariant
            i <= values.len(),
            out@.len() == i,
            forall|k: int| 0 <= k < i ==> describes(#[trigger] values@[k], out@[k]),
        decreases values.len() - i,
    {
        let e = expression_of(&values[i]);
        out.push(e);
        i += 1;
    }
    out
}

/// A document fixes its translation: two expressions that the same value
/// describes are of the same kind, are called by the same name, and have the same
/// translation or fail with the same error.
pub proof fn lemma_description_fixes_translation(
    value: JsonValue,
    first: Expression,
    second: Expression,
)
    requires
        describes(value, first),
        describes(value, second),
    ensures
        first.kind() == second.kind(),
        first.trailing_name() == second.trailing_name(),
        translation(first) == translation(second),
    decreases first, 1int,
{
    match first {
        Expression::Call { callee, arguments } => {
            match second {
                Expression::Call { callee: other_callee, arguments: other_arguments } => {
                    lemma_description_fixes_translation(
                        child(value, "function"@),
                        *callee,
                        *other_callee,
                    );
                    lemma_descriptions_fix_translations(
                        items_of(value, "arguments"@),
                        arguments@,
                        other_arguments@,
                    );
                },
                _ => {},
            }
        },
        Expression::MemberAccess { object, member } => {
            match second {
                Expression::MemberAccess { object: other_object, member: other_member } => {
                    lemma_description_fixes_translation(
                        child(value, "object"@),
                        *object,
                        *other_object,
                    );
                },
                _ => {},
            }
        },
        Expression::ArrayLiteral { elements } => {
            match second {
                Expression::ArrayLiteral { elements: other_elements } => {
                    lemma_descriptions_fix_translations(items(value), elements@, other_elements@);
                },
                _ => {},
            }
        },
        _ => {},
    }
}

/// Two sequences of expressions that the same values describe, one for one, have
/// the same translations or fail with the same error.
pub proof fn lemma_descriptions_fix_translations(
    values: Seq<JsonValue>,
    first: Seq<Expression>,
    second: Seq<Expression>,
)
    requires
        first.len() == values.len(),
        second.len() == values.len(),
        forall|i: int| 0 <= i < values.len() ==> describes(#[trigger] values[i], first[i]),
        forall|i: int| 0 <= i < values.len() ==> describes(#[trigger] values[i], second[i]),
    ensures
        translations(first) == translations(second),
    decreases first, 0int,
{
    if first.len() > 0 {
        let shorter = values.drop_last();
        assert forall|i: int| 0 <= i < shorter.len() implies describes(
            #[trigger] shorter[i],
            first.drop_last()[i],
        ) by {
            assert(describes(values[i], first[i]));
        }
        assert forall|i: int| 0 <= i < shorter.len() implies describes(
            #[trigger] shorter[i],
            second.drop_last()[i],
        ) by {
            assert(describes(values[i], second[i]));
        }
        lemma_descriptions_fix_translations(shorter, first.drop_last(), second.drop_last());
        assert(describes(values[values.len() - 1], first.last()));
        assert(describes(values[values.len() - 1], second.last()));
        lemma_description_fixes_translation(values.last(), first.last(), second.last());
    }
}

/// The value type of the JSON parser.
#[verifier::external_type_specification]
#[verifier::external_body]
pub struct ExValue(serde_json::Value);

/// The document that a text writes in JSON, as `serde_json::from_str` parses it;
/// none where the text is no JSON.
pub uninterp spec fn document_of(text: Seq<char>) -> Option<JsonValue>;

/// Calls `serde_json::from_str` for a `serde_json::Value`. The contract claims only
/// that the result depends on the text alone: it is the document named
/// `document_of`, and none where the parser reports an error.
#[verifier::external_body]
pub(crate) fn parse_document(text: &str) -> (r: Option<JsonValue>)
    ensures
        r == document_of(text@),
{
    match serde_json::from_str::<serde_json::Value>(text) {
        Ok(value) => Some(held(&value)),
        Err(_) => None,
    }
}

/// Holds a `serde_json::Value` as a document, one value for one: a number as
/// `serde_json::Number` prints it, the members of an object in the order in which
/// `serde_json::Map` walks them. Nothing is claimed of the result.
#[verifier::external_body]
pub(crate) fn held(value: &serde_json::Value) -> JsonValue {
    match value {
        serde_json::Value::Null => JsonValue::Null,
        serde_json::Value::Bool(truth) => JsonValue::Bool(*truth),
        serde_json::Value::Number(number) => JsonValue::Number(number.to_string()),
        serde_json::Value::String(text) => JsonValue::String(text.clone()),
        serde_json::Value::Array(items) => JsonValue::Array(items.iter().map(held).collect()),
        serde_json::Value::Object(members) => JsonValue::Object(
            members.iter().map(|(k, v)| JsonMember { key: k.clone(), value: held(v) }).collect(),
        ),
    }
}

/// `out` is what a document translates to: the translation of the expression that
/// it describes, or the error of that translation.
pub open spec fn document_translates_as(
    document: JsonValue,
    out: Result<Seq<char>, ErrorView>,
) -> bool {
    exists|e: Expression| #[trigger] describes(document, e) && translation(e) == out
}

/// Translates the expression that a document describes. Fails as the translation
/// of the expression does.
pub fn translate_document(document: &JsonValue) -> (r: Result<String, TranslateError>)
    ensures
        r matches Ok(text) ==> document_translates_as(*document, Ok(text@)),
        r matches Err(error) ==> document_translates_as(*document, Err(error@)),
{
    let e = expression_of(document);
    let r = translate(&e);
    assert(describes(*document, e));
    r
}

/// Translates the expression that a text describes as a JSON document. Fails with
/// `NotADocument` where the text is no JSON, and else as the translation of the
/// expression does.
pub fn parse_assertion(arg: &str) -> (r: Result<String, TranslateError>)
    ensures
        document_of(arg@) is None ==> (r matches Err(error) && error@ == ErrorView::NotADocument),
        document_of(arg@) is Some ==> (r matches Ok(text) ==> document_translates_as(
            document_of(arg@)->0,
            Ok(text@),
        )),
        document_of(arg@) is Some ==> (r matches Err(error) ==> document_translates_as(
            document_of(arg@)->0,
            Err(error@),
        )),
{
    match parse_document(arg) {
        Some(document) => translate_document(&document),
        None => Err(TranslateError::NotADocument),
    }
}

} // verus!
