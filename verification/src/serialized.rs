//! Reading the printed form of a syntax node.
//!
//! A node is printed as its kind, an opening parenthesis, its fields separated by
//! comma and space, and a closing parenthesis: `FunctionCall(loc, callee, [items])`,
//! `MemberAccess(loc, object, member)`, `Variable(identifier)`,
//! `NumberLiteral(loc, "digits", "exponent", unit)`,
//! `HexNumberLiteral(loc, "digits", None)`, `ArrayLiteral(loc, [items])`. An
//! identifier is printed as the record `Identifier { loc: .., name: ".." }`.
//!
//! `printed` reads one node without the nodes inside it, `read_node` reads the
//! whole expression, and the other functions translate what was read. A text that
//! is no such node reads as the unsupported node, described by the text itself, so
//! that its translation is an error that names it.

use vstd::prelude::*;
use vstd::string::*;
use crate::error::{ErrorView, TranslateError};
use crate::expr::{scale, scale_of, Denomination, Expression, LiteralKind, NodeKind};
use crate::splitter::{lemma_pieces_fit, pieces_from, slice_views, split_scan};
use crate::text::{
    chars_of, ends_with, find_from, first_match, has_prefix, has_suffix, join, joined,
    lemma_first_match_from, occurs_at, same_text, slice_of, views,
};
use crate::translator::{
    call_text, lemma_translations_pointwise, literal_text, translate, translate_all,
    translate_literal, translation, translations,
};

verus! {

/// What stands between `opener` and `closer`, where the text begins with the one
/// and ends with the other.
pub open spec fn inside(text: Seq<char>, opener: Seq<char>, closer: Seq<char>) -> Option<
    Seq<char>,
> {
    if opener.len() + closer.len() <= text.len() && has_prefix(text, opener) && has_suffix(
        text,
        closer,
    ) {
        Some(text.subrange(opener.len() as int, text.len() - closer.len()))
    } else {
        None
    }
}

/// The fields of a text: its pieces between commas followed by a space, where
/// parentheses, brackets and braces are groups and quotes are kept whole.
pub open spec fn fields(content: Seq<char>) -> Seq<Seq<char>> {
    pieces_from(content, ", "@, 0, 0, 0, false, true)
}

/// The text between the double quotes of a quoted field.
pub open spec fn quoted_text(field: Seq<char>) -> Option<Seq<char>> {
    inside(field, "\""@, "\""@)
}

/// The name of a printed identifier record: its second field, `name: ".."`.
pub open spec fn record_name(record: Seq<char>) -> Option<Seq<char>> {
    match inside(record, "Identifier { "@, " }"@) {
        None => None,
        Some(content) => if fields(content).len() == 2 {
            match inside(fields(content)[1], "name: "@, Seq::empty()) {
                Some(quoted) => quoted_text(quoted),
                None => None,
            }
        } else {
            None
        },
    }
}

/// The unit of a printed number: `None`, or `Some(..)` around the record of a known
/// unit. The outer `None` stands for any other text.
pub open spec fn unit_of(field: Seq<char>) -> Option<Option<Denomination>> {
    if field == "None"@ {
        Some(None)
    } else {
        match inside(field, "Some("@, ")"@) {
            None => None,
            Some(record) => match record_name(record) {
                None => None,
                Some(name) => match Denomination::named(name) {
                    Some(unit) => Some(Some(unit)),
                    None => None,
                },
            },
        }
    }
}

/// The items of a printed list: the fields between its brackets.
pub open spec fn list_items(list: Seq<char>) -> Option<Seq<Seq<char>>> {
    match inside(list, "["@, "]"@) {
        Some(content) => Some(fields(content)),
        None => None,
    }
}

/// What a printed node is, with the texts of the nodes inside it.
pub enum PrintedShape {
    Call { callee: Seq<char>, items: Seq<Seq<char>> },
    Member { object: Seq<char>, member: Seq<char> },
    Name(Seq<char>),
    Literal(LiteralKind, Seq<char>, Option<Denomination>),
    Array { items: Seq<Seq<char>> },
    Unsupported,
}

/// What the fields of a printed call are.
pub open spec fn call_shape(parts: Seq<Seq<char>>) -> PrintedShape {
    if parts.len() == 3 && list_items(parts[2]) is Some {
        PrintedShape::Call { callee: parts[1], items: list_items(parts[2])->0 }
    } else {
        PrintedShape::Unsupported
    }
}

/// What the fields of a printed member access are.
pub open spec fn member_shape(parts: Seq<Seq<char>>) -> PrintedShape {
    if parts.len() == 3 && record_name(parts[2]) is Some {
        PrintedShape::Member { object: parts[1], member: record_name(parts[2])->0 }
    } else {
        PrintedShape::Unsupported
    }
}

/// What the fields of a printed number literal are: the digits, scaled by the
/// exponent and the unit. A printed number always has its exponent field, so it
/// always has a scale, of no places where nothing is written.
pub open spec fn number_shape(parts: Seq<Seq<char>>) -> PrintedShape {
    if parts.len() == 4 && quoted_text(parts[1]) is Some && quoted_text(parts[2]) is Some
        && unit_of(parts[3]) is Some && scale_of(quoted_text(parts[2])->0, unit_of(parts[3])->0)
        is Some {
        PrintedShape::Literal(
            LiteralKind::Number,
            quoted_text(parts[1])->0,
            scale_of(quoted_text(parts[2])->0, unit_of(parts[3])->0),
        )
    } else {
        PrintedShape::Unsupported
    }
}

/// What the fields of a printed hexadecimal literal are.
pub open spec fn hex_shape(parts: Seq<Seq<char>>) -> PrintedShape {
    if parts.len() == 3 && quoted_text(parts[1]) is Some && parts[2] == "None"@ {
        PrintedShape::Literal(LiteralKind::HexNumber, quoted_text(parts[1])->0, None)
    } else {
        PrintedShape::Unsupported
    }
}

/// What the fields of a printed array literal are.
pub open spec fn array_shape(parts: Seq<Seq<char>>) -> PrintedShape {
    if parts.len() == 2 && list_items(parts[1]) is Some {
        PrintedShape::Array { items: list_items(parts[1])->0 }
    } else {
        PrintedShape::Unsupported
    }
}

/// What a name is, if there is one.
pub open spec fn name_shape(name: Option<Seq<char>>) -> PrintedShape {
    match name {
        Some(name) => PrintedShape::Name(name),
        None => PrintedShape::Unsupported,
    }
}

/// What a printed node is. The kind is told by how the text begins; a text that
/// begins as no kind, or has not the fields of its kind, is unsupported.
pub open spec fn printed_shape(text: Seq<char>) -> PrintedShape {
    if inside(text, "FunctionCall("@, ")"@) is Some {
        call_shape(fields(inside(text, "FunctionCall("@, ")"@)->0))
    } else if inside(text, "MemberAccess("@, ")"@) is Some {
        member_shape(fields(inside(text, "MemberAccess("@, ")"@)->0))
    } else if inside(text, "Variable("@, ")"@) is Some {
        name_shape(record_name(inside(text, "Variable("@, ")"@)->0))
    } else if inside(text, "NumberLiteral("@, ")"@) is Some {
        number_shape(fields(inside(text, "NumberLiteral("@, ")"@)->0))
    } else if inside(text, "HexNumberLiteral("@, ")"@) is Some {
        hex_shape(fields(inside(text, "HexNumberLiteral("@, ")"@)->0))
    } else if inside(text, "ArrayLiteral("@, ")"@) is Some {
        array_shape(fields(inside(text, "ArrayLiteral("@, ")"@)->0))
    } else {
        name_shape(record_name(text))
    }
}

/// The text of the callee of a printed call.
pub open spec fn callee_text(text: Seq<char>) -> Seq<char> {
    match printed_shape(text) {
        PrintedShape::Call { callee, .. } => callee,
        _ => Seq::empty(),
    }
}

/// The text of the object of a printed member access.
pub open spec fn object_text(text: Seq<char>) -> Seq<char> {
    match printed_shape(text) {
        PrintedShape::Member { object, .. } => object,
        _ => Seq::empty(),
    }
}

/// The texts of the arguments of a printed call, or of the elements of a printed
/// array literal.
pub open spec fn item_texts(text: Seq<char>) -> Seq<Seq<char>> {
    match printed_shape(text) {
        PrintedShape::Call { items, .. } => items,
        PrintedShape::Array { items } => items,
        _ => Seq::empty(),
    }
}

/// `e` is the expression that `text` prints: it has the shape of the text, and the
/// expressions inside it are those that the texts inside print, one for one and in
/// the same order. A text that is no node prints the unsupported node that is
/// described by the text.
pub open spec fn reads_as(text: Seq<char>, e: Expression) -> bool
    decreases e,
{
    match e {
        Expression::Call { callee, arguments } => {
            &&& printed_shape(text) is Call
            &&& reads_as(callee_text(text), *callee)
            &&& arguments@.len() == item_texts(text).len()
            &&& forall|i: int|
                0 <= i < arguments@.len() ==> reads_as(
                    #[trigger] item_texts(text)[i],
                    arguments@[i],
                )
        },
        Expression::MemberAccess { object, member } => {
            &&& printed_shape(text) is Member
            &&& printed_shape(text)->member == member@
            &&& reads_as(object_text(text), *object)
        },
        Expression::Identifier { name } => printed_shape(text) == PrintedShape::Name(name@),
        Expression::Literal { kind, value, denomination } => printed_shape(text)
            == PrintedShape::Literal(kind, value@, denomination),
        Expression::ArrayLiteral { elements } => {
            &&& printed_shape(text) is Array
            &&& elements@.len() == item_texts(text).len()
            &&& forall|i: int|
                0 <= i < elements@.len() ==> reads_as(#[trigger] item_texts(text)[i], elements@[i])
        },
        Expression::Unsupported { description } => {
            &&& printed_shape(text) is Unsupported
            &&& description@ == text
        },
    }
}

/// A printed node as it was read, with the texts of the nodes inside it.
#[derive(Debug, PartialEq, Eq)]
pub enum Printed<'a> {
    Call { callee: &'a str, items: Vec<&'a str> },
    Member { object: &'a str, member: &'a str },
    Name(&'a str),
    Literal(LiteralKind, &'a str, Option<Denomination>),
    Array { items: Vec<&'a str> },
    Unsupported,
}

impl<'a> View for Printed<'a> {
    type V = PrintedShape;

    open spec fn view(&self) -> PrintedShape {
        match *self {
            Printed::Call { callee, items } => PrintedShape::Call {
                callee: callee@,
                items: slice_views(items@),
            },
            Printed::Member { object, member } => PrintedShape::Member {
                object: object@,
                member: member@,
            },
            Printed::Name(name) => PrintedShape::Name(name@),
            Printed::Literal(kind, digits, unit) => PrintedShape::Literal(kind, digits@, unit),
            Printed::Array { items } => PrintedShape::Array { items: slice_views(items@) },
            Printed::Unsupported => PrintedShape::Unsupported,
        }
    }
}

/// What stands between `opener` and `closer`.
pub fn inside_text<'a>(text: &'a str, opener: &str, closer: &str) -> (r: Option<&'a str>)
    ensures
        r is Some == inside(text@, opener@, closer@) is Some,
        r matches Some(content) ==> inside(text@, opener@, closer@) == Some(content@),
        r matches Some(content) ==> content@.len() + opener@.len() + closer@.len() == text@.len(),
{
    let whole = chars_of(text);
    let head = chars_of(opener);
    let tail = chars_of(closer);
    if head.len() > whole.len() || tail.len() > whole.len() - head.len() {
        return None;
    }
    if !occurs_at(&whole, &head, 0) || !occurs_at(&whole, &tail, whole.len() - tail.len()) {
        return None;
    }
    Some(slice_of(text, head.len(), whole.len() - tail.len()))
}

/// The fields of a text.
pub fn split_fields<'a>(content: &'a str) -> (r: Vec<&'a str>)
    ensures
        slice_views(r@) == fields(content@),
        forall|k: int| 0 <= k < r@.len() ==> (#[trigger] r@[k])@.len() <= content@.len(),
{
    let parts = split_scan(content, ", ", true);
    proof {
        lemma_pieces_fit(content@, ", "@, 0, 0, 0, false, true);
        assert forall|k: int| 0 <= k < parts@.len() implies (#[trigger] parts@[k])@.len()
            <= content@.len() by {
            assert(slice_views(parts@)[k] == parts@[k]@);
        }
    }
    parts
}

/// The text between the double quotes of a quoted field.
pub fn unquote<'a>(field: &'a str) -> (r: Option<&'a str>)
    ensures
        r is Some == quoted_text(field@) is Some,
        r matches Some(text) ==> quoted_text(field@) == Some(text@),
{
    inside_text(field, "\"", "\"")
}

/// The name of a printed identifier record.
pub fn read_record_name<'a>(record: &'a str) -> (r: Option<&'a str>)
    ensures
        r is Some == record_name(record@) is Some,
        r matches Some(name) ==> record_name(record@) == Some(name@),
{
    match inside_text(record, "Identifier { ", " }") {
        None => None,
        Some(content) => {
            let parts = split_fields(content);
            if parts.len() == 2 {
                assert(slice_views(parts@)[1] == parts@[1]@);
                proof {
                    reveal_strlit("");
                    assert(""@ =~= Seq::<char>::empty());
                }
                match inside_text(parts[1], "name: ", "") {
                    Some(quoted) => unquote(quoted),
                    None => None,
                }
            } else {
                None
            }
        },
    }
}

/// The unit of a printed number.
pub fn read_unit(field: &str) -> (r: Option<Option<Denomination>>)
    ensures
        r == unit_of(field@),
{
    if same_text(field, "None") {
        return Some(None);
    }
    match inside_text(field, "Some(", ")") {
        None => None,
        Some(record) => match read_record_name(record) {
            None => None,
            Some(name) => match Denomination::from_name(name) {
                Some(unit) => Some(Some(unit)),
                None => None,
            },
        },
    }
}

/// The items of a printed list.
pub fn read_list<'a>(list: &'a str) -> (r: Option<Vec<&'a str>>)
    ensures
        r is Some == list_items(list@) is Some,
        r matches Some(items) ==> list_items(list@) == Some(slice_views(items@)),
        r matches Some(items) ==> forall|k: int|
            0 <= k < items@.len() ==> (#[trigger] items@[k])@.len() < list@.len(),
{
    match inside_text(list, "[", "]") {
        Some(content) => {
            proof {
                reveal_strlit("[");
            }
            Some(split_fields(content))
        },
        None => None,
    }
}

/// Reads one printed node, without the nodes inside it. The texts inside are
/// shorter than the text.
pub fn printed<'a>(text: &'a str) -> (r: Printed<'a>)
    ensures
        r@ == printed_shape(text@),
        r matches Printed::Call { callee, items } ==> callee@.len() < text@.len() && forall|k: int|
            0 <= k < items@.len() ==> (#[trigger] items@[k])@.len() < text@.len(),
        r matches Printed::Member { object, .. } ==> object@.len() < text@.len(),
        r matches Printed::Array { items } ==> forall|k: int|
            0 <= k < items@.len() ==> (#[trigger] items@[k])@.len() < text@.len(),
{
    proof {
        reveal_strlit("FunctionCall(");
        reveal_strlit("MemberAccess(");
        reveal_strlit("ArrayLiteral(");
    }
    if let Some(content) = inside_text(text, "FunctionCall(", ")") {
        let parts = split_fields(content);
        if parts.len() == 3 {
            assert(slice_views(parts@)[1] == parts@[1]@);
            assert(slice_views(parts@)[2] == parts@[2]@);
            if let Some(items) = read_list(parts[2]) {
                return Printed::Call { callee: parts[1], items };
            }
        }
        Printed::Unsupported
    } else if let Some(content) = inside_text(text, "MemberAccess(", ")") {
        let parts = split_fields(content);
        if parts.len() == 3 {
            assert(slice_views(parts@)[1] == parts@[1]@);
            assert(slice_views(parts@)[2] == parts@[2]@);
            if let Some(member) = read_record_name(parts[2]) {
                return Printed::Member { object: parts[1], member };
            }
        }
        Printed::Unsupported
    } else if let Some(content) = inside_text(text, "Variable(", ")") {
        match read_record_name(content) {
            Some(name) => Printed::Name(name),
            None => Printed::Unsupported,
        }
    } else if let Some(content) = inside_text(text, "NumberLiteral(", ")") {
        let parts = split_fields(content);
        if parts.len() == 4 {
            assert(slice_views(parts@)[1] == parts@[1]@);
            assert(slice_views(parts@)[2] == parts@[2]@);
            assert(slice_views(parts@)[3] == parts@[3]@);
            if let Some(digits) = unquote(parts[1]) {
                if let Some(exponent) = unquote(parts[2]) {
                    if let Some(unit) = read_unit(parts[3]) {
                        if let Some(scaled) = scale(exponent, unit) {
                            return Printed::Literal(LiteralKind::Number, digits, Some(scaled));
                        }
                    }
                }
            }
        }
        Printed::Unsupported
    } else if let Some(content) = inside_text(text, "HexNumberLiteral(", ")") {
        let parts = split_fields(content);
        if parts.len() == 3 {
            assert(slice_views(parts@)[1] == parts@[1]@);
            assert(slice_views(parts@)[2] == parts@[2]@);
            if let Some(digits) = unquote(parts[1]) {
                if same_text(parts[2], "None") {
                    return Printed::Literal(LiteralKind::HexNumber, digits, None);
                }
            }
        }
        Printed::Unsupported
    } else if let Some(content) = inside_text(text, "ArrayLiteral(", ")") {
        let parts = split_fields(content);
        if parts.len() == 2 {
            assert(slice_views(parts@)[1] == parts@[1]@);
            if let Some(items) = read_list(parts[1]) {
                return Printed::Array { items };
            }
        }
        Printed::Unsupported
    } else {
        match read_record_name(text) {
            Some(name) => Printed::Name(name),
            None => Printed::Unsupported,
        }
    }
}

/// Reads the expression that a text prints.
pub fn read_node(text: &str) -> (r: Expression)
    ensures
        reads_as(text@, r),
    decreases text@.len(), 1int,
{
    match printed(text) {
        Printed::Call { callee, items } => {
            let callee = read_node(callee);
            let arguments = read_items(&items, text.unicode_len());
            Expression::Call { callee: Box::new(callee), arguments }
        },
        Printed::Member { object, member } => {
            let object = read_node(object);
            Expression::MemberAccess { object: Box::new(object), member: String::from_str(member) }
        },
        Printed::Name(name) => Expression::Identifier { name: String::from_str(name) },
        Printed::Literal(kind, digits, denomination) => Expression::Literal {
            kind,
            value: String::from_str(digits),
            denomination,
        },
        Printed::Array { items } => {
            let elements = read_items(&items, text.unicode_len());
            Expression::ArrayLiteral { elements }
        },
        Printed::Unsupported => Expression::Unsupported { description: String::from_str(text) },
    }
}

/// Reads the expressions that the texts print, one for one and in the same order.
pub fn read_items(items: &Vec<&str>, limit: usize) -> (r: Vec<Expression>)
    requires
        forall|k: int| 0 <= k < items@.len() ==> (#[trigger] items@[k])@.len() < limit,
    ensures
        r@.len() == items@.len(),
        forall|k: int| 0 <= k < r@.len() ==> reads_as(#[trigger] slice_views(items@)[k], r@[k]),
    decreases limit, 0int,
{
    let mut out: Vec<Expression> = Vec::new();
    let mut i: usize = 0;
    while i < items.len()
        invariant
            i <= items.len(),
            out@.len() == i,
            forall|k: int| 0 <= k < items@.len() ==> (#[trigger] items@[k])@.len() < limit,
            forall|k: int| 0 <= k < i ==> reads_as(#[trigger] slice_views(items@)[k], out@[k]),
        decreases items.len() - i,
    {
        assert(slice_views(items@)[i as int] == items@[i as int]@);
        let e = read_node(items[i]);
        out.push(e);
        i += 1;
    }
    out
}

/// A text fixes its translation: two expressions that the same text prints are of
/// the same kind, are called by the same name, and have the same translation or
/// fail with the same error.
pub proof fn lemma_reading_fixes_translation(text: Seq<char>, first: Expression, second: Expression)
    requires
        reads_as(text, first),
        reads_as(text, second),
    ensures
        first.kind() == second.kind(),
        first.trailing_name() == second.trailing_name(),
        translation(first) == translation(second),
    decreases first, 1int,
{
    match first {
        Expression::Call { callee, arguments } => {
            match second {
                Expression::Call { callee: other_callee, arguments: other_arguments } => {
                    lemma_reading_fixes_translation(callee_text(text), *callee, *other_callee);
                    lemma_readings_fix_translations(
                        item_texts(text),
                        arguments@,
                        other_arguments@,
                    );
                },
                _ => {},
            }
        },
        Expression::MemberAccess { object, member } => {
            match second {
                Expression::MemberAccess { object: other_object, member: other_member } => {
                    lemma_reading_fixes_translation(object_text(text), *object, *other_object);
                },
                _ => {},
            }
        },
        Expression::ArrayLiteral { elements } => {
            match second {
                Expression::ArrayLiteral { elements: other_elements } => {
                    lemma_readings_fix_translations(item_texts(text), elements@, other_elements@);
                },
                _ => {},
            }
        },
        _ => {},
    }
}

/// Two sequences of expressions that the same texts print, one for one, have the
/// same translations or fail with the same error.
pub proof fn lemma_readings_fix_translations(
    texts: Seq<Seq<char>>,
    first: Seq<Expression>,
    second: Seq<Expression>,
)
    requires
        first.len() == texts.len(),
        second.len() == texts.len(),
        forall|i: int| 0 <= i < texts.len() ==> reads_as(#[trigger] texts[i], first[i]),
        forall|i: int| 0 <= i < texts.len() ==> reads_as(#[trigger] texts[i], second[i]),
    ensures
        translations(first) == translations(second),
    decreases first, 0int,
{
    if first.len() > 0 {
        let shorter = texts.drop_last();
        assert forall|i: int| 0 <= i < shorter.len() implies reads_as(
            #[trigger] shorter[i],
            first.drop_last()[i],
        ) by {
            assert(reads_as(texts[i], first[i]));
        }
        assert forall|i: int| 0 <= i < shorter.len() implies reads_as(
            #[trigger] shorter[i],
            second.drop_last()[i],
        ) by {
            assert(reads_as(texts[i], second[i]));
        }
        lemma_readings_fix_translations(shorter, first.drop_last(), second.drop_last());
        assert(reads_as(texts[texts.len() - 1], first.last()));
        assert(reads_as(texts[texts.len() - 1], second.last()));
        lemma_reading_fixes_translation(texts.last(), first.last(), second.last());
    }
}

/// What a translation gave, as sequences of characters.
pub open spec fn outcome(r: Result<String, TranslateError>) -> Result<Seq<char>, ErrorView> {
    match r {
        Ok(text) => Ok(text@),
        Err(error) => Err(error@),
    }
}

/// `out` is what the node printed by `text` translates to: the translation of the
/// expression that the text prints, or the error of that translation.
pub open spec fn translates_as(text: Seq<char>, out: Result<Seq<char>, ErrorView>) -> bool {
    exists|e: Expression| #[trigger] reads_as(text, e) && translation(e) == out
}

/// `out` is what the printed list `items` translates to: the translations of the
/// expressions that the items print, joined by comma and space, or the first
/// error.
pub open spec fn list_translates_as(
    items: Seq<Seq<char>>,
    out: Result<Seq<char>, ErrorView>,
) -> bool {
    exists|es: Seq<Expression>|
        {
            &&& es.len() == items.len()
            &&& forall|i: int| 0 <= i < items.len() ==> reads_as(#[trigger] items[i], es[i])
            &&& #[trigger] translations(es) matches Ok(texts) ==> out == Ok::<
                Seq<char>,
                ErrorView,
            >(joined(texts, ", "@))
            &&& translations(es) matches Err(error) ==> out == Err::<Seq<char>, ErrorView>(error)
        }
}

/// The error for a text that is not the node that was asked for: the unsupported
/// node, described by the text.
pub fn refused(text: &str) -> (r: TranslateError)
    ensures
        r@ == ErrorView::UnsupportedNode(text@),
{
    TranslateError::UnsupportedNode(String::from_str(text))
}

/// Translates the node that a text prints. Fails as the translation of the
/// expression does; a text that is no node fails as the unsupported node that the
/// text describes.
pub fn parse_ast_string(input: &str) -> (r: Result<String, TranslateError>)
    ensures
        translates_as(input@, outcome(r)),
{
    let e = read_node(input);
    let r = translate(&e);
    assert(reads_as(input@, e) && translation(e) == outcome(r));
    r
}

/// Translates a printed call: routed by the name of its callee, with its
/// translated arguments. A text that is no printed call is refused.
pub fn parse_function_call_string(input: &str) -> (r: Result<String, TranslateError>)
    ensures
        printed_shape(input@) is Call ==> translates_as(input@, outcome(r)),
        !(printed_shape(input@) is Call) ==> outcome(r) == Err::<Seq<char>, ErrorView>(
            ErrorView::UnsupportedNode(input@),
        ),
{
    let e = read_node(input);
    match &e {
        Expression::Call { .. } => {
            let r = translate(&e);
            assert(reads_as(input@, e) && translation(e) == outcome(r));
            r
        },
        _ => Err(refused(input)),
    }
}

/// Translates a printed member access: the object, a dot, the member's name. A
/// text that is no printed member access is refused.
pub fn parse_member_access_string(input: &str) -> (r: Result<String, TranslateError>)
    ensures
        printed_shape(input@) is Member ==> translates_as(input@, outcome(r)),
        !(printed_shape(input@) is Member) ==> outcome(r) == Err::<Seq<char>, ErrorView>(
            ErrorView::UnsupportedNode(input@),
        ),
{
    let e = read_node(input);
    match &e {
        Expression::MemberAccess { .. } => {
            let r = translate(&e);
            assert(reads_as(input@, e) && translation(e) == outcome(r));
            r
        },
        _ => Err(refused(input)),
    }
}

/// What a printed number literal translates to: the constructor call around its
/// digits, padded by the places of its exponent and its unit.
pub open spec fn number_translation(text: Seq<char>) -> Result<Seq<char>, ErrorView> {
    match printed_shape(text) {
        PrintedShape::Literal(kind, digits, denomination) => Ok(
            literal_text(kind, digits, denomination),
        ),
        _ => Err(ErrorView::UnsupportedNode(text)),
    }
}

/// Translates a printed number literal, decimal or hexadecimal. A text that is no
/// printed number literal is refused.
pub fn parse_number_literal_string(input: &str) -> (r: Result<String, TranslateError>)
    ensures
        outcome(r) == number_translation(input@),
{
    match printed(input) {
        Printed::Literal(kind, digits, denomination) => Ok(
            translate_literal(kind, digits, denomination),
        ),
        _ => Err(refused(input)),
    }
}

/// Translates a printed number literal, as `parse_number_literal_string` does.
pub fn extract_number_literal(num: &str) -> (r: Result<String, TranslateError>)
    ensures
        outcome(r) == number_translation(num@),
{
    parse_number_literal_string(num)
}

/// The name that a text prints, if it prints a variable or an identifier.
pub open spec fn printed_name(text: Seq<char>) -> Result<Seq<char>, ErrorView> {
    match printed_shape(text) {
        PrintedShape::Name(name) => Ok(name),
        _ => Err(ErrorView::UnsupportedNode(text)),
    }
}

/// The name of a printed variable or identifier. Any other text is refused.
pub fn extract_variable_name(var: &str) -> (r: Result<String, TranslateError>)
    ensures
        outcome(r) == printed_name(var@),
{
    match printed(var) {
        Printed::Name(name) => Ok(String::from_str(name)),
        _ => Err(refused(var)),
    }
}

/// The name of a printed variable, `Variable(..)` around an identifier record. Any
/// other text is refused.
pub fn parse_variable_string(input: &str) -> (r: Result<String, TranslateError>)
    ensures
        outcome(r) == (if inside(input@, "Variable("@, ")"@) is Some {
            printed_name(input@)
        } else {
            Err(ErrorView::UnsupportedNode(input@))
        }),
{
    match inside_text(input, "Variable(", ")") {
        Some(_) => extract_variable_name(input),
        None => Err(refused(input)),
    }
}

/// The name of a printed identifier record. Any other text is refused.
pub fn parse_identifier_string(input: &str) -> (r: Result<String, TranslateError>)
    ensures
        outcome(r) == (match record_name(input@) {
            Some(name) => Ok(name),
            None => Err(ErrorView::UnsupportedNode(input@)),
        }),
{
    match read_record_name(input) {
        Some(name) => Ok(String::from_str(name)),
        None => Err(refused(input)),
    }
}

/// Translates a printed list: its items translated, joined by comma and space. A
/// text that is no list between brackets is refused.
pub fn parse_arguments_string(input: &str) -> (r: Result<String, TranslateError>)
    ensures
        list_items(input@) matches Some(items) ==> list_translates_as(items, outcome(r)),
        list_items(input@) is None ==> outcome(r) == Err::<Seq<char>, ErrorView>(
            ErrorView::UnsupportedNode(input@),
        ),
{
    match read_list(input) {
        None => Err(refused(input)),
        Some(items) => {
            let es = read_items(&items, input.unicode_len());
            let r = match translate_all(&es) {
                Ok(texts) => Ok(join(&texts, ", ")),
                Err(error) => Err(error),
            };
            proof {
                let shown = slice_views(items@);
                assert(es@.len() == shown.len());
                assert(forall|i: int| 0 <= i < shown.len() ==> reads_as(#[trigger] shown[i], es@[i]));
                assert(translations(es@) matches Ok(texts) ==> outcome(r) == Ok::<
                    Seq<char>,
                    ErrorView,
                >(joined(texts, ", "@)));
                assert(translations(es@) matches Err(error) ==> outcome(r) == Err::<
                    Seq<char>,
                    ErrorView,
                >(error));
            }
            r
        },
    }
}

/// The kind of node that a shape is.
pub open spec fn shape_kind(shape: PrintedShape) -> NodeKind {
    match shape {
        PrintedShape::Call { .. } => NodeKind::Call,
        PrintedShape::Member { .. } => NodeKind::MemberAccess,
        PrintedShape::Name(_) => NodeKind::Identifier,
        PrintedShape::Literal(..) => NodeKind::Literal,
        PrintedShape::Array { .. } => NodeKind::ArrayLiteral,
        PrintedShape::Unsupported => NodeKind::Unsupported,
    }
}

/// The name by which a printed call calls: the name of a callee that is a variable
/// or an identifier, the member of one that is a member access, and an error for
/// any other callee and for a text that is no printed call.
pub open spec fn called_name(text: Seq<char>) -> Result<Seq<char>, ErrorView> {
    match printed_shape(text) {
        PrintedShape::Call { callee, .. } => match printed_shape(callee) {
            PrintedShape::Name(name) => Ok(name),
            PrintedShape::Member { member, .. } => Ok(member),
            other => Err(ErrorView::InvalidCallee(shape_kind(other))),
        },
        _ => Err(ErrorView::UnsupportedNode(text)),
    }
}

/// The name by which a printed call calls.
pub fn extract_function_name(func_call: &str) -> (r: Result<String, TranslateError>)
    ensures
        outcome(r) == called_name(func_call@),
{
    match printed(func_call) {
        Printed::Call { callee, .. } => match printed(callee) {
            Printed::Name(name) => Ok(String::from_str(name)),
            Printed::Member { member, .. } => Ok(String::from_str(member)),
            Printed::Call { .. } => Err(TranslateError::InvalidCallee(NodeKind::Call)),
            Printed::Literal(..) => Err(TranslateError::InvalidCallee(NodeKind::Literal)),
            Printed::Array { .. } => Err(TranslateError::InvalidCallee(NodeKind::ArrayLiteral)),
            Printed::Unsupported => Err(TranslateError::InvalidCallee(NodeKind::Unsupported)),
        },
        _ => Err(refused(func_call)),
    }
}

/// The texts of the arguments of a call: the text is a name, an opening
/// parenthesis, fields, and a closing parenthesis, and the last field is a list
/// between brackets, whose items are the arguments.
pub open spec fn argument_texts(text: Seq<char>) -> Option<Seq<Seq<char>>> {
    match first_match(text, "("@) {
        None => None,
        Some(open) => if has_suffix(text, ")"@) && open + 2 <= text.len() {
            let parts = fields(text.subrange(open + 1, text.len() - 1));
            if parts.len() > 0 {
                list_items(parts.last())
            } else {
                None
            }
        } else {
            None
        },
    }
}

/// The texts of the arguments of a call, each as it stands in the text. A text
/// without such a list is refused.
pub fn extract_function_args(func_call: &str) -> (r: Result<Vec<String>, TranslateError>)
    ensures
        r matches Ok(args) ==> argument_texts(func_call@) == Some(views(args@)),
        r matches Err(error) ==> argument_texts(func_call@) is None && error@
            == ErrorView::UnsupportedNode(func_call@),
{
    let chars = chars_of(func_call);
    let paren = chars_of("(");
    let open = match find_from(&chars, &paren, 0) {
        Some(open) => open,
        None => {
            return Err(refused(func_call));
        },
    };
    proof {
        lemma_first_match_from(func_call@, "("@, 0);
        reveal_strlit("(");
    }
    if !ends_with(func_call, ")") || chars.len() < 2 || open > chars.len() - 2 {
        return Err(refused(func_call));
    }
    let parts = split_fields(slice_of(func_call, open + 1, chars.len() - 1));
    if parts.len() == 0 {
        return Err(refused(func_call));
    }
    assert(slice_views(parts@)[parts@.len() - 1] == parts@[parts@.len() - 1]@);
    match read_list(parts[parts.len() - 1]) {
        None => Err(refused(func_call)),
        Some(items) => {
            let mut args: Vec<String> = Vec::new();
            let mut i: usize = 0;
            while i < items.len()
                invariant
                    i <= items.len(),
                    views(args@) =~= slice_views(items@).take(i as int),
                decreases items.len() - i,
            {
                let arg = String::from_str(items[i]);
                assert(views(args@.push(arg)) =~= views(args@).push(arg@));
                assert(slice_views(items@).take(i + 1) =~= slice_views(items@).take(i as int).push(
                    items@[i as int]@,
                ));
                args.push(arg);
                i += 1;
            }
            assert(slice_views(items@).take(items.len() as int) =~= slice_views(items@));
            Ok(args)
        },
    }
}

/// A printed call that translates is routed by the name that it calls: its
/// translation is the call text of that name with the translations of the
/// expressions that its argument texts print, as many as there are argument texts.
pub proof fn lemma_printed_call_is_routed(text: Seq<char>, e: Expression)
    requires
        printed_shape(text) is Call,
        reads_as(text, e),
        translation(e) is Ok,
    ensures
        e is Call,
        called_name(text) is Ok,
        translations(e->arguments@) is Ok,
        e->arguments@.len() == item_texts(text).len(),
        translation(e)->Ok_0 == call_text(
            called_name(text)->Ok_0,
            translations(e->arguments@)->Ok_0,
        ),
{
    match e {
        Expression::Call { callee, arguments } => {
            assert(reads_as(callee_text(text), *callee));
        },
        _ => {},
    }
}

/// The text of a printed literal depends on the literal alone: wherever it stands
/// in a printed list that translates, its text in the translated list is the
/// translation of the literal by itself.
pub proof fn lemma_printed_literal_is_context_free(
    items: Seq<Seq<char>>,
    es: Seq<Expression>,
    at: int,
)
    requires
        0 <= at < items.len(),
        es.len() == items.len(),
        forall|i: int| 0 <= i < items.len() ==> reads_as(#[trigger] items[i], es[i]),
        translations(es) is Ok,
        printed_shape(items[at]) is Literal,
    ensures
        number_translation(items[at]) == Ok::<Seq<char>, ErrorView>(translations(es)->Ok_0[at]),
{
    lemma_translations_pointwise(es);
    assert(reads_as(items[at], es[at]));
}

} // verus!
