//! Translation of an expression into the text of a client-side expression.
//!
//! Children are translated before their parents. A call is routed by the name of
//! its callee: the mutating names go through the write interface, every other name
//! through the read interface, awaited.

use vstd::prelude::*;
use vstd::string::*;
use crate::error::{ErrorView, TranslateError};
use crate::expr::{Denomination, Expression, LiteralKind};
use crate::splitter::{is_closed, lemma_split_of_joined, split};
use crate::text::{is_trimmed, join, joined, same_text, views, CharClass};

verus! {

/// `n` zero digits.
pub open spec fn zeros(n: nat) -> Seq<char> {
    Seq::new(n, |i: int| '0')
}

/// The digits of a decimal number scaled by ten to the power `places`: the digits
/// as written, with that many zeros behind them.
pub open spec fn scaled_digits(digits: Seq<char>, places: nat) -> Seq<char> {
    digits + zeros(places)
}

/// The text that stands for a literal.
pub open spec fn literal_text(
    kind: LiteralKind,
    value: Seq<char>,
    denomination: Option<Denomination>,
) -> Seq<char> {
    match kind {
        LiteralKind::Number => match denomination {
            Some(unit) => "BigInt(\""@ + scaled_digits(value, unit.decimals()) + "\")"@,
            None => "BigInt("@ + value + ")"@,
        },
        LiteralKind::HexNumber => "BigInt(\""@ + value + "\")"@,
        LiteralKind::String => "\""@ + value + "\""@,
        LiteralKind::Bool => value,
    }
}

/// The names of the operations that change state.
pub open spec fn is_mutating(name: Seq<char>) -> bool {
    name == "transfer"@ || name == "approve"@ || name == "transferFrom"@
}

/// The text of a call of `name` with the translated arguments `arguments`.
pub open spec fn call_text(name: Seq<char>, arguments: Seq<Seq<char>>) -> Seq<char> {
    if is_mutating(name) {
        "contract.write."@ + name + "("@ + joined(arguments, ", "@) + ")"@
    } else {
        "await contract.read."@ + name + "("@ + joined(arguments, ", "@) + ")"@
    }
}

/// The text of an array of the translated elements `elements`.
pub open spec fn array_text(elements: Seq<Seq<char>>) -> Seq<char> {
    "["@ + joined(elements, ", "@) + "]"@
}

/// The translation of an expression, or the error that is met first. Of a call the
/// shape of the callee is looked at first, then the callee is translated, then the
/// arguments from left to right.
pub open spec fn translation(e: Expression) -> Result<Seq<char>, ErrorView>
    decreases e,
{
    match e {
        Expression::Literal { kind, value, denomination } => Ok(
            literal_text(kind, value@, denomination),
        ),
        Expression::Identifier { name } => Ok(name@),
        Expression::MemberAccess { object, member } => match translation(*object) {
            Ok(text) => Ok(text + "."@ + member@),
            Err(error) => Err(error),
        },
        Expression::Call { callee, arguments } => match callee.trailing_name() {
            None => Err(ErrorView::InvalidCallee(callee.kind())),
            Some(name) => match translation(*callee) {
                Err(error) => Err(error),
                Ok(_) => match translations(arguments@) {
                    Err(error) => Err(error),
                    Ok(texts) => Ok(call_text(name, texts)),
                },
            },
        },
        Expression::ArrayLiteral { elements } => match translations(elements@) {
            Err(error) => Err(error),
            Ok(texts) => Ok(array_text(texts)),
        },
        Expression::Unsupported { description } => Err(ErrorView::UnsupportedNode(description@)),
    }
}

/// The translations of a sequence of expressions in order, or the first error.
pub open spec fn translations(es: Seq<Expression>) -> Result<Seq<Seq<char>>, ErrorView>
    decreases es,
{
    if es.len() == 0 {
        Ok(Seq::empty())
    } else {
        match translations(es.drop_last()) {
            Err(error) => Err(error),
            Ok(texts) => match translation(es.last()) {
                Err(error) => Err(error),
                Ok(text) => Ok(texts.push(text)),
            },
        }
    }
}

/// Whether `name` is one of the operations that change state.
pub fn mutating(name: &str) -> (r: bool)
    ensures
        r == is_mutating(name@),
{
    same_text(name, "transfer") || same_text(name, "approve") || same_text(name, "transferFrom")
}

/// The text of a literal.
pub fn translate_literal(
    kind: LiteralKind,
    value: &str,
    denomination: Option<Denomination>,
) -> (r: String)
    ensures
        r@ == literal_text(kind, value@, denomination),
{
    match kind {
        LiteralKind::Number => match denomination {
            Some(unit) => {
                let mut out = String::from_str("BigInt(\"");
                out.append(value);
                let places: u32 = unit.decimal_places();
                let mut k: u32 = 0;
                assert(value@ + zeros(0) =~= value@);
                while k < places
                    invariant
                        k <= places,
                        out@ == "BigInt(\""@ + scaled_digits(value@, k as nat),
                    decreases places - k,
                {
                    proof {
                        reveal_strlit("0");
                        assert("0"@ =~= seq!['0']);
                        assert(zeros(k as nat) + seq!['0'] =~= zeros((k + 1) as nat));
                        assert(("BigInt(\""@ + (value@ + zeros(k as nat))) + "0"@ =~= "BigInt(\""@
                            + (value@ + zeros((k + 1) as nat)));
                    }
                    out.append("0");
                    k += 1;
                }
                out.append("\")");
                out
            },
            None => {
                let mut out = String::from_str("BigInt(");
                out.append(value);
                out.append(")");
                out
            },
        },
        LiteralKind::HexNumber => {
            let mut out = String::from_str("BigInt(\"");
            out.append(value);
            out.append("\")");
            out
        },
        LiteralKind::String => {
            let mut out = String::from_str("\"");
            out.append(value);
            out.append("\"");
            out
        },
        LiteralKind::Bool => String::from_str(value),
    }
}

/// The text of a call of `name` with the translated arguments `arguments`.
pub fn translate_call(name: &str, arguments: &Vec<String>) -> (r: String)
    ensures
        r@ == call_text(name@, views(arguments@)),
{
    let mut out = if mutating(name) {
        String::from_str("contract.write.")
    } else {
        String::from_str("await contract.read.")
    };
    out.append(name);
    out.append("(");
    let list = join(arguments, ", ");
    out.append(list.as_str());
    out.append(")");
    out
}

/// Translates an expression. Fails with the error that is met first: a call whose
/// callee is neither an identifier nor a member access, or an unsupported node. Of
/// a call the shape of the callee is looked at first, then the callee is
/// translated, then the arguments from left to right.
pub fn translate(e: &Expression) -> (r: Result<String, TranslateError>)
    ensures
        r matches Ok(text) ==> translation(*e) == Ok::<Seq<char>, ErrorView>(text@),
        r matches Err(error) ==> translation(*e) == Err::<Seq<char>, ErrorView>(error@),
    decreases e, 1int,
{
    match e {
        Expression::Literal { kind, value, denomination } => Ok(
            translate_literal(*kind, value.as_str(), *denomination),
        ),
        Expression::Identifier { name } => Ok(name.clone()),
        Expression::MemberAccess { object, member } => {
            match translate(object) {
                Ok(text) => {
                    let mut out = text;
                    out.append(".");
                    out.append(member.as_str());
                    Ok(out)
                },
                Err(error) => Err(error),
            }
        },
        Expression::Call { callee, arguments } => {
            match callee.callee_name() {
                None => Err(TranslateError::InvalidCallee(callee.node_kind())),
                Some(name) => match translate(callee) {
                    Err(error) => Err(error),
                    Ok(_) => match translate_all(arguments) {
                        Err(error) => Err(error),
                        Ok(texts) => Ok(translate_call(name, &texts)),
                    },
                },
            }
        },
        Expression::ArrayLiteral { elements } => {
            match translate_all(elements) {
                Err(error) => Err(error),
                Ok(texts) => {
                    let mut out = String::from_str("[");
                    let list = join(&texts, ", ");
                    out.append(list.as_str());
                    out.append("]");
                    Ok(out)
                },
            }
        },
        Expression::Unsupported { description } => Err(
            TranslateError::UnsupportedNode(description.clone()),
        ),
    }
}

/// Translates each expression in order. Fails with the error of the first one that
/// has no translation.
pub fn translate_all(es: &Vec<Expression>) -> (r: Result<Vec<String>, TranslateError>)
    ensures
        r matches Ok(texts) ==> translations(es@) == Ok::<Seq<Seq<char>>, ErrorView>(
            views(texts@),
        ),
        r matches Err(error) ==> translations(es@) == Err::<Seq<Seq<char>>, ErrorView>(error@),
    decreases es, 0int,
{
    let mut texts: Vec<String> = Vec::new();
    let mut i: usize = 0;
    assert(views(texts@) =~= Seq::<Seq<char>>::empty());
    while i < es.len()
        invariant
            i <= es.len(),
            translations(es@.take(i as int)) == Ok::<Seq<Seq<char>>, ErrorView>(
                views(texts@),
            ),
        decreases es.len() - i,
    {
        assert(es@.take(i + 1).drop_last() =~= es@.take(i as int));
        assert(es@.take(i + 1).last() == es@[i as int]);
        match translate(&es[i]) {
            Ok(text) => {
                assert(views(texts@.push(text)) =~= views(texts@).push(text@));
                texts.push(text);
            },
            Err(error) => {
                proof {
                    lemma_translations_error_stays(es@, i + 1);
                }
                return Err(error);
            },
        }
        i += 1;
    }
    assert(es@.take(es.len() as int) =~= es@);
    Ok(texts)
}

/// Once a prefix of a sequence fails to translate, the whole sequence fails with
/// the same error.
pub proof fn lemma_translations_error_stays(es: Seq<Expression>, n: int)
    requires
        0 <= n <= es.len(),
        translations(es.take(n)) is Err,
    ensures
        translations(es) == translations(es.take(n)),
    decreases es.len() - n,
{
    if n < es.len() {
        assert(es.take(n + 1).drop_last() =~= es.take(n));
        lemma_translations_error_stays(es, n + 1);
    } else {
        assert(es.take(n) =~= es);
    }
}

/// The value of a digit character.
pub open spec fn digit_value(c: char) -> int {
    c as int - '0' as int
}

/// The number that a sequence of decimal digits writes.
pub open spec fn decimal_value(digits: Seq<char>) -> int
    decreases digits.len(),
{
    if digits.len() == 0 {
        0
    } else {
        decimal_value(digits.drop_last()) * 10 + digit_value(digits.last())
    }
}

/// Ten to the power `places`.
pub open spec fn pow10(places: nat) -> int
    decreases places,
{
    if places == 0 {
        1
    } else {
        10 * pow10((places - 1) as nat)
    }
}

/// Scaling by padding is exact: the padded digits write the number times ten to the
/// power of the places, whatever its size.
pub proof fn lemma_scaling_is_exact(digits: Seq<char>, places: nat)
    ensures
        decimal_value(scaled_digits(digits, places)) == decimal_value(digits) * pow10(places),
    decreases places,
{
    if places == 0 {
        assert(scaled_digits(digits, 0) =~= digits);
    } else {
        let shorter = scaled_digits(digits, (places - 1) as nat);
        let padded = scaled_digits(digits, places);
        assert(padded.drop_last() =~= shorter);
        assert(padded.last() == '0');
        lemma_scaling_is_exact(digits, (places - 1) as nat);
        assert(decimal_value(digits) * pow10((places - 1) as nat) * 10 == decimal_value(digits)
            * pow10(places)) by (nonlinear_arith)
            requires
                pow10(places) == 10 * pow10((places - 1) as nat),
        ;
    }
}

/// A sequence translates if and only if each of its expressions does, and then
/// holds one text for each expression, in the same order.
pub proof fn lemma_translations_pointwise(es: Seq<Expression>)
    ensures
        translations(es) is Ok <==> forall|i: int| 0 <= i < es.len() ==> translation(es[i]) is Ok,
        translations(es) matches Ok(texts) ==> texts.len() == es.len(),
        translations(es) matches Ok(texts) ==> forall|i: int|
            0 <= i < es.len() ==> translation(es[i]) == Ok::<Seq<char>, ErrorView>(texts[i]),
    decreases es.len(),
{
    if es.len() > 0 {
        lemma_translations_pointwise(es.drop_last());
        let front = es.drop_last();
        assert forall|i: int| 0 <= i < front.len() implies front[i] == es[i] by {}
        if translations(es) is Ok {
            assert forall|i: int| 0 <= i < es.len() implies translation(es[i]) is Ok by {
                if i < front.len() {
                    assert(front[i] == es[i]);
                }
            }
        }
        if forall|i: int| 0 <= i < es.len() ==> translation(es[i]) is Ok {
            assert forall|i: int| 0 <= i < front.len() implies translation(front[i]) is Ok by {
                assert(front[i] == es[i]);
            }
        }
    }
}

/// The text of a number literal with a unit depends on the literal alone: wherever
/// it stands among the expressions of a sequence that translates, its text is the
/// constructor call around its digits, padded by the unit's decimal places.
pub proof fn lemma_scaled_literal_is_context_free(
    value: String,
    unit: Denomination,
    siblings: Seq<Expression>,
    at: int,
)
    requires
        0 <= at < siblings.len(),
        siblings[at] == (Expression::Literal {
            kind: LiteralKind::Number,
            value,
            denomination: Some(unit),
        }),
        translations(siblings) is Ok,
    ensures
        translations(siblings)->Ok_0[at] == "BigInt(\""@ + value@ + zeros(unit.decimals())
            + "\")"@,
{
    lemma_translations_pointwise(siblings);
    assert("BigInt(\""@ + (value@ + zeros(unit.decimals())) + "\")"@ =~= "BigInt(\""@ + value@
        + zeros(unit.decimals()) + "\")"@);
}

/// The call of `callee` with `arguments`.
pub open spec fn call_node(callee: Expression, arguments: Vec<Expression>) -> Expression {
    Expression::Call { callee: Box::new(callee), arguments }
}

/// A call that translates holds, between its parentheses, exactly one text for each
/// of its arguments: the translation of that argument, at the argument's place,
/// joined by comma and space.
pub proof fn lemma_call_keeps_every_argument(callee: Expression, arguments: Vec<Expression>)
    requires
        translation(call_node(callee, arguments)) is Ok,
    ensures
        callee.trailing_name() is Some,
        translations(arguments@) is Ok,
        translations(arguments@)->Ok_0.len() == arguments@.len(),
        forall|i: int|
            0 <= i < arguments@.len() ==> translation(arguments@[i]) == Ok::<
                Seq<char>,
                ErrorView,
            >(translations(arguments@)->Ok_0[i]),
        translation(call_node(callee, arguments))->Ok_0 == call_text(
            callee.trailing_name()->0,
            translations(arguments@)->Ok_0,
        ),
{
    lemma_translations_pointwise(arguments@);
}

/// A call that translates goes through the write interface if its callee's name is
/// `transfer`, `approve` or `transferFrom`, and through the awaited read interface
/// for every other name.
pub proof fn lemma_call_routing(callee: Expression, arguments: Vec<Expression>)
    requires
        translation(call_node(callee, arguments)) is Ok,
    ensures
        callee.trailing_name() is Some,
        translations(arguments@) is Ok,
        (callee.trailing_name()->0 == "transfer"@ || callee.trailing_name()->0 == "approve"@
            || callee.trailing_name()->0 == "transferFrom"@) ==> translation(
            call_node(callee, arguments),
        )->Ok_0 == "contract.write."@ + callee.trailing_name()->0 + "("@ + joined(
            translations(arguments@)->Ok_0,
            ", "@,
        ) + ")"@,
        !(callee.trailing_name()->0 == "transfer"@ || callee.trailing_name()->0 == "approve"@
            || callee.trailing_name()->0 == "transferFrom"@) ==> translation(
            call_node(callee, arguments),
        )->Ok_0 == "await contract.read."@ + callee.trailing_name()->0 + "("@ + joined(
            translations(arguments@)->Ok_0,
            ", "@,
        ) + ")"@,
{
}

/// The argument list of a call splits into its arguments again: where the
/// translated arguments are trimmed and closed, and the last one is not empty,
/// splitting the list at comma and space yields exactly the translated arguments,
/// as many as the call has arguments and in their order.
pub proof fn lemma_call_arguments_split(callee: Expression, arguments: Vec<Expression>)
    requires
        translation(call_node(callee, arguments)) is Ok,
        arguments@.len() > 0 ==> translation(arguments@.last())->Ok_0.len() > 0,
        forall|i: int|
            0 <= i < arguments@.len() ==> is_closed(
                (#[trigger] translation(arguments@[i]))->Ok_0,
                ',',
            ) && is_trimmed(translation(arguments@[i])->Ok_0, CharClass::Whitespace),
    ensures
        translations(arguments@) is Ok,
        split(joined(translations(arguments@)->Ok_0, ", "@), ", "@) == translations(
            arguments@,
        )->Ok_0,
        split(joined(translations(arguments@)->Ok_0, ", "@), ", "@).len() == arguments@.len(),
{
    lemma_translations_pointwise(arguments@);
    let texts = translations(arguments@)->Ok_0;
    reveal_strlit(", ");
    assert(", "@.len() == 2 && ", "@[0] == ',');
    assert forall|k: int| 0 <= k < texts.len() implies is_closed(#[trigger] texts[k], ", "@[0])
        && is_trimmed(texts[k], CharClass::Whitespace) by {
        assert(translation(arguments@[k]) == Ok::<Seq<char>, ErrorView>(texts[k]));
    }
    if texts.len() > 0 {
        assert(translation(arguments@[arguments@.len() - 1]) == Ok::<Seq<char>, ErrorView>(
            texts[texts.len() - 1],
        ));
    }
    lemma_split_of_joined(texts, ", "@);
}

} // verus!
