//! The functions that a contract interface description declares.
//!
//! The description is a document of nested values: an array of items, of which
//! those of type `function` are read, each with its name, its input and output
//! parameters and its state mutability.

use vstd::prelude::*;
use vstd::string::*;
use crate::document::{
    document_of, member, member_of, parse_document, text, text_member, JsonValue,
};
use crate::text::same_text;

verus! {

/// A parameter of a function: its name and its type.
#[derive(Clone, Debug, PartialEq, Eq)]
pub struct FunctionParameter {
    pub name: String,
    pub type_: String,
}

/// A function that a contract offers.
#[derive(Clone, Debug, PartialEq, Eq)]
pub struct ContractFunction {
    pub name: String,
    pub inputs: Vec<FunctionParameter>,
    pub outputs: Vec<FunctionParameter>,
    pub state_mutability: String,
}

/// What a parameter holds, as sequences of characters.
pub struct FunctionParameterView {
    pub name: Seq<char>,
    pub type_: Seq<char>,
}

/// What a function holds, as sequences.
pub struct ContractFunctionView {
    pub name: Seq<char>,
    pub inputs: Seq<FunctionParameterView>,
    pub outputs: Seq<FunctionParameterView>,
    pub state_mutability: Seq<char>,
}

impl View for FunctionParameter {
    type V = FunctionParameterView;

    open spec fn view(&self) -> FunctionParameterView {
        FunctionParameterView { name: self.name@, type_: self.type_@ }
    }
}

/// The views of a sequence of parameters.
pub open spec fn parameter_views(parameters: Seq<FunctionParameter>) -> Seq<
    FunctionParameterView,
> {
    Seq::new(parameters.len(), |i: int| parameters[i]@)
}

impl View for ContractFunction {
    type V = ContractFunctionView;

    open spec fn view(&self) -> ContractFunctionView {
        ContractFunctionView {
            name: self.name@,
            inputs: parameter_views(self.inputs@),
            outputs: parameter_views(self.outputs@),
            state_mutability: self.state_mutability@,
        }
    }
}

/// The views of a sequence of functions.
pub open spec fn function_views(functions: Seq<ContractFunction>) -> Seq<ContractFunctionView> {
    Seq::new(functions.len(), |i: int| functions[i]@)
}

/// Why a description was refused.
#[derive(Clone, Copy, Debug, PartialEq, Eq, Structural)]
pub enum AbiError {
    /// The text is no JSON.
    NotJson,
    /// The document is not an array.
    NotAnArray,
    /// A function has no name that is a string.
    FunctionNameMissing,
    /// The inputs or outputs of a function are not an array.
    ParametersNotAnArray,
    /// A parameter has no name that is a string.
    ParameterNameMissing,
    /// A parameter has no type that is a string.
    ParameterTypeMissing,
    /// A function has no state mutability that is a string.
    StateMutabilityMissing,
}

impl AbiError {
    /// The sentence for each error.
    pub open spec fn sentence(self) -> Seq<char> {
        match self {
            AbiError::NotJson => "Failed to parse ABI JSON"@,
            AbiError::NotAnArray => "ABI is not an array"@,
            AbiError::FunctionNameMissing => "Function name not found"@,
            AbiError::ParametersNotAnArray => "Parameters are not an array"@,
            AbiError::ParameterNameMissing => "Parameter name not found"@,
            AbiError::ParameterTypeMissing => "Parameter type not found"@,
            AbiError::StateMutabilityMissing => "State mutability not found"@,
        }
    }

    /// A sentence that says what went wrong.
    pub fn message(&self) -> (r: String)
        ensures
            r@ == self.sentence(),
    {
        match self {
            AbiError::NotJson => String::from_str("Failed to parse ABI JSON"),
            AbiError::NotAnArray => String::from_str("ABI is not an array"),
            AbiError::FunctionNameMissing => String::from_str("Function name not found"),
            AbiError::ParametersNotAnArray => String::from_str("Parameters are not an array"),
            AbiError::ParameterNameMissing => String::from_str("Parameter name not found"),
            AbiError::ParameterTypeMissing => String::from_str("Parameter type not found"),
            AbiError::StateMutabilityMissing => String::from_str("State mutability not found"),
        }
    }
}

/// The parameter that an item describes.
pub open spec fn parameter_of(item: JsonValue) -> Result<FunctionParameterView, AbiError> {
    match text_member(item, "name"@) {
        None => Err(AbiError::ParameterNameMissing),
        Some(name) => match text_member(item, "type"@) {
            None => Err(AbiError::ParameterTypeMissing),
            Some(type_) => Ok(FunctionParameterView { name, type_ }),
        },
    }
}

/// The parameters that the items describe, in order, or the first error.
pub open spec fn parameters_in(items: Seq<JsonValue>) -> Result<
    Seq<FunctionParameterView>,
    AbiError,
>
    decreases items.len(),
{
    if items.len() == 0 {
        Ok(Seq::empty())
    } else {
        match parameters_in(items.drop_last()) {
            Err(error) => Err(error),
            Ok(before) => match parameter_of(items.last()) {
                Err(error) => Err(error),
                Ok(parameter) => Ok(before.push(parameter)),
            },
        }
    }
}

/// The parameters that a value describes: an error unless it is an array.
pub open spec fn parameters_of(value: Option<JsonValue>) -> Result<
    Seq<FunctionParameterView>,
    AbiError,
> {
    match value {
        Some(JsonValue::Array(items)) => parameters_in(items@),
        _ => Err(AbiError::ParametersNotAnArray),
    }
}

/// The function that an item describes: its name, its inputs, its outputs and its
/// state mutability, read in this order, or the first error.
pub open spec fn function_of(item: JsonValue) -> Result<ContractFunctionView, AbiError> {
    match text_member(item, "name"@) {
        None => Err(AbiError::FunctionNameMissing),
        Some(name) => match parameters_of(member_of(item, "inputs"@)) {
            Err(error) => Err(error),
            Ok(inputs) => match parameters_of(member_of(item, "outputs"@)) {
                Err(error) => Err(error),
                Ok(outputs) => match text_member(item, "stateMutability"@) {
                    None => Err(AbiError::StateMutabilityMissing),
                    Some(state_mutability) => Ok(
                        ContractFunctionView { name, inputs, outputs, state_mutability },
                    ),
                },
            },
        },
    }
}

/// An item of type `function`.
pub open spec fn is_function_item(item: JsonValue) -> bool {
    text_member(item, "type"@) == Some("function"@)
}

/// The functions that the items describe, in order, or the first error. An item
/// that is not of type `function` is passed over.
pub open spec fn functions_in(items: Seq<JsonValue>) -> Result<Seq<ContractFunctionView>, AbiError>
    decreases items.len(),
{
    if items.len() == 0 {
        Ok(Seq::empty())
    } else {
        match functions_in(items.drop_last()) {
            Err(error) => Err(error),
            Ok(before) => if is_function_item(items.last()) {
                match function_of(items.last()) {
                    Err(error) => Err(error),
                    Ok(function) => Ok(before.push(function)),
                }
            } else {
                Ok(before)
            },
        }
    }
}

/// The functions that a document describes: an error unless it is an array.
pub open spec fn abi_functions(document: JsonValue) -> Result<Seq<ContractFunctionView>, AbiError> {
    match document {
        JsonValue::Array(items) => functions_in(items@),
        _ => Err(AbiError::NotAnArray),
    }
}

/// Once a prefix of the items fails, all the items fail with the same error.
pub proof fn lemma_parameters_error_stays(items: Seq<JsonValue>, n: int)
    requires
        0 <= n <= items.len(),
        parameters_in(items.take(n)) is Err,
    ensures
        parameters_in(items) == parameters_in(items.take(n)),
    decreases items.len() - n,
{
    if n < items.len() {
        assert(items.take(n + 1).drop_last() =~= items.take(n));
        lemma_parameters_error_stays(items, n + 1);
    } else {
        assert(items.take(n) =~= items);
    }
}

/// Once a prefix of the items fails, all the items fail with the same error.
pub proof fn lemma_functions_error_stays(items: Seq<JsonValue>, n: int)
    requires
        0 <= n <= items.len(),
        functions_in(items.take(n)) is Err,
    ensures
        functions_in(items) == functions_in(items.take(n)),
    decreases items.len() - n,
{
    if n < items.len() {
        assert(items.take(n + 1).drop_last() =~= items.take(n));
        lemma_functions_error_stays(items, n + 1);
    } else {
        assert(items.take(n) =~= items);
    }
}

/// Reads the parameters that a value describes.
pub fn parse_parameters(params: Option<&JsonValue>) -> (r: Result<Vec<FunctionParameter>, AbiError>)
    ensures
        r matches Ok(parameters) ==> parameters_of(
            match params {
                Some(value) => Some(*value),
                None => None,
            },
        ) == Ok::<Seq<FunctionParameterView>, AbiError>(parameter_views(parameters@)),
        r matches Err(error) ==> parameters_of(
            match params {
                Some(value) => Some(*value),
                None => None,
            },
        ) == Err::<Seq<FunctionParameterView>, AbiError>(error),
{
    match params {
        Some(JsonValue::Array(items)) => {
            let mut parameters: Vec<FunctionParameter> = Vec::new();
            let mut i: usize = 0;
            assert(parameter_views(parameters@) =~= Seq::<FunctionParameterView>::empty());
            assert(items@.take(0) =~= Seq::<JsonValue>::empty());
            let ghost whole = parameters_of(
                match params {
                    Some(value) => Some(*value),
                    None => None,
                },
            );
            while i < items.len()
                invariant
                    i <= items.len(),
                    whole == parameters_in(items@),
                    whole == parameters_of(
                        match params {
                            Some(value) => Some(*value),
                            None => None,
                        },
                    ),
                    parameters_in(items@.take(i as int)) == Ok::<
                        Seq<FunctionParameterView>,
                        AbiError,
                    >(parameter_views(parameters@)),
                decreases items.len() - i,
            {
                assert(items@.take(i + 1).drop_last() =~= items@.take(i as int));
                assert(items@.take(i + 1).last() == items@[i as int]);
                let name = match text(&items[i], "name") {
                    Some(name) => name,
                    None => {
                        proof {
                            lemma_parameters_error_stays(items@, i + 1);
                        }
                        return Err(AbiError::ParameterNameMissing);
                    },
                };
                let type_ = match text(&items[i], "type") {
                    Some(type_) => type_,
                    None => {
                        proof {
                            lemma_parameters_error_stays(items@, i + 1);
                        }
                        return Err(AbiError::ParameterTypeMissing);
                    },
                };
                let parameter = FunctionParameter {
                    name: String::from_str(name),
                    type_: String::from_str(type_),
                };
                assert(parameter_views(parameters@.push(parameter)) =~= parameter_views(
                    parameters@,
                ).push(parameter@));
                parameters.push(parameter);
                i += 1;
            }
            assert(items@.take(items.len() as int) =~= items@);
            Ok(parameters)
        },
        _ => Err(AbiError::ParametersNotAnArray),
    }
}

/// Reads the function that an item describes.
pub fn parse_function(function: &JsonValue) -> (r: Result<ContractFunction, AbiError>)
    ensures
        r matches Ok(found) ==> function_of(*function) == Ok::<ContractFunctionView, AbiError>(
            found@,
        ),
        r matches Err(error) ==> function_of(*function) == Err::<ContractFunctionView, AbiError>(
            error,
        ),
{
    let name = match text(function, "name") {
        Some(name) => name,
        None => {
            return Err(AbiError::FunctionNameMissing);
        },
    };
    let inputs = match parse_parameters(member(function, "inputs")) {
        Ok(inputs) => inputs,
        Err(error) => {
            return Err(error);
        },
    };
    let outputs = match parse_parameters(member(function, "outputs")) {
        Ok(outputs) => outputs,
        Err(error) => {
            return Err(error);
        },
    };
    let state_mutability = match text(function, "stateMutability") {
        Some(state_mutability) => state_mutability,
        None => {
            return Err(AbiError::StateMutabilityMissing);
        },
    };
    Ok(
        ContractFunction {
            name: String::from_str(name),
            inputs,
            outputs,
            state_mutability: String::from_str(state_mutability),
        },
    )
}

/// Reads the functions that a document describes: the items of type `function`
/// of the array, in order. Fails unless the document is an array, and with the
/// error of the first such item that lacks a name, inputs, outputs or a state
/// mutability, or holds a parameter without a name or a type.
pub fn parse_abi(document: &JsonValue) -> (r: Result<Vec<ContractFunction>, AbiError>)
    ensures
        r matches Ok(functions) ==> abi_functions(*document) == Ok::<
            Seq<ContractFunctionView>,
            AbiError,
        >(function_views(functions@)),
        r matches Err(error) ==> abi_functions(*document) == Err::<
            Seq<ContractFunctionView>,
            AbiError,
        >(error),
{
    match document {
        JsonValue::Array(items) => {
            let mut functions: Vec<ContractFunction> = Vec::new();
            let mut i: usize = 0;
            assert(function_views(functions@) =~= Seq::<ContractFunctionView>::empty());
            assert(items@.take(0) =~= Seq::<JsonValue>::empty());
            while i < items.len()
                invariant
                    i <= items.len(),
                    abi_functions(*document) == functions_in(items@),
                    functions_in(items@.take(i as int)) == Ok::<
                        Seq<ContractFunctionView>,
                        AbiError,
                    >(function_views(functions@)),
                decreases items.len() - i,
            {
                assert(items@.take(i + 1).drop_last() =~= items@.take(i as int));
                assert(items@.take(i + 1).last() == items@[i as int]);
                let of_function = match text(&items[i], "type") {
                    Some(kind) => same_text(kind, "function"),
                    None => false,
                };
                if of_function {
                    match parse_function(&items[i]) {
                        Ok(function) => {
                            assert(function_views(functions@.push(function)) =~= function_views(
                                functions@,
                            ).push(function@));
                            functions.push(function);
                        },
                        Err(error) => {
                            proof {
                                lemma_functions_error_stays(items@, i + 1);
                            }
                            return Err(error);
                        },
                    }
                }
                i += 1;
            }
            assert(items@.take(items.len() as int) =~= items@);
            Ok(functions)
        },
        _ => Err(AbiError::NotAnArray),
    }
}

/// Reads the functions that a description declares, written as JSON text. Fails
/// with `NotJson` where the text is no JSON, and else as `parse_abi` does on the
/// document that the text writes.
pub fn parse_abi_text(content: &str) -> (r: Result<Vec<ContractFunction>, AbiError>)
    ensures
        document_of(content@) is None ==> r == Err::<Vec<ContractFunction>, AbiError>(
            AbiError::NotJson,
        ),
        document_of(content@) is Some ==> (r matches Ok(functions) ==> abi_functions(
            document_of(content@)->0,
        ) == Ok::<Seq<ContractFunctionView>, AbiError>(function_views(functions@))),
        document_of(content@) is Some ==> (r matches Err(error) ==> abi_functions(
            document_of(content@)->0,
        ) == Err::<Seq<ContractFunctionView>, AbiError>(error)),
{
    match parse_document(content) {
        Some(document) => parse_abi(&document),
        None => Err(AbiError::NotJson),
    }
}

} // verus!
