//! Assembly of one contract's tests: its state variables, its setup function and
//! its test functions, each function as the steps of its body.
//!
//! The members of the contract are walked in source order. The first function
//! named `setUp` is the setup function; every public function whose name begins
//! with `test` is a test.

use vstd::prelude::*;
use vstd::string::*;
use crate::classifier::{classify_all, option_view, step_views, steps_of, Statement, StepView, TestStep};
use crate::error::{ErrorView, TranslateError};
use crate::expr::Expression;
use crate::text::{ends_with, has_prefix, has_suffix, same_text, starts_with};
use crate::translator::{translate, translation};

verus! {

/// The definition of a state variable, with its type as written.
#[derive(Debug, PartialEq, Eq)]
pub struct VariableDefinition {
    pub name: String,
    pub type_: String,
    pub initializer: Option<Expression>,
}

/// The definition of a function: its name, if it has one, whether it is public,
/// and the statements of its body, if it has one.
#[derive(Debug, PartialEq, Eq)]
pub struct FunctionDefinition {
    pub name: Option<String>,
    pub is_public: bool,
    pub body: Option<Vec<Statement>>,
}

impl FunctionDefinition {
    /// The statements of the function: those of its body, and none where it has
    /// no body.
    pub open spec fn statements(self) -> Seq<Statement> {
        match self.body {
            Some(body) => body@,
            None => Seq::empty(),
        }
    }
}

/// A member of a contract.
#[derive(Debug, PartialEq, Eq)]
pub enum ContractPart {
    Variable(VariableDefinition),
    Function(FunctionDefinition),
    /// Any other member: an event, a type, a modifier.
    Other,
}

/// A contract: its name, if it has one, and its members in source order.
#[derive(Debug, PartialEq, Eq)]
pub struct ContractDefinition {
    pub name: Option<String>,
    pub parts: Vec<ContractPart>,
}

/// A state variable of a test contract, its initial value translated.
#[derive(Clone, Debug, PartialEq, Eq)]
pub struct StateVariable {
    pub name: String,
    pub type_: String,
    pub value: Option<String>,
}

/// A function of a test contract as the steps of its body, in execution order.
#[derive(Clone, Debug, PartialEq, Eq)]
pub struct TestFunction {
    pub name: String,
    pub steps: Vec<TestStep>,
}

/// The tests of one contract.
#[derive(Clone, Debug, PartialEq, Eq)]
pub struct TestContract {
    pub name: String,
    pub state_variables: Vec<StateVariable>,
    pub setup: Option<TestFunction>,
    pub test_functions: Vec<TestFunction>,
}

/// What a state variable holds, as sequences of characters.
pub struct StateVariableView {
    pub name: Seq<char>,
    pub type_: Seq<char>,
    pub value: Option<Seq<char>>,
}

/// What a test function holds, as sequences.
pub struct TestFunctionView {
    pub name: Seq<char>,
    pub steps: Seq<StepView>,
}

/// What a test contract holds, as sequences.
pub struct TestContractView {
    pub name: Seq<char>,
    pub state_variables: Seq<StateVariableView>,
    pub setup: Option<TestFunctionView>,
    pub test_functions: Seq<TestFunctionView>,
}

impl View for StateVariable {
    type V = StateVariableView;

    open spec fn view(&self) -> StateVariableView {
        StateVariableView { name: self.name@, type_: self.type_@, value: option_view(self.value) }
    }
}

impl View for TestFunction {
    type V = TestFunctionView;

    open spec fn view(&self) -> TestFunctionView {
        TestFunctionView { name: self.name@, steps: step_views(self.steps@) }
    }
}

/// The views of a sequence of state variables.
pub open spec fn variable_views(variables: Seq<StateVariable>) -> Seq<StateVariableView> {
    Seq::new(variables.len(), |i: int| variables[i]@)
}

/// The views of a sequence of test functions.
pub open spec fn function_views(functions: Seq<TestFunction>) -> Seq<TestFunctionView> {
    Seq::new(functions.len(), |i: int| functions[i]@)
}

/// The view of an optional test function.
pub open spec fn option_function_view(function: Option<TestFunction>) -> Option<
    TestFunctionView,
> {
    match function {
        Some(f) => Some(f@),
        None => None,
    }
}

impl View for TestContract {
    type V = TestContractView;

    open spec fn view(&self) -> TestContractView {
        TestContractView {
            name: self.name@,
            state_variables: variable_views(self.state_variables@),
            setup: option_function_view(self.setup),
            test_functions: function_views(self.test_functions@),
        }
    }
}

/// The state variable of a definition, or the error of its initial value.
pub open spec fn state_variable_of(definition: VariableDefinition) -> Result<
    StateVariableView,
    ErrorView,
> {
    match definition.initializer {
        None => Ok(
            StateVariableView { name: definition.name@, type_: definition.type_@, value: None },
        ),
        Some(e) => match translation(e) {
            Ok(text) => Ok(
                StateVariableView {
                    name: definition.name@,
                    type_: definition.type_@,
                    value: Some(text),
                },
            ),
            Err(error) => Err(error),
        },
    }
}

/// The function named `name` with the steps of `body`, or the error of the body.
pub open spec fn function_of(name: Seq<char>, body: Seq<Statement>) -> Result<
    TestFunctionView,
    ErrorView,
> {
    match steps_of(body) {
        Ok(steps) => Ok(TestFunctionView { name, steps }),
        Err(error) => Err(error),
    }
}

/// A function with the name of the setup function.
pub open spec fn is_setup(function: FunctionDefinition) -> bool {
    function.name matches Some(name) && name@ == "setUp"@
}

/// A public function whose name begins as a test's name does.
pub open spec fn is_test(function: FunctionDefinition) -> bool {
    function.name matches Some(name) && has_prefix(name@, "test"@) && function.is_public
}

/// What has been gathered from the members of a contract walked so far.
pub struct Gathered {
    pub state_variables: Seq<StateVariableView>,
    pub setup: Option<TestFunctionView>,
    pub test_functions: Seq<TestFunctionView>,
}

/// What one member adds to what was gathered before it. A state variable and a
/// test are added behind those before them. A function named `setUp` becomes the
/// setup function if there is none yet, and is passed over otherwise. Any other
/// member adds nothing.
pub open spec fn with_part(before: Gathered, part: ContractPart) -> Result<
    Gathered,
    ErrorView,
> {
    match part {
        ContractPart::Variable(definition) => match state_variable_of(definition) {
            Ok(variable) => Ok(
                Gathered { state_variables: before.state_variables.push(variable), ..before },
            ),
            Err(error) => Err(error),
        },
        ContractPart::Function(function) => if is_setup(function) {
            if before.setup is Some {
                Ok(before)
            } else {
                match function_of(function.name->0@, function.statements()) {
                    Ok(setup) => Ok(Gathered { setup: Some(setup), ..before }),
                    Err(error) => Err(error),
                }
            }
        } else if is_test(function) {
            match function_of(function.name->0@, function.statements()) {
                Ok(test) => Ok(
                    Gathered { test_functions: before.test_functions.push(test), ..before },
                ),
                Err(error) => Err(error),
            }
        } else {
            Ok(before)
        },
        ContractPart::Other => Ok(before),
    }
}

/// What the members of a contract yield, walked in source order, or the error of
/// the first member that fails.
pub open spec fn gathered(parts: Seq<ContractPart>) -> Result<Gathered, ErrorView>
    decreases parts.len(),
{
    if parts.len() == 0 {
        Ok(
            Gathered {
                state_variables: Seq::empty(),
                setup: None,
                test_functions: Seq::empty(),
            },
        )
    } else {
        match gathered(parts.drop_last()) {
            Err(error) => Err(error),
            Ok(before) => with_part(before, parts.last()),
        }
    }
}

/// A contract named as a test contract: its name ends in `Test`.
pub open spec fn is_test_contract(contract: ContractDefinition) -> bool {
    contract.name matches Some(name) && has_suffix(name@, "Test"@)
}

/// The index of the first test contract at or after `from`.
pub open spec fn first_test_contract(contracts: Seq<ContractDefinition>, from: int) -> Option<int>
    decreases contracts.len() - from,
{
    if from < 0 || from >= contracts.len() {
        None
    } else if is_test_contract(contracts[from]) {
        Some(from)
    } else {
        first_test_contract(contracts, from + 1)
    }
}

/// The tests of a contract.
pub open spec fn assembled_contract(contract: ContractDefinition) -> Result<
    TestContractView,
    ErrorView,
> {
    match gathered(contract.parts@) {
        Ok(all) => Ok(
            TestContractView {
                name: option_view(contract.name).unwrap_or(Seq::empty()),
                state_variables: all.state_variables,
                setup: all.setup,
                test_functions: all.test_functions,
            },
        ),
        Err(error) => Err(error),
    }
}

/// The tests of the first test contract among `contracts`; an error if there is no
/// test contract, or if an expression of that contract has no translation.
pub open spec fn assembled(contracts: Seq<ContractDefinition>) -> Result<
    TestContractView,
    ErrorView,
> {
    match first_test_contract(contracts, 0) {
        None => Err(ErrorView::NoTestContract),
        Some(i) => assembled_contract(contracts[i]),
    }
}

/// Once a prefix of the members fails, all the members fail with the same error.
pub proof fn lemma_gathered_error_stays(parts: Seq<ContractPart>, n: int)
    requires
        0 <= n <= parts.len(),
        gathered(parts.take(n)) is Err,
    ensures
        gathered(parts) == gathered(parts.take(n)),
    decreases parts.len() - n,
{
    if n < parts.len() {
        assert(parts.take(n + 1).drop_last() =~= parts.take(n));
        lemma_gathered_error_stays(parts, n + 1);
    } else {
        assert(parts.take(n) =~= parts);
    }
}

/// The state variable of a definition.
pub fn extract_state_variable(definition: &VariableDefinition) -> (r: Result<
    StateVariable,
    TranslateError,
>)
    ensures
        r matches Ok(variable) ==> state_variable_of(*definition) == Ok::<
            StateVariableView,
            ErrorView,
        >(variable@),
        r matches Err(error) ==> state_variable_of(*definition) == Err::<
            StateVariableView,
            ErrorView,
        >(error@),
{
    match &definition.initializer {
        None => Ok(
            StateVariable {
                name: definition.name.clone(),
                type_: definition.type_.clone(),
                value: None,
            },
        ),
        Some(e) => match translate(e) {
            Ok(text) => Ok(
                StateVariable {
                    name: definition.name.clone(),
                    type_: definition.type_.clone(),
                    value: Some(text),
                },
            ),
            Err(error) => Err(error),
        },
    }
}

/// The function named `name` whose body is `body`, as its steps in order. Without
/// a body it has no steps.
pub fn extract_function(name: &str, body: &Option<Vec<Statement>>) -> (r: Result<
    TestFunction,
    TranslateError,
>)
    ensures
        r matches Ok(function) ==> function_of(
            name@,
            match *body {
                Some(statements) => statements@,
                None => Seq::empty(),
            },
        ) == Ok::<TestFunctionView, ErrorView>(function@),
        r matches Err(error) ==> function_of(
            name@,
            match *body {
                Some(statements) => statements@,
                None => Seq::empty(),
            },
        ) == Err::<TestFunctionView, ErrorView>(error@),
{
    match body {
        Some(statements) => match classify_all(statements) {
            Ok(steps) => Ok(TestFunction { name: String::from_str(name), steps }),
            Err(error) => Err(error),
        },
        None => {
            let steps: Vec<TestStep> = Vec::new();
            assert(step_views(steps@) =~= Seq::<StepView>::empty());
            Ok(TestFunction { name: String::from_str(name), steps })
        },
    }
}

/// Whether a function is a test: it is public and its name begins with `test`.
pub fn is_test_function(function: &FunctionDefinition) -> (r: bool)
    ensures
        r == is_test(*function),
{
    match &function.name {
        Some(name) => starts_with(name.as_str(), "test") && function.is_public,
        None => false,
    }
}

/// Whether a function has the name of the setup function.
pub fn is_setup_function(function: &FunctionDefinition) -> (r: bool)
    ensures
        r == is_setup(*function),
{
    match &function.name {
        Some(name) => same_text(name.as_str(), "setUp"),
        None => false,
    }
}

/// Assembles the tests of a contract from its members, walked in source order.
pub fn assemble_contract(contract: &ContractDefinition) -> (r: Result<
    TestContract,
    TranslateError,
>)
    ensures
        r matches Ok(tests) ==> assembled_contract(*contract) == Ok::<
            TestContractView,
            ErrorView,
        >(tests@),
        r matches Err(error) ==> assembled_contract(*contract) == Err::<
            TestContractView,
            ErrorView,
        >(error@),
{
    let mut state_variables: Vec<StateVariable> = Vec::new();
    let mut setup: Option<TestFunction> = None;
    let mut test_functions: Vec<TestFunction> = Vec::new();
    let mut i: usize = 0;
    assert(variable_views(state_variables@) =~= Seq::<StateVariableView>::empty());
    assert(function_views(test_functions@) =~= Seq::<TestFunctionView>::empty());
    while i < contract.parts.len()
        invariant
            i <= contract.parts.len(),
            gathered(contract.parts@.take(i as int)) == Ok::<Gathered, ErrorView>(
                Gathered {
                    state_variables: variable_views(state_variables@),
                    setup: option_function_view(setup),
                    test_functions: function_views(test_functions@),
                },
            ),
        decreases contract.parts.len() - i,
    {
        assert(contract.parts@.take(i + 1).drop_last() =~= contract.parts@.take(i as int));
        assert(contract.parts@.take(i + 1).last() == contract.parts@[i as int]);
        match &contract.parts[i] {
            ContractPart::Variable(definition) => match extract_state_variable(definition) {
                Ok(variable) => {
                    assert(variable_views(state_variables@.push(variable)) =~= variable_views(
                        state_variables@,
                    ).push(variable@));
                    state_variables.push(variable);
                },
                Err(error) => {
                    proof {
                        lemma_gathered_error_stays(contract.parts@, i + 1);
                    }
                    return Err(error);
                },
            },
            ContractPart::Function(function) => {
                if is_setup_function(function) {
                    if setup.is_none() {
                        match &function.name {
                            Some(name) => match extract_function(name.as_str(), &function.body) {
                                Ok(found) => {
                                    setup = Some(found);
                                },
                                Err(error) => {
                                    proof {
                                        lemma_gathered_error_stays(contract.parts@, i + 1);
                                    }
                                    return Err(error);
                                },
                            },
                            None => {},
                        }
                    }
                } else if is_test_function(function) {
                    match &function.name {
                        Some(name) => match extract_function(name.as_str(), &function.body) {
                            Ok(found) => {
                                assert(function_views(test_functions@.push(found))
                                    =~= function_views(test_functions@).push(found@));
                                test_functions.push(found);
                            },
                            Err(error) => {
                                proof {
                                    lemma_gathered_error_stays(contract.parts@, i + 1);
                                }
                                return Err(error);
                            },
                        },
                        None => {},
                    }
                }
            },
            ContractPart::Other => {},
        }
        i += 1;
    }
    assert(contract.parts@.take(contract.parts.len() as int) =~= contract.parts@);
    let name = match &contract.name {
        Some(name) => name.clone(),
        None => String::new(),
    };
    Ok(TestContract { name, state_variables, setup, test_functions })
}

/// Whether a contract is named as a test contract.
pub fn is_test_contract_name(contract: &ContractDefinition) -> (r: bool)
    ensures
        r == is_test_contract(*contract),
{
    match &contract.name {
        Some(name) => ends_with(name.as_str(), "Test"),
        None => false,
    }
}

/// Assembles the tests of the first contract among `contracts` whose name ends in
/// `Test`. Fails with `NoTestContract` if there is none, and with the error of the
/// first expression of that contract, in source order, that has no translation.
pub fn extract_test_contract(contracts: &Vec<ContractDefinition>) -> (r: Result<
    TestContract,
    TranslateError,
>)
    ensures
        r matches Ok(tests) ==> assembled(contracts@) == Ok::<TestContractView, ErrorView>(
            tests@,
        ),
        r matches Err(error) ==> assembled(contracts@) == Err::<TestContractView, ErrorView>(
            error@,
        ),
{
    let mut i: usize = 0;
    while i < contracts.len()
        invariant
            i <= contracts.len(),
            first_test_contract(contracts@, 0) == first_test_contract(contracts@, i as int),
        decreases contracts.len() - i,
    {
        if is_test_contract_name(&contracts[i]) {
            return assemble_contract(&contracts[i]);
        }
        i += 1;
    }
    Err(TranslateError::NoTestContract)
}

} // verus!
