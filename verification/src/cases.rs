//! Test cases: for each test function, the calls of bare names that its body
//! makes and the assertions that it holds.

use vstd::prelude::*;
use vstd::string::*;
use crate::assembler::{ContractDefinition, ContractPart, FunctionDefinition};
use crate::classifier::{is_assertion, Statement};
use crate::error::{ErrorView, TranslateError};
use crate::expr::Expression;
use crate::text::{has_prefix, same_text, starts_with, views};
use crate::translator::{translate, translate_all, translation, translations};

verus! {

/// A call of a function by its bare name, with its arguments translated.
#[derive(Clone, Debug, PartialEq, Eq)]
pub struct FunctionCall {
    pub function_name: String,
    pub arguments: Vec<String>,
}

/// An assertion and the value that it expects.
#[derive(Clone, Debug, PartialEq, Eq)]
pub struct Assertion {
    pub assertion_type: String,
    pub expected_value: String,
}

/// A test function as the calls that it makes and the assertions that it holds.
#[derive(Clone, Debug, PartialEq, Eq)]
pub struct TestCase {
    pub name: String,
    pub function_calls: Vec<FunctionCall>,
    pub assertions: Vec<Assertion>,
}

/// What a call holds, as sequences of characters.
pub struct FunctionCallView {
    pub function_name: Seq<char>,
    pub arguments: Seq<Seq<char>>,
}

/// What an assertion holds, as sequences of characters.
pub struct AssertionView {
    pub assertion_type: Seq<char>,
    pub expected_value: Seq<char>,
}

/// What a test case holds, as sequences.
pub struct TestCaseView {
    pub name: Seq<char>,
    pub function_calls: Seq<FunctionCallView>,
    pub assertions: Seq<AssertionView>,
}

impl View for FunctionCall {
    type V = FunctionCallView;

    open spec fn view(&self) -> FunctionCallView {
        FunctionCallView { function_name: self.function_name@, arguments: views(self.arguments@) }
    }
}

impl View for Assertion {
    type V = AssertionView;

    open spec fn view(&self) -> AssertionView {
        AssertionView {
            assertion_type: self.assertion_type@,
            expected_value: self.expected_value@,
        }
    }
}

/// The views of a sequence of calls.
pub open spec fn call_views(calls: Seq<FunctionCall>) -> Seq<FunctionCallView> {
    Seq::new(calls.len(), |i: int| calls[i]@)
}

/// The views of a sequence of assertions.
pub open spec fn assertion_views(assertions: Seq<Assertion>) -> Seq<AssertionView> {
    Seq::new(assertions.len(), |i: int| assertions[i]@)
}

impl View for TestCase {
    type V = TestCaseView;

    open spec fn view(&self) -> TestCaseView {
        TestCaseView {
            name: self.name@,
            function_calls: call_views(self.function_calls@),
            assertions: assertion_views(self.assertions@),
        }
    }
}

/// The views of a sequence of test cases.
pub open spec fn case_views(cases: Seq<TestCase>) -> Seq<TestCaseView> {
    Seq::new(cases.len(), |i: int| cases[i]@)
}

/// What a statement adds to a test case.
pub enum Recorded {
    Call(FunctionCallView),
    Assertion(AssertionView),
    Nothing,
}

/// What a statement adds to a test case. A call statement whose callee is a bare
/// name adds an assertion, with its first operand translated as the value that it
/// expects, where the name is that of an assertion, and a call with its translated
/// arguments for any other name. Any other statement adds nothing.
pub open spec fn recorded(statement: Statement) -> Result<Recorded, ErrorView> {
    match statement {
        Statement::Expression(Expression::Call { callee, arguments }) => match *callee {
            Expression::Identifier { name } => if is_assertion(name@) {
                if arguments@.len() == 0 {
                    Err(ErrorView::MissingOperand)
                } else {
                    match translation(arguments@[0]) {
                        Ok(text) => Ok(
                            Recorded::Assertion(
                                AssertionView { assertion_type: name@, expected_value: text },
                            ),
                        ),
                        Err(error) => Err(error),
                    }
                }
            } else {
                match translations(arguments@) {
                    Ok(texts) => Ok(
                        Recorded::Call(FunctionCallView { function_name: name@, arguments: texts }),
                    ),
                    Err(error) => Err(error),
                }
            },
            _ => Ok(Recorded::Nothing),
        },
        _ => Ok(Recorded::Nothing),
    }
}

/// A test case after a statement: with what the statement adds behind what was
/// recorded before.
pub open spec fn case_with(case: TestCaseView, statement: Statement) -> Result<
    TestCaseView,
    ErrorView,
> {
    match recorded(statement) {
        Ok(Recorded::Call(call)) => Ok(
            TestCaseView { function_calls: case.function_calls.push(call), ..case },
        ),
        Ok(Recorded::Assertion(assertion)) => Ok(
            TestCaseView { assertions: case.assertions.push(assertion), ..case },
        ),
        Ok(Recorded::Nothing) => Ok(case),
        Err(error) => Err(error),
    }
}

/// A test case after the statements of a body, in their order.
pub open spec fn case_with_all(case: TestCaseView, body: Seq<Statement>) -> Result<
    TestCaseView,
    ErrorView,
>
    decreases body.len(),
{
    if body.len() == 0 {
        Ok(case)
    } else {
        match case_with_all(case, body.drop_last()) {
            Err(error) => Err(error),
            Ok(before) => case_with(before, body.last()),
        }
    }
}

/// A function whose name begins as a test's name does.
pub open spec fn is_named_test(function: FunctionDefinition) -> bool {
    function.name matches Some(name) && has_prefix(name@, "test"@)
}

/// The test case of a function: an error where it has no body. A function without
/// a name gives a case with the empty name.
pub open spec fn case_of(function: FunctionDefinition) -> Result<TestCaseView, ErrorView> {
    match function.body {
        None => Err(ErrorView::MissingBody),
        Some(body) => case_with_all(
            TestCaseView {
                name: match function.name {
                    Some(name) => name@,
                    None => Seq::empty(),
                },
                function_calls: Seq::empty(),
                assertions: Seq::empty(),
            },
            body@,
        ),
    }
}

/// The test cases after a member of a contract: with the case of a function named
/// as a test behind the cases before it.
pub open spec fn cases_with_part(cases: Seq<TestCaseView>, part: ContractPart) -> Result<
    Seq<TestCaseView>,
    ErrorView,
> {
    match part {
        ContractPart::Function(function) => if is_named_test(function) {
            match case_of(function) {
                Ok(case) => Ok(cases.push(case)),
                Err(error) => Err(error),
            }
        } else {
            Ok(cases)
        },
        _ => Ok(cases),
    }
}

/// The test cases after the members of a contract, in source order.
pub open spec fn cases_with_parts(cases: Seq<TestCaseView>, parts: Seq<ContractPart>) -> Result<
    Seq<TestCaseView>,
    ErrorView,
>
    decreases parts.len(),
{
    if parts.len() == 0 {
        Ok(cases)
    } else {
        match cases_with_parts(cases, parts.drop_last()) {
            Err(error) => Err(error),
            Ok(before) => cases_with_part(before, parts.last()),
        }
    }
}

/// The test cases of the contracts: those of each contract, one contract after the
/// other, or the first error.
pub open spec fn cases_of(contracts: Seq<ContractDefinition>) -> Result<
    Seq<TestCaseView>,
    ErrorView,
>
    decreases contracts.len(),
{
    if contracts.len() == 0 {
        Ok(Seq::empty())
    } else {
        match cases_of(contracts.drop_last()) {
            Err(error) => Err(error),
            Ok(before) => cases_with_parts(before, contracts.last().parts@),
        }
    }
}

/// Once a prefix of a body fails, the whole body fails with the same error.
pub proof fn lemma_case_error_stays(case: TestCaseView, body: Seq<Statement>, n: int)
    requires
        0 <= n <= body.len(),
        case_with_all(case, body.take(n)) is Err,
    ensures
        case_with_all(case, body) == case_with_all(case, body.take(n)),
    decreases body.len() - n,
{
    if n < body.len() {
        assert(body.take(n + 1).drop_last() =~= body.take(n));
        lemma_case_error_stays(case, body, n + 1);
    } else {
        assert(body.take(n) =~= body);
    }
}

/// Once a prefix of the members fails, all the members fail with the same error.
pub proof fn lemma_parts_error_stays(cases: Seq<TestCaseView>, parts: Seq<ContractPart>, n: int)
    requires
        0 <= n <= parts.len(),
        cases_with_parts(cases, parts.take(n)) is Err,
    ensures
        cases_with_parts(cases, parts) == cases_with_parts(cases, parts.take(n)),
    decreases parts.len() - n,
{
    if n < parts.len() {
        assert(parts.take(n + 1).drop_last() =~= parts.take(n));
        lemma_parts_error_stays(cases, parts, n + 1);
    } else {
        assert(parts.take(n) =~= parts);
    }
}

/// Once a prefix of the contracts fails, all the contracts fail with the same
/// error.
pub proof fn lemma_cases_error_stays(contracts: Seq<ContractDefinition>, n: int)
    requires
        0 <= n <= contracts.len(),
        cases_of(contracts.take(n)) is Err,
    ensures
        cases_of(contracts) == cases_of(contracts.take(n)),
    decreases contracts.len() - n,
{
    if n < contracts.len() {
        assert(contracts.take(n + 1).drop_last() =~= contracts.take(n));
        lemma_cases_error_stays(contracts, n + 1);
    } else {
        assert(contracts.take(n) =~= contracts);
    }
}

/// Records what a statement does in a test case: the call of a bare name goes
/// behind the calls recorded before, and an assertion behind the assertions. On an
/// error the test case stays as it was.
pub fn extract_function_calls_and_assertions(statement: &Statement, test_case: &mut TestCase) -> (r:
    Result<(), TranslateError>)
    ensures
        r is Ok ==> case_with(old(test_case)@, *statement) == Ok::<TestCaseView, ErrorView>(
            final(test_case)@,
        ),
        r matches Err(error) ==> case_with(old(test_case)@, *statement) == Err::<
            TestCaseView,
            ErrorView,
        >(error@) && *final(test_case) == *old(test_case),
{
    match statement {
        Statement::Expression(Expression::Call { callee, arguments }) => match &**callee {
            Expression::Identifier { name } => {
                if same_text(name.as_str(), "assertEq") || same_text(name.as_str(), "assertTrue") {
                    if arguments.len() == 0 {
                        return Err(TranslateError::MissingOperand);
                    }
                    match translate(&arguments[0]) {
                        Ok(text) => {
                            let assertion = Assertion {
                                assertion_type: name.clone(),
                                expected_value: text,
                            };
                            assert(assertion_views(test_case.assertions@.push(assertion))
                                =~= assertion_views(test_case.assertions@).push(assertion@));
                            test_case.assertions.push(assertion);
                            Ok(())
                        },
                        Err(error) => Err(error),
                    }
                } else {
                    match translate_all(arguments) {
                        Ok(texts) => {
                            let call = FunctionCall {
                                function_name: name.clone(),
                                arguments: texts,
                            };
                            assert(call_views(test_case.function_calls@.push(call))
                                =~= call_views(test_case.function_calls@).push(call@));
                            test_case.function_calls.push(call);
                            Ok(())
                        },
                        Err(error) => Err(error),
                    }
                }
            },
            _ => Ok(()),
        },
        _ => Ok(()),
    }
}

/// The test case of a function: the calls of bare names and the assertions in its
/// body, each in order.
/// Fails where the function has no body, and where an argument of a recorded call
/// has no translation.
pub fn extract_test_case(function: &FunctionDefinition) -> (r: Result<TestCase, TranslateError>)
    ensures
        r matches Ok(case) ==> case_of(*function) == Ok::<TestCaseView, ErrorView>(case@),
        r matches Err(error) ==> case_of(*function) == Err::<TestCaseView, ErrorView>(error@),
{
    let name = match &function.name {
        Some(name) => name.clone(),
        None => String::new(),
    };
    let mut case = TestCase { name, function_calls: Vec::new(), assertions: Vec::new() };
    assert(call_views(case.function_calls@) =~= Seq::<FunctionCallView>::empty());
    assert(assertion_views(case.assertions@) =~= Seq::<AssertionView>::empty());
    let ghost first = case@;
    match &function.body {
        None => Err(TranslateError::MissingBody),
        Some(body) => {
            let mut i: usize = 0;
            assert(body@.take(0) =~= Seq::<Statement>::empty());
            while i < body.len()
                invariant
                    i <= body.len(),
                    case_of(*function) == case_with_all(first, body@),
                    case_with_all(first, body@.take(i as int)) == Ok::<
                        TestCaseView,
                        ErrorView,
                    >(case@),
                decreases body.len() - i,
            {
                assert(body@.take(i + 1).drop_last() =~= body@.take(i as int));
                assert(body@.take(i + 1).last() == body@[i as int]);
                match extract_function_calls_and_assertions(&body[i], &mut case) {
                    Ok(()) => {},
                    Err(error) => {
                        proof {
                            lemma_case_error_stays(first, body@, i + 1);
                        }
                        return Err(error);
                    },
                }
                i += 1;
            }
            assert(body@.take(body.len() as int) =~= body@);
            Ok(case)
        },
    }
}

/// The test cases of the contracts: one for each function whose name begins with
/// `test`, in source order, one contract after the other. Fails where such a
/// function has no body, and where an argument of a recorded call has no
/// translation.
pub fn extract_test_cases(contracts: &Vec<ContractDefinition>) -> (r: Result<
    Vec<TestCase>,
    TranslateError,
>)
    ensures
        r matches Ok(cases) ==> cases_of(contracts@) == Ok::<Seq<TestCaseView>, ErrorView>(
            case_views(cases@),
        ),
        r matches Err(error) ==> cases_of(contracts@) == Err::<Seq<TestCaseView>, ErrorView>(
            error@,
        ),
{
    let mut cases: Vec<TestCase> = Vec::new();
    let mut c: usize = 0;
    assert(case_views(cases@) =~= Seq::<TestCaseView>::empty());
    assert(contracts@.take(0) =~= Seq::<ContractDefinition>::empty());
    while c < contracts.len()
        invariant
            c <= contracts.len(),
            cases_of(contracts@.take(c as int)) == Ok::<Seq<TestCaseView>, ErrorView>(
                case_views(cases@),
            ),
        decreases contracts.len() - c,
    {
        assert(contracts@.take(c + 1).drop_last() =~= contracts@.take(c as int));
        assert(contracts@.take(c + 1).last() == contracts@[c as int]);
        let parts = &contracts[c].parts;
        let ghost before = case_views(cases@);
        let mut p: usize = 0;
        assert(parts@.take(0) =~= Seq::<ContractPart>::empty());
        while p < parts.len()
            invariant
                p <= parts.len(),
                c < contracts.len(),
                parts == &contracts@[c as int].parts,
                cases_of(contracts@.take(c as int)) == Ok::<Seq<TestCaseView>, ErrorView>(
                    before,
                ),
                cases_of(contracts@.take(c + 1)) == cases_with_parts(before, parts@),
                cases_with_parts(before, parts@.take(p as int)) == Ok::<
                    Seq<TestCaseView>,
                    ErrorView,
                >(case_views(cases@)),
            decreases parts.len() - p,
        {
            assert(parts@.take(p + 1).drop_last() =~= parts@.take(p as int));
            assert(parts@.take(p + 1).last() == parts@[p as int]);
            match &parts[p] {
                ContractPart::Function(function) => {
                    let named = match &function.name {
                        Some(name) => starts_with(name.as_str(), "test"),
                        None => false,
                    };
                    if named {
                        match extract_test_case(function) {
                            Ok(case) => {
                                assert(case_views(cases@.push(case)) =~= case_views(cases@).push(
                                    case@,
                                ));
                                cases.push(case);
                            },
                            Err(error) => {
                                proof {
                                    lemma_parts_error_stays(before, parts@, p + 1);
                                    lemma_cases_error_stays(contracts@, c + 1);
                                }
                                return Err(error);
                            },
                        }
                    }
                },
                _ => {},
            }
            p += 1;
        }
        assert(parts@.take(parts.len() as int) =~= parts@);
        c += 1;
    }
    assert(contracts@.take(contracts.len() as int) =~= contracts@);
    Ok(cases)
}

} // verus!
