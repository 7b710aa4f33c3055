//! Classification of one statement of a test body as a step.
//!
//! A call statement is looked at in a fixed order: an impersonation directive on
//! the `vm` object first, then an assertion by the name of its callee, then a plain
//! call. A declaration and a construction map directly. Every other statement is
//! skipped: a body is rebuilt as the flat sequence of what it does and asserts.

use vstd::prelude::*;
use vstd::string::*;
use crate::error::{ErrorView, TranslateError};
use crate::expr::Expression;
use crate::text::{same_text, views};
use crate::translator::{translate, translate_all, translation, translations};

verus! {

/// What stands behind the `=` of a declaration or an assignment.
#[derive(Debug, PartialEq, Eq)]
pub enum Assigned {
    /// An expression.
    Expression(Expression),
    /// The construction of a new contract of the named type.
    Construction { contract: String, arguments: Vec<Expression> },
}

/// A statement of a function body.
#[allow(inconsistent_fields)]
#[derive(Debug, PartialEq, Eq)]
pub enum Statement {
    /// An expression that stands as a statement.
    Expression(Expression),
    /// The declaration of a local variable, with its type as written.
    VariableDeclaration { name: String, type_: String, initializer: Option<Assigned> },
    /// An assignment to a target.
    Assignment { target: Expression, value: Assigned },
    /// The construction of a new contract of the named type, standing alone.
    Construction { contract: String, arguments: Vec<Expression> },
    /// Any other statement: a block, a branch, a loop.
    Unsupported,
}

/// One step of a test: what a statement does, with its expressions translated.
#[allow(inconsistent_fields)]
#[derive(Clone, Debug, PartialEq, Eq)]
pub enum TestStep {
    VariableDeclaration { name: String, type_: String, value: Option<String> },
    Constructor { contract: String, arguments: Vec<String> },
    FunctionCall { contract: Option<String>, function: String, arguments: Vec<String> },
    /// The next call is sent by the given actor.
    VMPrank(String),
    /// The calls from here on are sent by the given actor.
    VMStartPrank(String),
    /// The calls from here on are sent by the test itself again.
    VMStopPrank,
    Assertion { assert_type: String, arguments: Vec<String> },
}

/// What a step holds, as sequences of characters.
#[allow(inconsistent_fields)]
pub enum StepView {
    VariableDeclaration { name: Seq<char>, type_: Seq<char>, value: Option<Seq<char>> },
    Constructor { contract: Seq<char>, arguments: Seq<Seq<char>> },
    FunctionCall { contract: Option<Seq<char>>, function: Seq<char>, arguments: Seq<Seq<char>> },
    VMPrank(Seq<char>),
    VMStartPrank(Seq<char>),
    VMStopPrank,
    Assertion { assert_type: Seq<char>, arguments: Seq<Seq<char>> },
}

/// The view of an optional string.
pub open spec fn option_view(text: Option<String>) -> Option<Seq<char>> {
    match text {
        Some(s) => Some(s@),
        None => None,
    }
}

impl View for TestStep {
    type V = StepView;

    open spec fn view(&self) -> StepView {
        match *self {
            TestStep::VariableDeclaration { name, type_, value } => StepView::VariableDeclaration {
                name: name@,
                type_: type_@,
                value: option_view(value),
            },
            TestStep::Constructor { contract, arguments } => StepView::Constructor {
                contract: contract@,
                arguments: views(arguments@),
            },
            TestStep::FunctionCall { contract, function, arguments } => StepView::FunctionCall {
                contract: option_view(contract),
                function: function@,
                arguments: views(arguments@),
            },
            TestStep::VMPrank(actor) => StepView::VMPrank(actor@),
            TestStep::VMStartPrank(actor) => StepView::VMStartPrank(actor@),
            TestStep::VMStopPrank => StepView::VMStopPrank,
            TestStep::Assertion { assert_type, arguments } => StepView::Assertion {
                assert_type: assert_type@,
                arguments: views(arguments@),
            },
        }
    }
}

/// The views of a sequence of steps.
pub open spec fn step_views(steps: Seq<TestStep>) -> Seq<StepView> {
    Seq::new(steps.len(), |i: int| steps[i]@)
}

/// An impersonation directive.
#[derive(Clone, Copy, Debug, PartialEq, Eq, Structural)]
pub enum Directive {
    /// `startPrank`: impersonate from here on.
    Start,
    /// `stopPrank`: end the impersonation.
    Stop,
    /// `prank`: impersonate for the next call.
    Once,
}

/// The directive that a member name of the `vm` object stands for.
pub open spec fn directive_named(member: Seq<char>) -> Option<Directive> {
    if member == "startPrank"@ {
        Some(Directive::Start)
    } else if member == "stopPrank"@ {
        Some(Directive::Stop)
    } else if member == "prank"@ {
        Some(Directive::Once)
    } else {
        None
    }
}

/// The directive that a callee stands for: a member of the identifier `vm` whose
/// name is that of a directive.
pub open spec fn directive_of(callee: Expression) -> Option<Directive> {
    match callee {
        Expression::MemberAccess { object, member } => match *object {
            Expression::Identifier { name } => if name@ == "vm"@ {
                directive_named(member@)
            } else {
                None
            },
            _ => None,
        },
        _ => None,
    }
}

/// The names of the assertions: the equality check and the truth check.
pub open spec fn is_assertion(name: Seq<char>) -> bool {
    name == "assertEq"@ || name == "assertTrue"@
}

/// The receiver of a call: the translated object of a member access, and none for
/// any other callee.
pub open spec fn receiver_of(callee: Expression) -> Result<Option<Seq<char>>, ErrorView> {
    match callee {
        Expression::MemberAccess { object, .. } => match translation(*object) {
            Ok(text) => Ok(Some(text)),
            Err(error) => Err(error),
        },
        _ => Ok(None),
    }
}

/// The step of an impersonation directive called with `arguments`.
pub open spec fn directive_step(directive: Directive, arguments: Seq<Expression>) -> Result<
    StepView,
    ErrorView,
> {
    match directive {
        Directive::Stop => Ok(StepView::VMStopPrank),
        Directive::Start => if arguments.len() == 0 {
            Err(ErrorView::MissingActor)
        } else {
            match translation(arguments[0]) {
                Ok(actor) => Ok(StepView::VMStartPrank(actor)),
                Err(error) => Err(error),
            }
        },
        Directive::Once => if arguments.len() == 0 {
            Err(ErrorView::MissingActor)
        } else {
            match translation(arguments[0]) {
                Ok(actor) => Ok(StepView::VMPrank(actor)),
                Err(error) => Err(error),
            }
        },
    }
}

/// The step of a call statement.
pub open spec fn call_step(callee: Expression, arguments: Seq<Expression>) -> Result<
    StepView,
    ErrorView,
> {
    match directive_of(callee) {
        Some(directive) => directive_step(directive, arguments),
        None => match callee.trailing_name() {
            None => Err(ErrorView::InvalidCallee(callee.kind())),
            Some(name) => if is_assertion(name) {
                match translations(arguments) {
                    Ok(texts) => Ok(StepView::Assertion { assert_type: name, arguments: texts }),
                    Err(error) => Err(error),
                }
            } else {
                match receiver_of(callee) {
                    Err(error) => Err(error),
                    Ok(receiver) => match translations(arguments) {
                        Ok(texts) => Ok(
                            StepView::FunctionCall {
                                contract: receiver,
                                function: name,
                                arguments: texts,
                            },
                        ),
                        Err(error) => Err(error),
                    },
                }
            },
        },
    }
}

/// The step of a construction.
pub open spec fn construction_step(contract: Seq<char>, arguments: Seq<Expression>) -> Result<
    Option<StepView>,
    ErrorView,
> {
    match translations(arguments) {
        Ok(texts) => Ok(Some(StepView::Constructor { contract, arguments: texts })),
        Err(error) => Err(error),
    }
}

/// The step of a statement, none for a statement that is skipped, or the error of
/// the first expression in it that has no translation. A construction is a
/// constructor step wherever it stands: alone, assigned, or as the initial value
/// of a declaration. The assignment of an expression is skipped.
pub open spec fn classification(statement: Statement) -> Result<Option<StepView>, ErrorView> {
    match statement {
        Statement::Expression(e) => match e {
            Expression::Call { callee, arguments } => match call_step(*callee, arguments@) {
                Ok(step) => Ok(Some(step)),
                Err(error) => Err(error),
            },
            _ => Ok(None),
        },
        Statement::VariableDeclaration { name, type_, initializer } => match initializer {
            None => Ok(
                Some(StepView::VariableDeclaration { name: name@, type_: type_@, value: None }),
            ),
            Some(Assigned::Expression(e)) => match translation(e) {
                Ok(text) => Ok(
                    Some(
                        StepView::VariableDeclaration {
                            name: name@,
                            type_: type_@,
                            value: Some(text),
                        },
                    ),
                ),
                Err(error) => Err(error),
            },
            Some(Assigned::Construction { contract, arguments }) => construction_step(
                contract@,
                arguments@,
            ),
        },
        Statement::Assignment { value, .. } => match value {
            Assigned::Expression(_) => Ok(None),
            Assigned::Construction { contract, arguments } => construction_step(
                contract@,
                arguments@,
            ),
        },
        Statement::Construction { contract, arguments } => construction_step(
            contract@,
            arguments@,
        ),
        Statement::Unsupported => Ok(None),
    }
}

/// The directive that a callee stands for, if it stands for one.
pub fn directive(callee: &Expression) -> (r: Option<Directive>)
    ensures
        r == directive_of(*callee),
{
    match callee {
        Expression::MemberAccess { object, member } => match &**object {
            Expression::Identifier { name } => {
                if !same_text(name.as_str(), "vm") {
                    None
                } else if same_text(member.as_str(), "startPrank") {
                    Some(Directive::Start)
                } else if same_text(member.as_str(), "stopPrank") {
                    Some(Directive::Stop)
                } else if same_text(member.as_str(), "prank") {
                    Some(Directive::Once)
                } else {
                    None
                }
            },
            _ => None,
        },
        _ => None,
    }
}

/// The step of a call statement with the given callee and arguments.
pub fn classify_call(callee: &Expression, arguments: &Vec<Expression>) -> (r: Result<
    TestStep,
    TranslateError,
>)
    ensures
        r matches Ok(step) ==> call_step(*callee, arguments@) == Ok::<StepView, ErrorView>(
            step@,
        ),
        r matches Err(error) ==> call_step(*callee, arguments@) == Err::<
            StepView,
            ErrorView,
        >(error@),
{
    match directive(callee) {
        Some(Directive::Stop) => Ok(TestStep::VMStopPrank),
        Some(Directive::Start) => {
            if arguments.len() == 0 {
                Err(TranslateError::MissingActor)
            } else {
                match translate(&arguments[0]) {
                    Ok(actor) => Ok(TestStep::VMStartPrank(actor)),
                    Err(error) => Err(error),
                }
            }
        },
        Some(Directive::Once) => {
            if arguments.len() == 0 {
                Err(TranslateError::MissingActor)
            } else {
                match translate(&arguments[0]) {
                    Ok(actor) => Ok(TestStep::VMPrank(actor)),
                    Err(error) => Err(error),
                }
            }
        },
        None => match callee.callee_name() {
            None => Err(TranslateError::InvalidCallee(callee.node_kind())),
            Some(name) => {
                if same_text(name, "assertEq") || same_text(name, "assertTrue") {
                    match translate_all(arguments) {
                        Ok(texts) => Ok(
                            TestStep::Assertion {
                                assert_type: String::from_str(name),
                                arguments: texts,
                            },
                        ),
                        Err(error) => Err(error),
                    }
                } else {
                    let receiver = match callee {
                        Expression::MemberAccess { object, .. } => match translate(object) {
                            Ok(text) => Some(text),
                            Err(error) => {
                                return Err(error);
                            },
                        },
                        _ => None,
                    };
                    match translate_all(arguments) {
                        Ok(texts) => Ok(
                            TestStep::FunctionCall {
                                contract: receiver,
                                function: String::from_str(name),
                                arguments: texts,
                            },
                        ),
                        Err(error) => Err(error),
                    }
                }
            },
        },
    }
}

/// The step of the construction of a contract of type `contract`.
pub fn classify_construction(contract: &String, arguments: &Vec<Expression>) -> (r: Result<
    Option<TestStep>,
    TranslateError,
>)
    ensures
        r matches Ok(Some(step)) ==> construction_step(contract@, arguments@) == Ok::<
            Option<StepView>,
            ErrorView,
        >(Some(step@)),
        r matches Err(error) ==> construction_step(contract@, arguments@) == Err::<
            Option<StepView>,
            ErrorView,
        >(error@),
        !(r matches Ok(None)),
{
    match translate_all(arguments) {
        Ok(texts) => Ok(
            Some(TestStep::Constructor { contract: contract.clone(), arguments: texts }),
        ),
        Err(error) => Err(error),
    }
}

/// Classifies a statement as a step. A statement that is neither a call, a
/// declaration nor a construction is skipped. Fails where an expression of the
/// statement has no translation, where the callee of a call names nothing, and
/// where a directive that names an actor is called without one.
pub fn classify(statement: &Statement) -> (r: Result<Option<TestStep>, TranslateError>)
    ensures
        r matches Ok(Some(step)) ==> classification(*statement) == Ok::<
            Option<StepView>,
            ErrorView,
        >(Some(step@)),
        r matches Ok(None) ==> classification(*statement) == Ok::<
            Option<StepView>,
            ErrorView,
        >(None),
        r matches Err(error) ==> classification(*statement) == Err::<
            Option<StepView>,
            ErrorView,
        >(error@),
{
    match statement {
        Statement::Expression(e) => match e {
            Expression::Call { callee, arguments } => match classify_call(callee, arguments) {
                Ok(step) => Ok(Some(step)),
                Err(error) => Err(error),
            },
            _ => Ok(None),
        },
        Statement::VariableDeclaration { name, type_, initializer } => match initializer {
            None => Ok(
                Some(
                    TestStep::VariableDeclaration {
                        name: name.clone(),
                        type_: type_.clone(),
                        value: None,
                    },
                ),
            ),
            Some(Assigned::Expression(e)) => match translate(e) {
                Ok(text) => Ok(
                    Some(
                        TestStep::VariableDeclaration {
                            name: name.clone(),
                            type_: type_.clone(),
                            value: Some(text),
                        },
                    ),
                ),
                Err(error) => Err(error),
            },
            Some(Assigned::Construction { contract, arguments }) => classify_construction(
                contract,
                arguments,
            ),
        },
        Statement::Assignment { value, .. } => match value {
            Assigned::Expression(_) => Ok(None),
            Assigned::Construction { contract, arguments } => classify_construction(
                contract,
                arguments,
            ),
        },
        Statement::Construction { contract, arguments } => classify_construction(
            contract,
            arguments,
        ),
        Statement::Unsupported => Ok(None),
    }
}

/// What a statement adds to the steps before it: its step, or nothing where it is
/// skipped.
pub open spec fn with_statement(steps: Seq<StepView>, statement: Statement) -> Result<
    Seq<StepView>,
    ErrorView,
> {
    match classification(statement) {
        Ok(Some(step)) => Ok(steps.push(step)),
        Ok(None) => Ok(steps),
        Err(error) => Err(error),
    }
}

/// The steps of a body: the steps of its statements in the order of the statements,
/// or the error of the first statement that fails.
pub open spec fn steps_of(body: Seq<Statement>) -> Result<Seq<StepView>, ErrorView>
    decreases body.len(),
{
    if body.len() == 0 {
        Ok(Seq::empty())
    } else {
        match steps_of(body.drop_last()) {
            Err(error) => Err(error),
            Ok(steps) => with_statement(steps, body.last()),
        }
    }
}

/// Once a prefix of a body fails, the whole body fails with the same error.
pub proof fn lemma_steps_error_stays(body: Seq<Statement>, n: int)
    requires
        0 <= n <= body.len(),
        steps_of(body.take(n)) is Err,
    ensures
        steps_of(body) == steps_of(body.take(n)),
    decreases body.len() - n,
{
    if n < body.len() {
        assert(body.take(n + 1).drop_last() =~= body.take(n));
        lemma_steps_error_stays(body, n + 1);
    } else {
        assert(body.take(n) =~= body);
    }
}

/// Classifies the statements of a body in order and collects their steps. Fails
/// with the error of the first statement that fails.
pub fn classify_all(body: &Vec<Statement>) -> (r: Result<Vec<TestStep>, TranslateError>)
    ensures
        r matches Ok(steps) ==> steps_of(body@) == Ok::<Seq<StepView>, ErrorView>(
            step_views(steps@),
        ),
        r matches Err(error) ==> steps_of(body@) == Err::<Seq<StepView>, ErrorView>(error@),
{
    let mut steps: Vec<TestStep> = Vec::new();
    let mut i: usize = 0;
    assert(step_views(steps@) =~= Seq::<StepView>::empty());
    while i < body.len()
        invariant
            i <= body.len(),
            steps_of(body@.take(i as int)) == Ok::<Seq<StepView>, ErrorView>(
                step_views(steps@),
            ),
        decreases body.len() - i,
    {
        assert(body@.take(i + 1).drop_last() =~= body@.take(i as int));
        assert(body@.take(i + 1).last() == body@[i as int]);
        match classify(&body[i]) {
            Ok(Some(step)) => {
                assert(step_views(steps@.push(step)) =~= step_views(steps@).push(step@));
                steps.push(step);
            },
            Ok(None) => {},
            Err(error) => {
                proof {
                    lemma_steps_error_stays(body@, i + 1);
                }
                return Err(error);
            },
        }
        i += 1;
    }
    assert(body@.take(body.len() as int) =~= body@);
    Ok(steps)
}

/// The steps of two bodies one after the other are the steps of the first followed
/// by the steps of the second: no step changes its place relative to another.
pub proof fn lemma_steps_keep_order(first: Seq<Statement>, second: Seq<Statement>)
    ensures
        steps_of(first + second) == (match steps_of(first) {
            Err(error) => Err(error),
            Ok(before) => match steps_of(second) {
                Err(error) => Err(error),
                Ok(after) => Ok(before + after),
            },
        }),
    decreases second.len(),
{
    if second.len() == 0 {
        assert(first + second =~= first);
        if let Ok(before) = steps_of(first) {
            assert(before + Seq::<StepView>::empty() =~= before);
        }
    } else {
        let whole = first + second;
        assert(whole.drop_last() =~= first + second.drop_last());
        assert(whole.last() == second.last());
        lemma_steps_keep_order(first, second.drop_last());
        if let Ok(before) = steps_of(first) {
            if let Ok(middle) = steps_of(second.drop_last()) {
                if let Ok(Some(step)) = classification(second.last()) {
                    assert((before + middle).push(step) =~= before + middle.push(step));
                }
            }
        }
    }
}

/// Where every statement of a body is classified as a step, the body has as many
/// steps as statements, and each step stands at the place of its statement.
pub proof fn lemma_steps_stand_in_place(body: Seq<Statement>)
    requires
        forall|i: int| 0 <= i < body.len() ==> (#[trigger] classification(body[i])) matches Ok(
            Some(_),
        ),
    ensures
        steps_of(body) is Ok,
        steps_of(body)->Ok_0.len() == body.len(),
        forall|i: int|
            0 <= i < body.len() ==> classification(body[i]) == Ok::<
                Option<StepView>,
                ErrorView,
            >(Some(steps_of(body)->Ok_0[i])),
    decreases body.len(),
{
    if body.len() > 0 {
        let front = body.drop_last();
        assert forall|i: int| 0 <= i < front.len() implies (#[trigger] classification(
            front[i],
        )) matches Ok(Some(_)) by {
            assert(front[i] == body[i]);
        }
        lemma_steps_stand_in_place(front);
        assert(classification(body[body.len() - 1]) matches Ok(Some(_)));
        assert forall|i: int| 0 <= i < body.len() implies classification(body[i]) == Ok::<
            Option<StepView>,
            ErrorView,
        >(Some(steps_of(body)->Ok_0[i])) by {
            if i < front.len() {
                assert(front[i] == body[i]);
            }
        }
    }
}

} // verus!
