//! The declarations of the functions that the steps of a test contract call.
//!
//! Each call step is observed as a name and a number of arguments. The first
//! observation of a name fixes its number of arguments; a later call of that name
//! adds nothing. One declaration is written for each name, and the declarations
//! are ordered by name.

use vstd::prelude::*;
use vstd::string::*;
use crate::assembler::{TestContract, TestContractView, TestFunctionView};
use crate::classifier::{step_views, StepView, TestStep};
use crate::text::{
    chars_of, join, joined, lemma_lex_irreflexive, lemma_lex_total, lemma_lex_transitive, lex_less,
    same_text, text_less, views,
};

verus! {

/// A function as a call shows it: its name and the number of its arguments.
#[derive(Clone, Debug, PartialEq, Eq)]
pub struct FunctionSignature {
    pub name: String,
    pub arity: usize,
}

/// What a signature holds, as a sequence and a number.
pub struct SignatureView {
    pub name: Seq<char>,
    pub arity: nat,
}

impl View for FunctionSignature {
    type V = SignatureView;

    open spec fn view(&self) -> SignatureView {
        SignatureView { name: self.name@, arity: self.arity as nat }
    }
}

/// The views of a sequence of signatures.
pub open spec fn signature_views(signatures: Seq<FunctionSignature>) -> Seq<SignatureView> {
    Seq::new(signatures.len(), |i: int| signatures[i]@)
}

/// A signature of the given name is among `signatures`.
pub open spec fn knows(signatures: Seq<SignatureView>, name: Seq<char>) -> bool {
    exists|i: int| 0 <= i < signatures.len() && (#[trigger] signatures[i]).name == name
}

/// What a step adds to the signatures observed before it: the signature of a call
/// whose name is not among them yet, and nothing otherwise.
pub open spec fn with_step(signatures: Seq<SignatureView>, step: StepView) -> Seq<SignatureView> {
    match step {
        StepView::FunctionCall { function, arguments, .. } => if knows(signatures, function) {
            signatures
        } else {
            signatures.push(SignatureView { name: function, arity: arguments.len() })
        },
        _ => signatures,
    }
}

/// The signatures observed after the steps, in the order of first observation.
pub open spec fn with_steps(signatures: Seq<SignatureView>, steps: Seq<StepView>) -> Seq<
    SignatureView,
>
    decreases steps.len(),
{
    if steps.len() == 0 {
        signatures
    } else {
        with_step(with_steps(signatures, steps.drop_last()), steps.last())
    }
}

/// The steps of the functions, one function after the other.
pub open spec fn steps_of_functions(functions: Seq<TestFunctionView>) -> Seq<StepView>
    decreases functions.len(),
{
    if functions.len() == 0 {
        Seq::empty()
    } else {
        steps_of_functions(functions.drop_last()) + functions.last().steps
    }
}

/// All the steps of a test contract: those of its setup function, then those of its
/// tests in order.
pub open spec fn all_steps(contract: TestContractView) -> Seq<StepView> {
    (match contract.setup {
        Some(setup) => setup.steps,
        None => Seq::empty(),
    }) + steps_of_functions(contract.test_functions)
}

/// The signatures that the steps of a test contract show.
pub open spec fn observed(contract: TestContractView) -> Seq<SignatureView> {
    with_steps(Seq::empty(), all_steps(contract))
}

/// The least index at or after `from` whose signature's name does not come before
/// `name`, or the length.
pub open spec fn insert_place(sorted: Seq<SignatureView>, name: Seq<char>, from: int) -> int
    decreases sorted.len() - from,
{
    if from < 0 || from >= sorted.len() {
        sorted.len() as int
    } else if !lex_less(sorted[from].name, name) {
        from
    } else {
        insert_place(sorted, name, from + 1)
    }
}

/// `sorted` with `signature` put behind the names that come before its name.
pub open spec fn sorted_insert(sorted: Seq<SignatureView>, signature: SignatureView) -> Seq<
    SignatureView,
> {
    sorted.insert(insert_place(sorted, signature.name, 0), signature)
}

/// The signatures ordered by name.
pub open spec fn sorted_by_name(signatures: Seq<SignatureView>) -> Seq<SignatureView>
    decreases signatures.len(),
{
    if signatures.len() == 0 {
        Seq::empty()
    } else {
        sorted_insert(sorted_by_name(signatures.drop_last()), signatures.last())
    }
}

/// The parameter list of a function of `arity` parameters: each an address.
pub open spec fn parameter_list(arity: nat) -> Seq<char> {
    joined(Seq::new(arity, |i: int| "address"@), ", "@)
}

/// The declaration of a function.
pub open spec fn declaration_text(signature: SignatureView) -> Seq<char> {
    "function "@ + signature.name + "("@ + parameter_list(signature.arity) + ") public"@
}

/// The declarations of the signatures, in their order.
pub open spec fn declaration_texts(signatures: Seq<SignatureView>) -> Seq<Seq<char>> {
    Seq::new(signatures.len(), |i: int| declaration_text(signatures[i]))
}

/// The declarations of the functions that a test contract calls, ordered by name.
pub open spec fn declarations(contract: TestContractView) -> Seq<Seq<char>> {
    declaration_texts(sorted_by_name(observed(contract)))
}

/// Observing two runs of steps one after the other is observing their concatenation.
pub proof fn lemma_with_steps_concat(
    signatures: Seq<SignatureView>,
    first: Seq<StepView>,
    second: Seq<StepView>,
)
    ensures
        with_steps(signatures, first + second) == with_steps(with_steps(signatures, first), second),
    decreases second.len(),
{
    if second.len() == 0 {
        assert(first + second =~= first);
    } else {
        assert((first + second).drop_last() =~= first + second.drop_last());
        assert((first + second).last() == second.last());
        lemma_with_steps_concat(signatures, first, second.drop_last());
    }
}

/// Whether a signature of the given name is among `signatures`.
pub fn is_known(signatures: &Vec<FunctionSignature>, name: &str) -> (r: bool)
    ensures
        r == knows(signature_views(signatures@), name@),
{
    let mut i: usize = 0;
    while i < signatures.len()
        invariant
            i <= signatures.len(),
            forall|k: int| 0 <= k < i ==> (#[trigger] signature_views(signatures@)[k]).name != name@,
        decreases signatures.len() - i,
    {
        if same_text(signatures[i].name.as_str(), name) {
            assert(signature_views(signatures@)[i as int].name == name@);
            return true;
        }
        i += 1;
    }
    false
}

/// Observes the steps: for each call step whose function name is not yet among
/// `functions`, its signature is added behind them. The signatures that were there
/// stay as they are.
pub fn extract_functions_from_steps(steps: &[TestStep], functions: &mut Vec<FunctionSignature>)
    ensures
        signature_views(final(functions)@) == with_steps(
            signature_views(old(functions)@),
            step_views(steps@),
        ),
{
    let mut i: usize = 0;
    assert(step_views(steps@).take(0) =~= Seq::<StepView>::empty());
    while i < steps.len()
        invariant
            i <= steps.len(),
            signature_views(functions@) == with_steps(
                signature_views(old(functions)@),
                step_views(steps@).take(i as int),
            ),
        decreases steps.len() - i,
    {
        proof {
            let now = step_views(steps@).take(i + 1);
            assert(now.drop_last() =~= step_views(steps@).take(i as int));
            assert(now.last() == steps@[i as int]@);
        }
        match &steps[i] {
            TestStep::FunctionCall { function, arguments, .. } => {
                if !is_known(functions, function.as_str()) {
                    let signature = FunctionSignature {
                        name: function.clone(),
                        arity: arguments.len(),
                    };
                    assert(signature_views(functions@.push(signature)) =~= signature_views(
                        functions@,
                    ).push(signature@));
                    assert(crate::text::views(arguments@).len() == arguments.len());
                    functions.push(signature);
                }
            },
            _ => {},
        }
        i += 1;
    }
    assert(step_views(steps@).take(steps.len() as int) =~= step_views(steps@));
}

/// The place where a signature of the given name goes into `sorted`.
pub fn place_for(sorted: &Vec<FunctionSignature>, name: &str) -> (r: usize)
    ensures
        r == insert_place(signature_views(sorted@), name@, 0),
        r <= sorted.len(),
{
    let wanted = chars_of(name);
    let mut i: usize = 0;
    while i < sorted.len()
        invariant
            i <= sorted.len(),
            wanted@ == name@,
            insert_place(signature_views(sorted@), name@, 0) == insert_place(
                signature_views(sorted@),
                name@,
                i as int,
            ),
        decreases sorted.len() - i,
    {
        let other = chars_of(sorted[i].name.as_str());
        assert(signature_views(sorted@)[i as int].name == other@);
        if !text_less(&other, &wanted) {
            return i;
        }
        i += 1;
    }
    i
}

/// The signatures ordered by name. Where two names are equal, the later signature
/// goes before the earlier one.
pub fn sort_signatures(signatures: &Vec<FunctionSignature>) -> (r: Vec<FunctionSignature>)
    ensures
        signature_views(r@) == sorted_by_name(signature_views(signatures@)),
{
    let mut sorted: Vec<FunctionSignature> = Vec::new();
    let mut i: usize = 0;
    assert(signature_views(signatures@).take(0) =~= Seq::<SignatureView>::empty());
    assert(signature_views(sorted@) =~= Seq::<SignatureView>::empty());
    while i < signatures.len()
        invariant
            i <= signatures.len(),
            signature_views(sorted@) == sorted_by_name(
                signature_views(signatures@).take(i as int),
            ),
        decreases signatures.len() - i,
    {
        proof {
            let now = signature_views(signatures@).take(i + 1);
            assert(now.drop_last() =~= signature_views(signatures@).take(i as int));
            assert(now.last() == signatures@[i as int]@);
        }
        let signature = FunctionSignature {
            name: signatures[i].name.clone(),
            arity: signatures[i].arity,
        };
        let place = place_for(&sorted, signature.name.as_str());
        assert(signature_views(sorted@.insert(place as int, signature)) =~= signature_views(
            sorted@,
        ).insert(place as int, signature@));
        sorted.insert(place, signature);
        i += 1;
    }
    assert(signature_views(signatures@).take(signatures.len() as int) =~= signature_views(
        signatures@,
    ));
    sorted
}

/// The declaration of a function: its name, and each of its parameters an address.
pub fn declaration(signature: &FunctionSignature) -> (r: String)
    ensures
        r@ == declaration_text(signature@),
{
    let mut parameters: Vec<String> = Vec::new();
    let mut k: usize = 0;
    while k < signature.arity
        invariant
            k <= signature.arity,
            views(parameters@) =~= Seq::new(k as nat, |i: int| "address"@),
        decreases signature.arity - k,
    {
        let parameter = String::from_str("address");
        assert(views(parameters@.push(parameter)) =~= views(parameters@).push(parameter@));
        parameters.push(parameter);
        k += 1;
    }
    let mut out = String::from_str("function ");
    out.append(signature.name.as_str());
    out.append("(");
    let list = join(&parameters, ", ");
    out.append(list.as_str());
    out.append(") public");
    out
}

/// The declarations of the functions that the steps of a test contract call: one
/// for each name, with as many parameters as the first call of that name has
/// arguments, ordered by name.
pub fn extract_contract_functions(test_contract: &TestContract) -> (r: Vec<String>)
    ensures
        views(r@) == declarations(test_contract@),
{
    let mut functions: Vec<FunctionSignature> = Vec::new();
    assert(signature_views(functions@) =~= Seq::<SignatureView>::empty());
    let ghost setup_steps = match test_contract@.setup {
        Some(setup) => setup.steps,
        None => Seq::empty(),
    };
    match &test_contract.setup {
        Some(setup) => {
            extract_functions_from_steps(setup.steps.as_slice(), &mut functions);
        },
        None => {},
    }
    assert(signature_views(functions@) == with_steps(Seq::empty(), setup_steps));
    let ghost tests = test_contract@.test_functions;
    let mut i: usize = 0;
    assert(tests.take(0) =~= Seq::<TestFunctionView>::empty());
    assert(setup_steps + Seq::<StepView>::empty() =~= setup_steps);
    while i < test_contract.test_functions.len()
        invariant
            i <= test_contract.test_functions.len(),
            tests == test_contract@.test_functions,
            signature_views(functions@) == with_steps(
                Seq::empty(),
                setup_steps + steps_of_functions(tests.take(i as int)),
            ),
        decreases test_contract.test_functions.len() - i,
    {
        proof {
            let now = tests.take(i + 1);
            assert(now.drop_last() =~= tests.take(i as int));
            assert(now.last().steps == step_views(test_contract.test_functions@[i as int].steps@));
            let before = steps_of_functions(tests.take(i as int));
            assert(setup_steps + (before + now.last().steps) =~= (setup_steps + before)
                + now.last().steps);
            lemma_with_steps_concat(Seq::empty(), setup_steps + before, now.last().steps);
        }
        extract_functions_from_steps(test_contract.test_functions[i].steps.as_slice(), &mut functions);
        i += 1;
    }
    assert(tests.take(tests.len() as int) =~= tests);
    let sorted = sort_signatures(&functions);
    let mut out: Vec<String> = Vec::new();
    let mut k: usize = 0;
    while k < sorted.len()
        invariant
            k <= sorted.len(),
            views(out@) =~= declaration_texts(signature_views(sorted@)).take(k as int),
        decreases sorted.len() - k,
    {
        let text = declaration(&sorted[k]);
        assert(views(out@.push(text)) =~= views(out@).push(text@));
        assert(declaration_texts(signature_views(sorted@)).take(k + 1) =~= declaration_texts(
            signature_views(sorted@),
        ).take(k as int).push(text@));
        out.push(text);
        k += 1;
    }
    assert(declaration_texts(signature_views(sorted@)).take(sorted.len() as int)
        =~= declaration_texts(signature_views(sorted@)));
    out
}

/// A call step of the function named `name`.
pub open spec fn is_call_of(step: StepView, name: Seq<char>) -> bool {
    step matches StepView::FunctionCall { function, .. } && function == name
}

/// One of the steps calls the function named `name`.
pub open spec fn calls(steps: Seq<StepView>, name: Seq<char>) -> bool {
    exists|k: int| 0 <= k < steps.len() && is_call_of(#[trigger] steps[k], name)
}

/// No two of the signatures have the same name.
pub open spec fn distinct_names(signatures: Seq<SignatureView>) -> bool {
    forall|i: int, j: int|
        0 <= i < j < signatures.len() ==> (#[trigger] signatures[i]).name != (
        #[trigger] signatures[j]).name
}

/// Each signature's name comes before the names of those behind it.
pub open spec fn ordered_by_name(signatures: Seq<SignatureView>) -> bool {
    forall|i: int, j: int|
        0 <= i < j < signatures.len() ==> lex_less(
            (#[trigger] signatures[i]).name,
            (#[trigger] signatures[j]).name,
        )
}

/// Observation keeps what was observed before, adds no name twice, and knows
/// afterwards exactly the names known before and the names that the steps call.
pub proof fn lemma_with_steps_names(signatures: Seq<SignatureView>, steps: Seq<StepView>)
    ensures
        signatures.len() <= with_steps(signatures, steps).len(),
        forall|i: int|
            0 <= i < signatures.len() ==> (#[trigger] with_steps(signatures, steps)[i])
                == signatures[i],
        distinct_names(signatures) ==> distinct_names(with_steps(signatures, steps)),
        forall|name: Seq<char>|
            #[trigger] knows(with_steps(signatures, steps), name) <==> knows(signatures, name)
                || calls(steps, name),
    decreases steps.len(),
{
    if steps.len() == 0 {
        assert forall|name: Seq<char>| !calls(steps, name) by {}
    } else {
        let front = steps.drop_last();
        let before = with_steps(signatures, front);
        let after = with_steps(signatures, steps);
        lemma_with_steps_names(signatures, front);
        assert(after == with_step(before, steps.last()));
        assert forall|name: Seq<char>| #[trigger]
            knows(after, name) <==> knows(signatures, name) || calls(steps, name) by {
            assert(knows(before, name) <==> knows(signatures, name) || calls(front, name));
            if calls(front, name) {
                let k = choose|k: int| 0 <= k < front.len() && is_call_of(#[trigger] front[k], name);
                assert(is_call_of(steps[k], name));
            }
            if calls(steps, name) && !calls(front, name) {
                let k = choose|k: int| 0 <= k < steps.len() && is_call_of(#[trigger] steps[k], name);
                if k < front.len() {
                    assert(is_call_of(front[k], name));
                }
                assert(is_call_of(steps.last(), name));
            }
            if is_call_of(steps.last(), name) {
                assert(is_call_of(steps[steps.len() - 1], name));
                if !knows(before, name) {
                    assert(after[before.len() as int].name == name);
                }
            }
            if knows(before, name) {
                let i = choose|i: int| 0 <= i < before.len() && (#[trigger] before[i]).name == name;
                assert(after[i].name == name);
            }
            if knows(after, name) && !knows(before, name) {
                let i = choose|i: int| 0 <= i < after.len() && (#[trigger] after[i]).name == name;
                if i < before.len() {
                    assert(before[i].name == name);
                }
            }
        }
        if distinct_names(signatures) {
            assert forall|i: int, j: int| 0 <= i < j < after.len() implies (#[trigger] after[i]).name
                != (#[trigger] after[j]).name by {
                if j < before.len() {
                    assert(before[i].name != before[j].name);
                } else {
                    assert(before[i].name == after[i].name);
                }
            }
        }
    }
}

/// The first call of a name fixes the number of its parameters: the signature
/// observed for the name has as many as that call has arguments, whatever the
/// later calls of the name hold.
pub proof fn lemma_first_call_fixes_arity(steps: Seq<StepView>, first: int)
    requires
        0 <= first < steps.len(),
        steps[first] is FunctionCall,
        forall|k: int|
            0 <= k < first ==> !is_call_of(#[trigger] steps[k], steps[first]->function),
    ensures
        exists|i: int|
            0 <= i < with_steps(Seq::empty(), steps).len() && #[trigger] with_steps(
                Seq::empty(),
                steps,
            )[i] == (SignatureView {
                name: steps[first]->function,
                arity: steps[first]->FunctionCall_arguments.len(),
            }),
{
    let name = steps[first]->function;
    let head = steps.take(first);
    let upto = steps.take(first + 1);
    let rest = steps.skip(first + 1);
    let before = with_steps(Seq::empty(), head);
    lemma_with_steps_names(Seq::empty(), head);
    assert(!calls(head, name)) by {
        if calls(head, name) {
            let k = choose|k: int| 0 <= k < head.len() && is_call_of(#[trigger] head[k], name);
            assert(is_call_of(steps[k], name));
        }
    }
    assert(!knows(before, name));
    assert(upto.drop_last() =~= head);
    assert(upto.last() == steps[first]);
    let with_first = with_steps(Seq::empty(), upto);
    assert(with_first == before.push(
        SignatureView { name, arity: steps[first]->FunctionCall_arguments.len() },
    ));
    assert(upto + rest =~= steps);
    lemma_with_steps_concat(Seq::empty(), upto, rest);
    lemma_with_steps_names(with_first, rest);
    assert(with_steps(Seq::empty(), steps)[before.len() as int] == with_first[before.len() as int]);
}

/// The place of insertion stands behind the names that come before `name` and at
/// a name that does not.
pub proof fn lemma_insert_place(sorted: Seq<SignatureView>, name: Seq<char>, from: int)
    requires
        0 <= from <= sorted.len(),
    ensures
        from <= insert_place(sorted, name, from) <= sorted.len(),
        forall|k: int|
            from <= k < insert_place(sorted, name, from) ==> lex_less(
                (#[trigger] sorted[k]).name,
                name,
            ),
        insert_place(sorted, name, from) < sorted.len() ==> !lex_less(
            sorted[insert_place(sorted, name, from)].name,
            name,
        ),
    decreases sorted.len() - from,
{
    if from < sorted.len() && lex_less(sorted[from].name, name) {
        lemma_insert_place(sorted, name, from + 1);
    }
}

/// Putting a signature with a new name into ordered signatures keeps them ordered,
/// and adds that signature and nothing else.
pub proof fn lemma_sorted_insert(sorted: Seq<SignatureView>, signature: SignatureView)
    requires
        ordered_by_name(sorted),
        !knows(sorted, signature.name),
    ensures
        ordered_by_name(sorted_insert(sorted, signature)),
        sorted_insert(sorted, signature).len() == sorted.len() + 1,
        forall|other: SignatureView|
            #[trigger] sorted_insert(sorted, signature).contains(other) <==> sorted.contains(other)
                || other == signature,
{
    let place = insert_place(sorted, signature.name, 0);
    let after = sorted_insert(sorted, signature);
    lemma_insert_place(sorted, signature.name, 0);
    assert forall|i: int, j: int| 0 <= i < j < after.len() implies lex_less(
        (#[trigger] after[i]).name,
        (#[trigger] after[j]).name,
    ) by {
        if j < place {
            assert(after[i] == sorted[i] && after[j] == sorted[j]);
        } else if j == place {
            assert(after[i] == sorted[i]);
        } else if i == place {
            assert(after[j] == sorted[j - 1]);
            assert(sorted[place].name != signature.name);
            lemma_lex_total(sorted[place].name, signature.name);
            if j - 1 > place {
                assert(lex_less(sorted[place].name, sorted[j - 1].name));
                lemma_lex_transitive(signature.name, sorted[place].name, sorted[j - 1].name);
            }
        } else if i < place {
            assert(after[i] == sorted[i] && after[j] == sorted[j - 1]);
        } else {
            assert(after[i] == sorted[i - 1] && after[j] == sorted[j - 1]);
        }
    }
    assert forall|other: SignatureView| #[trigger]
        after.contains(other) <==> sorted.contains(other) || other == signature by {
        if after.contains(other) {
            let i = choose|i: int| 0 <= i < after.len() && after[i] == other;
            if i < place {
                assert(sorted[i] == other);
            } else if i > place {
                assert(sorted[i - 1] == other);
            }
        }
        if sorted.contains(other) {
            let i = choose|i: int| 0 <= i < sorted.len() && sorted[i] == other;
            if i < place {
                assert(after[i] == other);
            } else {
                assert(after[i + 1] == other);
            }
        }
        if other == signature {
            assert(after[place] == other);
        }
    }
}

/// Ordering signatures of distinct names by name yields the same signatures, each
/// once, with every name before the names behind it.
pub proof fn lemma_sorted_by_name(signatures: Seq<SignatureView>)
    requires
        distinct_names(signatures),
    ensures
        ordered_by_name(sorted_by_name(signatures)),
        sorted_by_name(signatures).len() == signatures.len(),
        forall|other: SignatureView|
            #[trigger] sorted_by_name(signatures).contains(other) <==> signatures.contains(other),
    decreases signatures.len(),
{
    if signatures.len() > 0 {
        let front = signatures.drop_last();
        let last = signatures.last();
        assert forall|i: int, j: int| 0 <= i < j < front.len() implies (#[trigger] front[i]).name
            != (#[trigger] front[j]).name by {
            assert(front[i] == signatures[i] && front[j] == signatures[j]);
        }
        lemma_sorted_by_name(front);
        let sorted = sorted_by_name(front);
        assert(!knows(sorted, last.name)) by {
            if knows(sorted, last.name) {
                let i = choose|i: int| 0 <= i < sorted.len() && (#[trigger] sorted[i]).name
                    == last.name;
                assert(sorted.contains(sorted[i]));
                assert(front.contains(sorted[i]));
                let k = choose|k: int| 0 <= k < front.len() && front[k] == sorted[i];
                assert(signatures[k].name == signatures[signatures.len() - 1].name);
            }
        }
        lemma_sorted_insert(sorted, last);
        assert forall|other: SignatureView| #[trigger]
            sorted_by_name(signatures).contains(other) <==> signatures.contains(other) by {
            if signatures.contains(other) {
                let k = choose|k: int| 0 <= k < signatures.len() && signatures[k] == other;
                if k < front.len() {
                    assert(front[k] == other);
                }
            }
            if front.contains(other) {
                let k = choose|k: int| 0 <= k < front.len() && front[k] == other;
                assert(signatures[k] == other);
            }
            if other == last {
                assert(signatures[signatures.len() - 1] == other);
            }
        }
    }
}

/// The declarations of a test contract stand in the order of their names, hold no
/// name twice, and hold a name if and only if a step of the contract calls it:
/// however often a function is called, it is declared once.
pub proof fn lemma_one_declaration_per_name(contract: TestContractView)
    ensures
        declarations(contract).len() == sorted_by_name(observed(contract)).len(),
        forall|i: int|
            0 <= i < declarations(contract).len() ==> #[trigger] declarations(contract)[i]
                == declaration_text(sorted_by_name(observed(contract))[i]),
        ordered_by_name(sorted_by_name(observed(contract))),
        distinct_names(sorted_by_name(observed(contract))),
        forall|name: Seq<char>|
            #[trigger] knows(sorted_by_name(observed(contract)), name) <==> calls(
                all_steps(contract),
                name,
            ),
{
    let seen = observed(contract);
    let sorted = sorted_by_name(seen);
    lemma_with_steps_names(Seq::empty(), all_steps(contract));
    lemma_sorted_by_name(seen);
    assert forall|i: int, j: int| 0 <= i < j < sorted.len() implies (#[trigger] sorted[i]).name != (
    #[trigger] sorted[j]).name by {
        lemma_lex_irreflexive(sorted[i].name);
    }
    assert forall|name: Seq<char>| #[trigger]
        knows(sorted, name) <==> calls(all_steps(contract), name) by {
        assert(knows(seen, name) <==> calls(all_steps(contract), name)) by {
            assert(!knows(Seq::<SignatureView>::empty(), name));
        }
        if knows(sorted, name) {
            let i = choose|i: int| 0 <= i < sorted.len() && (#[trigger] sorted[i]).name == name;
            assert(sorted.contains(sorted[i]));
            assert(seen.contains(sorted[i]));
            let k = choose|k: int| 0 <= k < seen.len() && seen[k] == sorted[i];
            assert(seen[k].name == name);
        }
        if knows(seen, name) {
            let k = choose|k: int| 0 <= k < seen.len() && (#[trigger] seen[k]).name == name;
            assert(seen.contains(seen[k]));
            assert(sorted.contains(seen[k]));
            let i = choose|i: int| 0 <= i < sorted.len() && sorted[i] == seen[k];
            assert(sorted[i].name == name);
        }
    }
}

/// The declaration of a function has as many parameters as the first call of its
/// name, in the order of the steps of the contract, has arguments.
pub proof fn lemma_declared_arity_is_first_seen(contract: TestContractView, first: int)
    requires
        0 <= first < all_steps(contract).len(),
        all_steps(contract)[first] is FunctionCall,
        forall|k: int|
            0 <= k < first ==> !is_call_of(
                #[trigger] all_steps(contract)[k],
                all_steps(contract)[first]->function,
            ),
    ensures
        exists|i: int|
            0 <= i < declarations(contract).len() && #[trigger] declarations(contract)[i]
                == declaration_text(
                SignatureView {
                    name: all_steps(contract)[first]->function,
                    arity: all_steps(contract)[first]->FunctionCall_arguments.len(),
                },
            ),
{
    let steps = all_steps(contract);
    let seen = observed(contract);
    let sorted = sorted_by_name(seen);
    let signature = SignatureView {
        name: steps[first]->function,
        arity: steps[first]->FunctionCall_arguments.len(),
    };
    lemma_first_call_fixes_arity(steps, first);
    let at = choose|i: int| 0 <= i < seen.len() && #[trigger] seen[i] == signature;
    assert(seen.contains(signature));
    lemma_with_steps_names(Seq::empty(), steps);
    lemma_sorted_by_name(seen);
    assert(sorted.contains(signature));
    let place = choose|i: int| 0 <= i < sorted.len() && sorted[i] == signature;
    assert(declarations(contract)[place] == declaration_text(signature));
}

} // verus!
