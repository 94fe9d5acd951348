//! What holds of every rewrite.
//!
//! The statements of an emitted body are read as the steps of a call that
//! runs every statement to its end: a hook call runs the hook, the original
//! body runs once and gives a value, the binding keeps that value, and the
//! last statement of a function that returns a value yields what was kept.
//! The laws on the order of steps are laws on the order of statements. In a
//! function that returns unit the original body stands in the emitted body
//! as it is, so a body that leaves early by `return` leaves the emitted
//! function too, and the statements after it do not run.
use crate::arguments::{configured, parsed_path, request, ArgumentModel, HookModel};
use crate::emitter::{
    argument_tokens, binding_tokens, body_plan, body_tokens, call_tokens, forwarding_tokens,
    function_tokens, header_tokens, normalized, optional_call_tokens, plan_tokens,
    statement_tokens, visibility_tokens, EmittedVisibility, Statement,
};
use crate::error::{ErrorKind, Hook};
use crate::function::{DeclaredType, FunctionModel, ParameterModel, Visibility};
use crate::rewritten;
use crate::signature::{
    all_named, analysis, forwarded, named, synthesis, ForwardingModel, NamedModel,
};
use crate::tokens::{acceptable, Delimiter, Spacing, Token};
use vstd::prelude::*;

verus! {

/// One step of a call of the emitted function.
#[derive(Clone, Copy, Debug, PartialEq, Eq, Structural)]
pub enum Event {
    /// A hook runs.
    Hook(Hook),
    /// The original body runs.
    Body,
    /// The function returns the value that was bound.
    Return,
}

/// The step that a statement stands for.
pub open spec fn event(statement: Statement) -> Event {
    match statement {
        Statement::CallBefore => Event::Hook(Hook::Before),
        Statement::RunBody => Event::Body,
        Statement::BindResult => Event::Body,
        Statement::CallAfter => Event::Hook(Hook::After),
        Statement::YieldResult => Event::Return,
    }
}

/// The steps of a call, in the order of the statements.
pub open spec fn events(plan: Seq<Statement>) -> Seq<Event> {
    plan.map_values(|statement: Statement| event(statement))
}

/// The value that `result` holds after the first `count` statements, where
/// the original body gives `value`: `None` until the body's value is bound.
pub open spec fn bound<V>(plan: Seq<Statement>, count: int, value: V) -> Option<V>
    decreases count,
{
    if count <= 0 || count > plan.len() {
        None
    } else if plan[count - 1] == Statement::BindResult {
        Some(value)
    } else {
        bound(plan, count - 1, value)
    }
}

/// The value that a call returns, where the original body gives `value`:
/// what `result` holds when the last statement yields it, `None` where the
/// body ends without yielding.
pub open spec fn returned<V>(plan: Seq<Statement>, value: V) -> Option<V> {
    if plan.len() > 0 && plan.last() == Statement::YieldResult {
        bound(plan, plan.len() - 1, value)
    } else {
        None
    }
}

/// The layout of the emitted body: the call of `before` if it is configured,
/// the original body, the call of `after` if it is configured; where the
/// function returns a value, the body is bound to `result`, and `result`
/// stands last.
pub proof fn lemma_body_layout(
    function: FunctionModel,
    hooks: HookModel,
    forwarding: Seq<ForwardingModel>,
)
    ensures
        function.output is None ==> body_tokens(function, hooks, forwarding)
            == optional_call_tokens(hooks.before, forwarding) + function.body
            + optional_call_tokens(hooks.after, forwarding),
        function.output is Some ==> body_tokens(function, hooks, forwarding)
            == optional_call_tokens(hooks.before, forwarding) + binding_tokens(function.body)
            + optional_call_tokens(hooks.after, forwarding) + seq![Token::Ident("result"@)],
{
    let opening = if hooks.before is Some {
        seq![Statement::CallBefore]
    } else {
        Seq::<Statement>::empty()
    };
    let closing = if hooks.after is Some {
        seq![Statement::CallAfter]
    } else {
        Seq::<Statement>::empty()
    };
    let body = function.body;
    lemma_one_statement(Statement::CallBefore, hooks, body, forwarding);
    lemma_one_statement(Statement::CallAfter, hooks, body, forwarding);
    lemma_one_statement(Statement::RunBody, hooks, body, forwarding);
    lemma_one_statement(Statement::BindResult, hooks, body, forwarding);
    lemma_one_statement(Statement::YieldResult, hooks, body, forwarding);
    if function.output is None {
        let running = seq![Statement::RunBody];
        lemma_plans_joined(opening, running, hooks, body, forwarding);
        lemma_plans_joined(opening + running, closing, hooks, body, forwarding);
    } else {
        let binding = seq![Statement::BindResult];
        let yielding = seq![Statement::YieldResult];
        lemma_plans_joined(opening, binding, hooks, body, forwarding);
        lemma_plans_joined(opening + binding, closing, hooks, body, forwarding);
        lemma_plans_joined(opening + binding + closing, yielding, hooks, body, forwarding);
    }
}

/// The tokens of a plan of one statement are the tokens of that statement.
proof fn lemma_one_statement(
    statement: Statement,
    hooks: HookModel,
    body: Seq<Token>,
    forwarding: Seq<ForwardingModel>,
)
    ensures
        plan_tokens(seq![statement], hooks, body, forwarding) == statement_tokens(
            statement,
            hooks,
            body,
            forwarding,
        ),
        plan_tokens(Seq::<Statement>::empty(), hooks, body, forwarding) == Seq::<Token>::empty(),
{
    let plan = seq![statement];
    assert(plan.drop_last() =~= Seq::<Statement>::empty());
    assert(plan.last() == statement);
    assert(plan_tokens(Seq::<Statement>::empty(), hooks, body, forwarding) =~= Seq::<
        Token,
    >::empty());
    assert(plan_tokens(plan, hooks, body, forwarding) =~= statement_tokens(
        statement,
        hooks,
        body,
        forwarding,
    ));
}

/// The tokens of two plans, one after the other, are the tokens of the first
/// followed by the tokens of the second.
proof fn lemma_plans_joined(
    first: Seq<Statement>,
    second: Seq<Statement>,
    hooks: HookModel,
    body: Seq<Token>,
    forwarding: Seq<ForwardingModel>,
)
    ensures
        plan_tokens(first + second, hooks, body, forwarding) == plan_tokens(
            first,
            hooks,
            body,
            forwarding,
        ) + plan_tokens(second, hooks, body, forwarding),
    decreases second.len(),
{
    if second.len() == 0 {
        assert(first + second =~= first);
        assert(plan_tokens(first, hooks, body, forwarding) + Seq::<Token>::empty()
            =~= plan_tokens(first, hooks, body, forwarding));
    } else {
        assert((first + second).drop_last() =~= first + second.drop_last());
        lemma_plans_joined(first, second.drop_last(), hooks, body, forwarding);
        assert(plan_tokens(first + second, hooks, body, forwarding) =~= plan_tokens(
            first,
            hooks,
            body,
            forwarding,
        ) + plan_tokens(second, hooks, body, forwarding));
    }
}

/// Without hooks the emitted function is the annotated one, but for its
/// visibility: its body holds the original body and nothing else, and a call
/// runs the original body and returns its value.
///
/// The parameters are checked all the same, so a function with a parameter
/// that has no identifier is refused here too.
pub proof fn lemma_no_hooks_identity(
    arguments: Seq<ArgumentModel>,
    lexed: Seq<Option<Seq<Token>>>,
    function: FunctionModel,
)
    requires
        forall|position: int|
            0 <= position < arguments.len() ==> request(#[trigger] arguments[position]) is None,
        all_named(function.parameters),
    ensures
        configured(arguments, lexed) == Ok::<HookModel, ErrorKind>(HookModel::none()),
        function.output is None ==> rewritten(arguments, lexed, function) == Ok::<
            Seq<Token>,
            ErrorKind,
        >(
            header_tokens(function) + seq![Token::Group(Delimiter::Brace, function.body)],
        ),
        function.output is Some ==> rewritten(arguments, lexed, function) == Ok::<
            Seq<Token>,
            ErrorKind,
        >(
            header_tokens(function) + seq![
                Token::Group(
                    Delimiter::Brace,
                    binding_tokens(function.body) + seq![Token::Ident("result"@)],
                ),
            ],
        ),
        events(body_plan(false, false, false)) == seq![Event::Body],
        events(body_plan(false, false, true)) == seq![Event::Body, Event::Return],
        forall|value: int| returned(body_plan(false, false, true), value) == Some(value),
{
    lemma_skipped_arguments(arguments, lexed);
    let forwarding = synthesis(analysis(function.parameters)->Ok_0);
    lemma_body_layout(function, HookModel::none(), forwarding);
    let body = body_tokens(function, HookModel::none(), forwarding);
    if function.output is None {
        assert(body =~= function.body);
    } else {
        assert(body =~= binding_tokens(function.body) + seq![Token::Ident("result"@)]);
    }
    assert(events(body_plan(false, false, false)) =~= seq![Event::Body]);
    assert(events(body_plan(false, false, true)) =~= seq![Event::Body, Event::Return]);
    assert forall|value: int| returned(body_plan(false, false, true), value) == Some(value) by {
        lemma_value_preserved(false, false, value);
    }
}

/// Arguments that name no hook configure none.
proof fn lemma_skipped_arguments(arguments: Seq<ArgumentModel>, lexed: Seq<Option<Seq<Token>>>)
    requires
        forall|position: int|
            0 <= position < arguments.len() ==> request(#[trigger] arguments[position]) is None,
    ensures
        configured(arguments, lexed) == Ok::<HookModel, ErrorKind>(HookModel::none()),
    decreases arguments.len(),
{
    if arguments.len() > 0 {
        let earlier = arguments.drop_last();
        assert forall|position: int| 0 <= position < earlier.len() implies request(
            #[trigger] earlier[position],
        ) is None by {
            assert(earlier[position] == arguments[position]);
        }
        lemma_skipped_arguments(earlier, lexed.drop_last());
        assert(request(arguments[arguments.len() - 1]) is None);
    }
}

/// Whether what reading a text gave spells no path: the text was no sequence
/// of tokens, or the tokens may not be handed to the parser, or the parser
/// finds no path in them.
pub open spec fn spells_no_path(lexed: Option<Seq<Token>>) -> bool {
    match lexed {
        None => true,
        Some(reference) => !acceptable(reference) || parsed_path(reference) is None,
    }
}

/// A hook whose text spells no path stops the rewrite, whatever the other
/// arguments and the function hold: nothing is emitted.
pub proof fn lemma_malformed_reference_fails(
    arguments: Seq<ArgumentModel>,
    lexed: Seq<Option<Seq<Token>>>,
    function: FunctionModel,
    position: int,
)
    requires
        lexed.len() == arguments.len(),
        0 <= position < arguments.len(),
        request(arguments[position]) is Some,
        spells_no_path(lexed[position]),
    ensures
        configured(arguments, lexed) is Err,
        rewritten(arguments, lexed, function) is Err,
    decreases arguments.len(),
{
    if position < arguments.len() - 1 {
        lemma_malformed_reference_fails(
            arguments.drop_last(),
            lexed.drop_last(),
            function,
            position,
        );
    }
}

/// The statements stand in this order: the call of the `before` hook, where
/// configured, first and once, then the original body once, then the call of
/// the `after` hook, where configured, once; for a hook that is not
/// configured there is no call. So a call whose body runs to its end runs
/// them in this order.
pub proof fn lemma_call_order(before: bool, after: bool, returns_value: bool)
    ensures
        ({
            let run = events(body_plan(before, after, returns_value));
            let opening = if before {
                seq![Event::Hook(Hook::Before)]
            } else {
                Seq::<Event>::empty()
            };
            let closing = if after {
                seq![Event::Hook(Hook::After)]
            } else {
                Seq::<Event>::empty()
            };
            let ending = if returns_value {
                seq![Event::Return]
            } else {
                Seq::<Event>::empty()
            };
            &&& run == opening + seq![Event::Body] + closing + ending
            &&& forall|i: int, j: int|
                0 <= i < run.len() && 0 <= j < run.len() && run[i] == Event::Hook(Hook::Before)
                    && run[j] == Event::Body ==> i < j
            &&& forall|i: int, j: int|
                0 <= i < run.len() && 0 <= j < run.len() && run[i] == Event::Body && run[j]
                    == Event::Hook(Hook::After) ==> i < j
        }),
{
    let run = events(body_plan(before, after, returns_value));
    let opening = if before {
        seq![Event::Hook(Hook::Before)]
    } else {
        Seq::<Event>::empty()
    };
    let closing = if after {
        seq![Event::Hook(Hook::After)]
    } else {
        Seq::<Event>::empty()
    };
    let ending = if returns_value {
        seq![Event::Return]
    } else {
        Seq::<Event>::empty()
    };
    assert(run =~= opening + seq![Event::Body] + closing + ending);
}

/// A function that returns a value returns the value of its original body,
/// whichever hooks are configured; a function that returns unit yields
/// nothing.
pub proof fn lemma_value_preserved<V>(before: bool, after: bool, value: V)
    ensures
        returned(body_plan(before, after, true), value) == Some(value),
        returned(body_plan(before, after, false), value) == None::<V>,
{
    let plan = body_plan(before, after, true);
    reveal_with_fuel(bound, 4);
    if before {
        assert(plan[1] == Statement::BindResult);
    } else {
        assert(plan[0] == Statement::BindResult);
    }
    let unit = body_plan(before, after, false);
    assert(unit.last() != Statement::YieldResult);
}

/// Each hook is handed every parameter, in declaration order: the expression
/// at a position names the identifier of the parameter at that position, and
/// the calls of both hooks hold the same arguments.
pub proof fn lemma_arguments_forwarded(
    parameters: Seq<ParameterModel>,
    before: Seq<Token>,
    after: Seq<Token>,
)
    requires
        all_named(parameters),
    ensures
        analysis(parameters) is Ok,
        ({
            let forwarding = synthesis(analysis(parameters)->Ok_0);
            &&& forwarding.len() == parameters.len()
            &&& forall|position: int|
                0 <= position < parameters.len() ==> (#[trigger] forwarding[position]).ident()
                    == named(parameters[position]).ident
            &&& call_tokens(before, forwarding)[before.len() as int] == Token::Group(
                Delimiter::Parenthesis,
                argument_tokens(forwarding),
            )
            &&& call_tokens(after, forwarding)[after.len() as int] == Token::Group(
                Delimiter::Parenthesis,
                argument_tokens(forwarding),
            )
        }),
{
}

/// A parameter declared as a reference is forwarded as it is; any other
/// parameter is forwarded behind one `&`.
pub proof fn lemma_reference_forwarding(parameter: NamedModel)
    ensures
        parameter.declared == DeclaredType::Reference ==> forwarding_tokens(forwarded(parameter))
            == parameter.ident,
        parameter.declared == DeclaredType::Other ==> forwarding_tokens(forwarded(parameter))
            == seq![Token::Punct('&', Spacing::Alone)] + parameter.ident,
        forwarded(parameter).ident() == parameter.ident,
{
}

/// A public function stays public; a function of any other visibility is
/// emitted as `pub(crate)`. The visibility is the first thing emitted.
pub proof fn lemma_visibility_normalized(
    function: FunctionModel,
    hooks: HookModel,
    forwarding: Seq<ForwardingModel>,
)
    ensures
        function.visibility == Visibility::Public <==> normalized(function.visibility)
            == EmittedVisibility::Public,
        function.visibility != Visibility::Public <==> normalized(function.visibility)
            == EmittedVisibility::CrateWide,
        ({
            let emitted = function_tokens(function, hooks, forwarding);
            let visibility = visibility_tokens(normalized(function.visibility));
            &&& visibility.len() < emitted.len()
            &&& emitted.take(visibility.len() as int) == visibility
            &&& emitted[visibility.len() as int] == Token::Ident("fn"@)
        }),
{
    let emitted = function_tokens(function, hooks, forwarding);
    let visibility = visibility_tokens(normalized(function.visibility));
    assert(emitted.take(visibility.len() as int) =~= visibility);
}

} // verus!
