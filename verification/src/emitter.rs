//! The emitted function.
//!
//! The new definition keeps the name, generics, parameter list and return type
//! of the annotated function. Its body is planned as a short list of statements: the
//! call of the `before` hook if there is one, the original body, the call of
//! the `after` hook if there is one. Where the function returns a value, the
//! body's value is bound to `result` before the `after` hook runs and yielded
//! last. `pub` stays `pub`; every other visibility becomes `pub(crate)`.
use crate::arguments::{HookConfiguration, HookModel};
use crate::function::{FunctionDefinition, FunctionModel, Visibility};
use crate::signature::{forwarding_models, ForwardingExpression, ForwardingModel};
use crate::tokens::{
    append_stream, copy_stream, empty_stream, push_group, push_punct, push_word, stream_tokens,
    Delimiter, Spacing, Token,
};
use proc_macro2::TokenStream;
use vstd::prelude::*;

verus! {

/// The visibility of an emitted function.
#[derive(Clone, Copy, Debug, PartialEq, Eq, Structural)]
pub enum EmittedVisibility {
    /// `pub`
    Public,
    /// `pub(crate)`
    CrateWide,
}

/// One statement of an emitted body.
#[derive(Clone, Copy, Debug, PartialEq, Eq, Structural)]
pub enum Statement {
    /// `before(arguments);`
    CallBefore,
    /// The original body, run for its effect.
    RunBody,
    /// `let result = (|| original body)();`
    BindResult,
    /// `after(arguments);`
    CallAfter,
    /// `result`
    YieldResult,
}

/// The visibility that the emitted function gets.
pub open spec fn normalized(visibility: Visibility) -> EmittedVisibility {
    if visibility == Visibility::Public {
        EmittedVisibility::Public
    } else {
        EmittedVisibility::CrateWide
    }
}

/// The statements of an emitted body, in order.
pub open spec fn body_plan(before: bool, after: bool, returns_value: bool) -> Seq<Statement> {
    let opening = if before {
        seq![Statement::CallBefore]
    } else {
        Seq::<Statement>::empty()
    };
    let closing = if after {
        seq![Statement::CallAfter]
    } else {
        Seq::<Statement>::empty()
    };
    if returns_value {
        opening + seq![Statement::BindResult] + closing + seq![Statement::YieldResult]
    } else {
        opening + seq![Statement::RunBody] + closing
    }
}

/// The tokens of a visibility.
pub open spec fn visibility_tokens(visibility: EmittedVisibility) -> Seq<Token> {
    match visibility {
        EmittedVisibility::Public => seq![Token::Ident("pub"@)],
        EmittedVisibility::CrateWide => seq![
            Token::Ident("pub"@),
            Token::Group(Delimiter::Parenthesis, seq![Token::Ident("crate"@)]),
        ],
    }
}

/// The tokens of a forwarding expression: `x` or `&x`.
pub open spec fn forwarding_tokens(expression: ForwardingModel) -> Seq<Token> {
    match expression {
        ForwardingModel::Direct(ident) => ident,
        ForwardingModel::Borrowed(ident) => seq![Token::Punct('&', Spacing::Alone)] + ident,
    }
}

/// The tokens of an argument list: the forwarding expressions with a comma
/// between each two.
pub open spec fn argument_tokens(forwarding: Seq<ForwardingModel>) -> Seq<Token>
    decreases forwarding.len(),
{
    if forwarding.len() == 0 {
        Seq::<Token>::empty()
    } else if forwarding.len() == 1 {
        forwarding_tokens(forwarding[0])
    } else {
        argument_tokens(forwarding.drop_last()) + seq![Token::Punct(',', Spacing::Alone)]
            + forwarding_tokens(forwarding.last())
    }
}

/// The tokens of a hook call: `path(arguments);`.
pub open spec fn call_tokens(path: Seq<Token>, forwarding: Seq<ForwardingModel>) -> Seq<Token> {
    path + seq![
        Token::Group(Delimiter::Parenthesis, argument_tokens(forwarding)),
        Token::Punct(';', Spacing::Alone),
    ]
}

/// The tokens of the call of a hook that may be absent.
pub open spec fn optional_call_tokens(
    path: Option<Seq<Token>>,
    forwarding: Seq<ForwardingModel>,
) -> Seq<Token> {
    match path {
        Some(path) => call_tokens(path, forwarding),
        None => Seq::<Token>::empty(),
    }
}

/// The tokens of `let result = (|| { body })();`, where `body` stands for the
/// original body with its own braces.
pub open spec fn binding_tokens(body: Seq<Token>) -> Seq<Token> {
    seq![
        Token::Ident("let"@),
        Token::Ident("result"@),
        Token::Punct('=', Spacing::Alone),
        Token::Group(
            Delimiter::Parenthesis,
            seq![
                Token::Punct('|', Spacing::Joint),
                Token::Punct('|', Spacing::Alone),
                Token::Group(Delimiter::Brace, body),
            ],
        ),
        Token::Group(Delimiter::Parenthesis, Seq::<Token>::empty()),
        Token::Punct(';', Spacing::Alone),
    ]
}

/// The tokens of one statement.
pub open spec fn statement_tokens(
    statement: Statement,
    hooks: HookModel,
    body: Seq<Token>,
    forwarding: Seq<ForwardingModel>,
) -> Seq<Token> {
    match statement {
        Statement::CallBefore => optional_call_tokens(hooks.before, forwarding),
        Statement::RunBody => body,
        Statement::BindResult => binding_tokens(body),
        Statement::CallAfter => optional_call_tokens(hooks.after, forwarding),
        Statement::YieldResult => seq![Token::Ident("result"@)],
    }
}

/// The tokens of a list of statements.
pub open spec fn plan_tokens(
    plan: Seq<Statement>,
    hooks: HookModel,
    body: Seq<Token>,
    forwarding: Seq<ForwardingModel>,
) -> Seq<Token>
    decreases plan.len(),
{
    if plan.len() == 0 {
        Seq::<Token>::empty()
    } else {
        plan_tokens(plan.drop_last(), hooks, body, forwarding) + statement_tokens(
            plan.last(),
            hooks,
            body,
            forwarding,
        )
    }
}

/// The tokens between the braces of the emitted function.
pub open spec fn body_tokens(
    function: FunctionModel,
    hooks: HookModel,
    forwarding: Seq<ForwardingModel>,
) -> Seq<Token> {
    plan_tokens(
        body_plan(hooks.before is Some, hooks.after is Some, function.output is Some),
        hooks,
        function.body,
        forwarding,
    )
}

/// The tokens of a return type: `-> T`, or nothing for unit.
pub open spec fn output_tokens(output: Option<Seq<Token>>) -> Seq<Token> {
    match output {
        Some(declared) => seq![
            Token::Punct('-', Spacing::Joint),
            Token::Punct('>', Spacing::Alone),
        ] + declared,
        None => Seq::<Token>::empty(),
    }
}

/// The tokens before the body of the emitted function: visibility, `fn`,
/// name, generics, the parameter list in parentheses and the return type.
pub open spec fn header_tokens(function: FunctionModel) -> Seq<Token> {
    visibility_tokens(normalized(function.visibility)) + seq![Token::Ident("fn"@)]
        + function.name + function.generics + seq![
        Token::Group(Delimiter::Parenthesis, function.inputs),
    ] + output_tokens(function.output)
}

/// The tokens of the emitted function.
pub open spec fn function_tokens(
    function: FunctionModel,
    hooks: HookModel,
    forwarding: Seq<ForwardingModel>,
) -> Seq<Token> {
    header_tokens(function) + seq![
        Token::Group(Delimiter::Brace, body_tokens(function, hooks, forwarding)),
    ]
}

/// Keeps `pub` and turns every other visibility into `pub(crate)`.
pub fn normalize_visibility(visibility: Visibility) -> (emitted: EmittedVisibility)
    ensures
        emitted == normalized(visibility),
        emitted == EmittedVisibility::Public <==> visibility == Visibility::Public,
{
    match visibility {
        Visibility::Public => EmittedVisibility::Public,
        _ => EmittedVisibility::CrateWide,
    }
}

/// Plans the body: which statements it holds, in which order.
pub fn plan_body(before: bool, after: bool, returns_value: bool) -> (plan: Vec<Statement>)
    ensures
        plan@ == body_plan(before, after, returns_value),
{
    let mut plan: Vec<Statement> = Vec::new();
    if before {
        plan.push(Statement::CallBefore);
    }
    if returns_value {
        plan.push(Statement::BindResult);
    } else {
        plan.push(Statement::RunBody);
    }
    if after {
        plan.push(Statement::CallAfter);
    }
    if returns_value {
        plan.push(Statement::YieldResult);
    }
    assert(plan@ =~= body_plan(before, after, returns_value));
    plan
}

fn emit_visibility(out: &mut TokenStream, visibility: EmittedVisibility)
    ensures
        stream_tokens(*final(out)) == stream_tokens(*old(out)) + visibility_tokens(visibility),
{
    proof {
        reveal_strlit("pub");
        reveal_strlit("crate");
    }
    push_word(out, "pub");
    match visibility {
        EmittedVisibility::Public => {},
        EmittedVisibility::CrateWide => {
            let mut scope = empty_stream();
            push_word(&mut scope, "crate");
            push_group(out, Delimiter::Parenthesis, scope);
        },
    }
    assert(stream_tokens(*out) =~= stream_tokens(*old(out)) + visibility_tokens(visibility));
}

fn emit_forwarding(out: &mut TokenStream, expression: &ForwardingExpression)
    ensures
        stream_tokens(*final(out)) == stream_tokens(*old(out)) + forwarding_tokens(expression@),
{
    match expression {
        ForwardingExpression::Direct(ident) => {
            append_stream(out, ident);
        },
        ForwardingExpression::Borrowed(ident) => {
            push_punct(out, '&', Spacing::Alone);
            append_stream(out, ident);
        },
    }
    assert(stream_tokens(*out) =~= stream_tokens(*old(out)) + forwarding_tokens(expression@));
}

/// The argument list of a hook call: the forwarding expressions in order,
/// separated by commas.
pub fn emit_arguments(forwarding: &Vec<ForwardingExpression>) -> (arguments: TokenStream)
    ensures
        stream_tokens(arguments) == argument_tokens(forwarding_models(forwarding@)),
{
    let ghost models = forwarding_models(forwarding@);
    let mut arguments = empty_stream();
    let mut position: usize = 0;
    while position < forwarding.len()
        invariant
            position <= forwarding@.len(),
            models == forwarding_models(forwarding@),
            stream_tokens(arguments) == argument_tokens(models.take(position as int)),
        decreases forwarding@.len() - position,
    {
        if position > 0 {
            push_punct(&mut arguments, ',', Spacing::Alone);
        }
        emit_forwarding(&mut arguments, &forwarding[position]);
        proof {
            let read = models.take(position + 1);
            assert(read.drop_last() =~= models.take(position as int));
            assert(read.last() == forwarding@[position as int]@);
            if position == 0 {
                assert(stream_tokens(arguments) =~= forwarding_tokens(read[0]));
            }
        }
        position += 1;
    }
    assert(models.take(position as int) =~= models);
    arguments
}

/// Adds the call of a hook: its path, the arguments in parentheses, a
/// semicolon.
pub fn emit_call(
    out: &mut TokenStream,
    path: &TokenStream,
    forwarding: &Vec<ForwardingExpression>,
)
    ensures
        stream_tokens(*final(out)) == stream_tokens(*old(out)) + call_tokens(
            stream_tokens(*path),
            forwarding_models(forwarding@),
        ),
{
    append_stream(out, path);
    push_group(out, Delimiter::Parenthesis, emit_arguments(forwarding));
    push_punct(out, ';', Spacing::Alone);
    assert(stream_tokens(*out) =~= stream_tokens(*old(out)) + call_tokens(
        stream_tokens(*path),
        forwarding_models(forwarding@),
    ));
}

fn emit_optional_call(
    out: &mut TokenStream,
    path: &Option<TokenStream>,
    forwarding: &Vec<ForwardingExpression>,
)
    ensures
        stream_tokens(*final(out)) == stream_tokens(*old(out)) + optional_call_tokens(
            crate::function::optional_tokens(*path),
            forwarding_models(forwarding@),
        ),
{
    match path {
        Some(path) => {
            emit_call(out, path, forwarding);
        },
        None => {
            assert(stream_tokens(*out) =~= stream_tokens(*old(out)) + Seq::<Token>::empty());
        },
    }
}

fn emit_binding(out: &mut TokenStream, body: &TokenStream)
    ensures
        stream_tokens(*final(out)) == stream_tokens(*old(out)) + binding_tokens(
            stream_tokens(*body),
        ),
{
    proof {
        reveal_strlit("let");
        reveal_strlit("result");
    }
    let block = copy_stream(body);
    let mut closure = empty_stream();
    push_punct(&mut closure, '|', Spacing::Joint);
    push_punct(&mut closure, '|', Spacing::Alone);
    push_group(&mut closure, Delimiter::Brace, block);
    assert(stream_tokens(closure) =~= seq![
        Token::Punct('|', Spacing::Joint),
        Token::Punct('|', Spacing::Alone),
        Token::Group(Delimiter::Brace, stream_tokens(*body)),
    ]);
    push_word(out, "let");
    push_word(out, "result");
    push_punct(out, '=', Spacing::Alone);
    push_group(out, Delimiter::Parenthesis, closure);
    push_group(out, Delimiter::Parenthesis, empty_stream());
    push_punct(out, ';', Spacing::Alone);
    assert(stream_tokens(*out) =~= stream_tokens(*old(out)) + binding_tokens(
        stream_tokens(*body),
    ));
}

/// Adds one statement of the body.
pub fn emit_statement(
    out: &mut TokenStream,
    statement: Statement,
    hooks: &HookConfiguration,
    body: &TokenStream,
    forwarding: &Vec<ForwardingExpression>,
)
    ensures
        stream_tokens(*final(out)) == stream_tokens(*old(out)) + statement_tokens(
            statement,
            hooks@,
            stream_tokens(*body),
            forwarding_models(forwarding@),
        ),
{
    match statement {
        Statement::CallBefore => emit_optional_call(out, &hooks.before, forwarding),
        Statement::RunBody => append_stream(out, body),
        Statement::BindResult => emit_binding(out, body),
        Statement::CallAfter => emit_optional_call(out, &hooks.after, forwarding),
        Statement::YieldResult => {
            proof {
                reveal_strlit("result");
            }
            push_word(out, "result");
            assert(stream_tokens(*out) =~= stream_tokens(*old(out)) + seq![
                Token::Ident("result"@),
            ]);
        },
    }
}

/// The body of the emitted function, without its braces.
pub fn emit_body(
    function: &FunctionDefinition,
    hooks: &HookConfiguration,
    forwarding: &Vec<ForwardingExpression>,
) -> (body: TokenStream)
    ensures
        stream_tokens(body) == body_tokens(function@, hooks@, forwarding_models(forwarding@)),
{
    let plan = plan_body(hooks.before.is_some(), hooks.after.is_some(), function.output.is_some());
    let mut body = empty_stream();
    let mut position: usize = 0;
    while position < plan.len()
        invariant
            position <= plan@.len(),
            stream_tokens(body) == plan_tokens(
                plan@.take(position as int),
                hooks@,
                stream_tokens(function.body),
                forwarding_models(forwarding@),
            ),
        decreases plan@.len() - position,
    {
        emit_statement(&mut body, plan[position], hooks, &function.body, forwarding);
        assert(plan@.take(position + 1).drop_last() =~= plan@.take(position as int));
        position += 1;
    }
    assert(plan@.take(position as int) =~= plan@);
    body
}

fn emit_output(out: &mut TokenStream, output: &Option<TokenStream>)
    ensures
        stream_tokens(*final(out)) == stream_tokens(*old(out)) + output_tokens(
            crate::function::optional_tokens(*output),
        ),
{
    match output {
        Some(declared) => {
            push_punct(out, '-', Spacing::Joint);
            push_punct(out, '>', Spacing::Alone);
            append_stream(out, declared);
        },
        None => {},
    }
    assert(stream_tokens(*out) =~= stream_tokens(*old(out)) + output_tokens(
        crate::function::optional_tokens(*output),
    ));
}

/// The emitted function: the annotated function's name, generics, parameter
/// list and return type behind the normalized visibility, around the planned body.
pub fn emit_function(
    function: &FunctionDefinition,
    hooks: &HookConfiguration,
    forwarding: &Vec<ForwardingExpression>,
) -> (emitted: TokenStream)
    ensures
        stream_tokens(emitted) == function_tokens(
            function@,
            hooks@,
            forwarding_models(forwarding@),
        ),
{
    proof {
        reveal_strlit("fn");
    }
    let inputs = copy_stream(&function.inputs);
    let mut emitted = empty_stream();
    emit_visibility(&mut emitted, normalize_visibility(function.visibility));
    push_word(&mut emitted, "fn");
    append_stream(&mut emitted, &function.name);
    append_stream(&mut emitted, &function.generics);
    push_group(&mut emitted, Delimiter::Parenthesis, inputs);
    emit_output(&mut emitted, &function.output);
    assert(stream_tokens(emitted) =~= header_tokens(function@));
    push_group(&mut emitted, Delimiter::Brace, emit_body(function, hooks, forwarding));
    emitted
}

} // verus!
