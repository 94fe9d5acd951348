//! Before/after hooks for functions, as a rewrite of the function's definition.
//!
//! Given the argument list of an attribute (`before = "path"`, `after = "path"`)
//! and the tokens of a function definition, [`Aspect`] gives the tokens of a
//! function with the same name, generics, parameters and return type whose body
//! calls the `before` hook, runs the original body, and calls the `after` hook.
//! Both hooks receive every parameter by reference, in declaration order.
#![allow(non_snake_case)]

pub mod arguments;
pub mod emitter;
pub mod error;
pub mod function;
pub mod laws;
pub mod signature;
pub mod tokens;

use crate::arguments::{
    argument_models, configured, lexing, listing, parse_hooks, read_arguments, ArgumentModel,
    AttributeArgument,
};
use crate::emitter::{emit_function, function_tokens};
use crate::error::{AspectError, ErrorKind};
use crate::function::{read_function, reading, FunctionDefinition, FunctionModel};
use crate::signature::{analysis, analyze_signature, synthesis, synthesize_call_site};
use crate::tokens::{stream_tokens, Token};
use proc_macro2::TokenStream;
use vstd::prelude::*;

verus! {

/// What the rewrite makes of an argument list and a function definition: the
/// tokens of the emitted function, or the first failure. The parameters are
/// checked before the hooks are read. `lexed` holds for each argument what
/// reading its text as tokens gave.
pub open spec fn rewritten(
    arguments: Seq<ArgumentModel>,
    lexed: Seq<Option<Seq<Token>>>,
    function: FunctionModel,
) -> Result<Seq<Token>, ErrorKind> {
    match analysis(function.parameters) {
        Err(kind) => Err(kind),
        Ok(named) => match configured(arguments, lexed) {
            Err(kind) => Err(kind),
            Ok(hooks) => Ok(function_tokens(function, hooks, synthesis(named))),
        },
    }
}

/// What the rewrite makes of what was read of the attribute's arguments and
/// of the annotated item. The arguments are read first.
pub open spec fn expansion(
    arguments: Result<Seq<ArgumentModel>, ErrorKind>,
    lexed: Seq<Option<Seq<Token>>>,
    function: Result<FunctionModel, ErrorKind>,
) -> Result<Seq<Token>, ErrorKind> {
    match arguments {
        Err(kind) => Err(kind),
        Ok(arguments) => match function {
            Err(kind) => Err(kind),
            Ok(function) => rewritten(arguments, lexed, function),
        },
    }
}

/// What a rewrite gave, as a model.
pub open spec fn emitted_outcome(output: Result<TokenStream, AspectError>) -> Result<
    Seq<Token>,
    ErrorKind,
> {
    match output {
        Ok(emitted) => Ok(stream_tokens(emitted)),
        Err(error) => Err(error@),
    }
}

/// Whether the rewrite gets as far as reading the hooks: the arguments and
/// the function were read and every parameter can be forwarded.
pub open spec fn reaches_hooks(
    arguments: Result<Seq<ArgumentModel>, ErrorKind>,
    function: Result<FunctionModel, ErrorKind>,
) -> bool {
    &&& arguments is Ok
    &&& function matches Ok(found) && analysis(found.parameters) is Ok
}

/// Rewrites a function definition for the hooks that the arguments name.
///
/// Fails where a parameter is a receiver or is bound by a pattern, and
/// otherwise where the text given for a hook gives no path. Each hook is
/// read from the text of its own pair. Nothing is emitted on failure.
pub fn expand(arguments: &Vec<AttributeArgument>, function: &FunctionDefinition) -> (output:
    Result<TokenStream, AspectError>)
    ensures
        exists|lexed: Seq<Option<Seq<Token>>>, count: int|
            (analysis(function@.parameters) is Ok ==> #[trigger] lexing(
                argument_models(arguments@),
                lexed,
                count,
            )) && rewritten(argument_models(arguments@), lexed, function@) == emitted_outcome(
                output,
            ),
{
    let ghost models = argument_models(arguments@);
    let named = match analyze_signature(&function.parameters) {
        Ok(named) => named,
        Err(error) => {
            proof {
                let lexed = Seq::<Option<Seq<Token>>>::empty();
                let reached = lexing(models, lexed, 0);
                assert(reached || !reached);
                assert((analysis(function@.parameters) is Ok ==> lexing(models, lexed, 0))
                    && rewritten(models, lexed, function@) == Err::<Seq<Token>, ErrorKind>(
                    error@,
                ));
            }
            return Err(error);
        },
    };
    let forwarding = synthesize_call_site(&named);
    let outcome = parse_hooks(arguments);
    let ghost (lexed, count) = choose|lexed: Seq<Option<Seq<Token>>>, count: int|
        lexing(models, lexed, count) && configured(models, lexed)
            == crate::arguments::hooks_outcome(outcome);
    let hooks = match outcome {
        Ok(hooks) => hooks,
        Err(error) => {
            proof {
                assert(lexing(models, lexed, count) && rewritten(models, lexed, function@) == Err::<
                    Seq<Token>,
                    ErrorKind,
                >(error@));
            }
            return Err(error);
        },
    };
    let emitted = emit_function(function, &hooks, &forwarding);
    proof {
        assert(lexing(models, lexed, count) && rewritten(models, lexed, function@) == Ok::<
            Seq<Token>,
            ErrorKind,
        >(stream_tokens(emitted)));
    }
    Ok(emitted)
}

/// The rewrite behind the attribute: from the attribute's arguments and the
/// annotated function to the function that takes its place.
///
/// The emitted function has the name, generics, parameter list and return
/// type of the annotated one. Its body calls the `before` hook if one is named,
/// runs the original body, calls the `after` hook if one is named, and yields
/// the body's value where the function returns one.
///
/// The arguments, the function without its body and the text of each hook are
/// read by a parser, which is handed only what is acceptable to it; what is
/// not is refused. The failures come in this order: the arguments, the
/// function, its parameters, the hooks. The text of a hook is read as tokens
/// by the lexer of the process, so the contract speaks of what the reading of
/// each pair's own text gave.
pub fn Aspect(args: TokenStream, input: TokenStream) -> (output: Result<TokenStream, AspectError>)
    ensures
        exists|lexed: Seq<Option<Seq<Token>>>, count: int|
            (reaches_hooks(listing(stream_tokens(args)), reading(stream_tokens(input)))
                ==> #[trigger] lexing(listing(stream_tokens(args))->Ok_0, lexed, count))
                && expansion(
                listing(stream_tokens(args)),
                lexed,
                reading(stream_tokens(input)),
            ) == emitted_outcome(output),
{
    let ghost listed = listing(stream_tokens(args));
    let ghost read = reading(stream_tokens(input));
    let ghost none = Seq::<Option<Seq<Token>>>::empty();
    let arguments = match read_arguments(args) {
        Ok(arguments) => arguments,
        Err(error) => {
            proof {
                let reached = lexing(listed->Ok_0, none, 0);
                assert(reached || !reached);
                assert(!reaches_hooks(listed, read));
                assert((reaches_hooks(listed, read) ==> lexing(listed->Ok_0, none, 0))
                    && expansion(listed, none, read) == Err::<Seq<Token>, ErrorKind>(error@));
            }
            return Err(error);
        },
    };
    let function = match read_function(input) {
        Ok(function) => function,
        Err(error) => {
            proof {
                let reached = lexing(listed->Ok_0, none, 0);
                assert(reached || !reached);
                assert(!reaches_hooks(listed, read));
                assert((reaches_hooks(listed, read) ==> lexing(listed->Ok_0, none, 0))
                    && expansion(listed, none, read) == Err::<Seq<Token>, ErrorKind>(error@));
            }
            return Err(error);
        },
    };
    let output = expand(&arguments, &function);
    proof {
        let models = argument_models(arguments@);
        let (lexed, count) = choose|lexed: Seq<Option<Seq<Token>>>, count: int|
            (analysis(function@.parameters) is Ok ==> #[trigger] lexing(models, lexed, count))
                && rewritten(models, lexed, function@) == emitted_outcome(output);
        assert(listed == Ok::<Seq<ArgumentModel>, ErrorKind>(models));
        assert(read == Ok::<FunctionModel, ErrorKind>(function@));
        assert(expansion(listed, lexed, read) == rewritten(models, lexed, function@));
        let reached = lexing(models, lexed, count);
        assert(reached || !reached);
        assert((reaches_hooks(listed, read) ==> lexing(listed->Ok_0, lexed, count)) && expansion(
            listed,
            lexed,
            read,
        ) == emitted_outcome(output));
    }
    output
}

} // verus!
