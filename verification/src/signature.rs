//! The parameters of a function and the expressions that forward them.
//!
//! A hook is called with every parameter of the function, in declaration
//! order and by reference. So each parameter must be bound by one identifier;
//! a receiver or a destructuring pattern is refused. A parameter whose
//! declared type is a reference is handed on as it is, any other behind `&`.
use crate::error::{AspectError, ErrorKind};
use crate::function::{Binding, BindingModel, DeclaredType, Parameter, ParameterModel};
use crate::tokens::{copy_stream, stream_tokens, Token};
use proc_macro2::TokenStream;
use vstd::prelude::*;

verus! {

/// A parameter that can be forwarded: its identifier and its declared type.
#[derive(Debug)]
pub struct NamedParameter {
    /// The identifier that binds the parameter.
    pub ident: TokenStream,
    /// Whether the declared type is a reference.
    pub declared: DeclaredType,
}

/// The model of a [`NamedParameter`].
pub struct NamedModel {
    pub ident: Seq<Token>,
    pub declared: DeclaredType,
}

impl View for NamedParameter {
    type V = NamedModel;

    open spec fn view(&self) -> NamedModel {
        NamedModel { ident: stream_tokens(self.ident), declared: self.declared }
    }
}

/// The models of a list of named parameters.
pub open spec fn named_models(named: Seq<NamedParameter>) -> Seq<NamedModel> {
    named.map_values(|n: NamedParameter| n@)
}

/// The argument that hands one parameter to a hook.
#[derive(Debug)]
pub enum ForwardingExpression {
    /// The identifier itself: the parameter is a reference already.
    Direct(TokenStream),
    /// A reference to the identifier.
    Borrowed(TokenStream),
}

/// The model of a [`ForwardingExpression`].
pub enum ForwardingModel {
    Direct(Seq<Token>),
    Borrowed(Seq<Token>),
}

impl View for ForwardingExpression {
    type V = ForwardingModel;

    open spec fn view(&self) -> ForwardingModel {
        match *self {
            ForwardingExpression::Direct(ident) => ForwardingModel::Direct(stream_tokens(ident)),
            ForwardingExpression::Borrowed(ident) => ForwardingModel::Borrowed(
                stream_tokens(ident),
            ),
        }
    }
}

impl ForwardingModel {
    /// The identifier that the expression names.
    pub open spec fn ident(self) -> Seq<Token> {
        match self {
            ForwardingModel::Direct(ident) => ident,
            ForwardingModel::Borrowed(ident) => ident,
        }
    }
}

/// The models of a list of forwarding expressions.
pub open spec fn forwarding_models(forwarding: Seq<ForwardingExpression>) -> Seq<
    ForwardingModel,
> {
    forwarding.map_values(|f: ForwardingExpression| f@)
}

/// Whether a parameter is bound by a single identifier.
pub open spec fn is_named(parameter: ParameterModel) -> bool {
    parameter matches ParameterModel::Typed { binding: BindingModel::Identifier(_), .. }
}

/// The identifier and declared type of a parameter bound by one identifier.
pub open spec fn named(parameter: ParameterModel) -> NamedModel
    recommends
        is_named(parameter),
{
    match parameter {
        ParameterModel::Typed { binding: BindingModel::Identifier(ident), declared } => NamedModel {
            ident,
            declared,
        },
        _ => arbitrary(),
    }
}

/// Why a parameter that is not bound by a single identifier is refused.
pub open spec fn refusal(parameter: ParameterModel, position: int) -> ErrorKind
    recommends
        !is_named(parameter),
{
    match parameter {
        ParameterModel::Receiver => ErrorKind::Receiver(position as usize),
        _ => ErrorKind::Pattern(position as usize),
    }
}

/// Whether `position` is that of the first parameter that is not bound by a
/// single identifier.
pub open spec fn is_first_refused(parameters: Seq<ParameterModel>, position: int) -> bool {
    &&& 0 <= position < parameters.len()
    &&& !is_named(parameters[position])
    &&& forall|earlier: int| 0 <= earlier < position ==> is_named(#[trigger] parameters[earlier])
}

/// Whether every parameter is bound by a single identifier.
pub open spec fn all_named(parameters: Seq<ParameterModel>) -> bool {
    forall|position: int|
        0 <= position < parameters.len() ==> is_named(#[trigger] parameters[position])
}

/// What the analysis of a parameter list gives: every parameter by identifier
/// and declared type, or the refusal of the first that has no identifier.
pub open spec fn analysis(parameters: Seq<ParameterModel>) -> Result<Seq<NamedModel>, ErrorKind> {
    if all_named(parameters) {
        Ok(parameters.map_values(|p: ParameterModel| named(p)))
    } else {
        let position = choose|position: int| is_first_refused(parameters, position);
        Err(refusal(parameters[position], position))
    }
}

/// The forwarding expression of a parameter.
pub open spec fn forwarded(parameter: NamedModel) -> ForwardingModel {
    match parameter.declared {
        DeclaredType::Reference => ForwardingModel::Direct(parameter.ident),
        DeclaredType::Other => ForwardingModel::Borrowed(parameter.ident),
    }
}

/// The forwarding expressions of a parameter list, in the same order.
pub open spec fn synthesis(parameters: Seq<NamedModel>) -> Seq<ForwardingModel> {
    parameters.map_values(|p: NamedModel| forwarded(p))
}

/// A parameter list has at most one first refused parameter.
proof fn lemma_first_refused_unique(parameters: Seq<ParameterModel>, position: int)
    requires
        is_first_refused(parameters, position),
    ensures
        !all_named(parameters),
        (choose|other: int| is_first_refused(parameters, other)) == position,
{
    let chosen = choose|other: int| is_first_refused(parameters, other);
    assert(is_first_refused(parameters, chosen));
    if chosen < position {
        assert(is_named(parameters[chosen]));
    }
    if position < chosen {
        assert(is_named(parameters[position]));
    }
}

/// Checks one parameter: gives its identifier and declared type, or refuses
/// a receiver or a parameter bound by another pattern.
pub fn analyze_parameter(parameter: &Parameter, position: usize) -> (outcome: Result<
    NamedParameter,
    AspectError,
>)
    ensures
        match outcome {
            Ok(found) => is_named(parameter@) && found@ == named(parameter@),
            Err(error) => !is_named(parameter@) && error@ == refusal(
                parameter@,
                position as int,
            ),
        },
{
    match parameter {
        Parameter::Receiver => Err(AspectError::Receiver { position }),
        Parameter::Typed { binding: Binding::Pattern, declared: _ } => Err(
            AspectError::Pattern { position },
        ),
        Parameter::Typed { binding: Binding::Identifier(ident), declared } => Ok(
            NamedParameter { ident: copy_stream(ident), declared: *declared },
        ),
    }
}

/// Checks a parameter list.
///
/// Gives every parameter by identifier and declared type, in declaration
/// order, where each is bound by a single identifier. Otherwise fails for the
/// first parameter that is not: a receiver or a parameter bound by another
/// pattern, with its position.
pub fn analyze_signature(parameters: &Vec<Parameter>) -> (outcome: Result<
    Vec<NamedParameter>,
    AspectError,
>)
    ensures
        match outcome {
            Ok(found) => analysis(crate::function::parameter_models(parameters@)) == Ok::<
                Seq<NamedModel>,
                ErrorKind,
            >(named_models(found@)),
            Err(error) => analysis(crate::function::parameter_models(parameters@)) == Err::<
                Seq<NamedModel>,
                ErrorKind,
            >(error@),
        },
{
    let ghost models = crate::function::parameter_models(parameters@);
    let mut found: Vec<NamedParameter> = Vec::new();
    let mut position: usize = 0;
    while position < parameters.len()
        invariant
            position <= parameters@.len(),
            models == crate::function::parameter_models(parameters@),
            found@.len() == position,
            forall|earlier: int| 0 <= earlier < position ==> is_named(#[trigger] models[earlier]),
            forall|earlier: int|
                0 <= earlier < position ==> (#[trigger] found@[earlier])@ == named(models[earlier]),
        decreases parameters@.len() - position,
    {
        match analyze_parameter(&parameters[position], position) {
            Ok(parameter) => { found.push(parameter); },
            Err(error) => {
                proof {
                    assert(is_first_refused(models, position as int));
                    lemma_first_refused_unique(models, position as int);
                }
                return Err(error);
            },
        }
        position += 1;
    }
    assert(all_named(models));
    assert(named_models(found@) =~= models.map_values(|p: ParameterModel| named(p)));
    Ok(found)
}

/// The expression that forwards one parameter: the identifier itself where
/// the declared type is a reference, a reference to it otherwise.
pub fn forward_parameter(parameter: &NamedParameter) -> (expression: ForwardingExpression)
    ensures
        expression@ == forwarded(parameter@),
{
    match parameter.declared {
        DeclaredType::Reference => ForwardingExpression::Direct(copy_stream(&parameter.ident)),
        DeclaredType::Other => ForwardingExpression::Borrowed(copy_stream(&parameter.ident)),
    }
}

/// The forwarding expressions of a parameter list: one for each parameter, in
/// declaration order.
pub fn synthesize_call_site(parameters: &Vec<NamedParameter>) -> (forwarding: Vec<
    ForwardingExpression,
>)
    ensures
        forwarding_models(forwarding@) == synthesis(named_models(parameters@)),
{
    let mut forwarding: Vec<ForwardingExpression> = Vec::new();
    let mut position: usize = 0;
    while position < parameters.len()
        invariant
            position <= parameters@.len(),
            forwarding@.len() == position,
            forall|earlier: int|
                0 <= earlier < position ==> (#[trigger] forwarding@[earlier])@ == forwarded(
                    parameters@[earlier]@,
                ),
        decreases parameters@.len() - position,
    {
        forwarding.push(forward_parameter(&parameters[position]));
        position += 1;
    }
    assert(forwarding_models(forwarding@) =~= synthesis(named_models(parameters@)));
    forwarding
}

} // verus!
