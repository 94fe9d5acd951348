//! A function definition, as far as the rewrite reads it.
//!
//! The parser is `syn`. It is handed the definition without the attributes
//! at its head, of which nothing is emitted, and without its body, which is
//! carried into the output as it stands. What the parser finds is copied
//! into [`FunctionDefinition`]: the parts that are only carried into the
//! output as token streams, the parts that decide something as plain enums.
use crate::error::{AspectError, ErrorKind, Part};
use crate::tokens::{
    acceptable, empty_stream, is_acceptable, is_readable, lemma_scan_reads, push_group,
    push_tree, scan_tree, stream_tokens, stream_trees, tree_token, tree_tokens, Delimiter, Piece,
    Token, MAX_DEPTH,
};
use proc_macro2::TokenStream;
use quote::ToTokens;
use vstd::prelude::*;

verus! {

/// The visibility that a definition declares.
#[derive(Clone, Copy, Debug, PartialEq, Eq, Structural)]
pub enum Visibility {
    /// `pub`
    Public,
    /// `crate`
    Crate,
    /// `pub(self)`, `pub(super)`, `pub(crate)` or `pub(in path)`
    Restricted,
    /// Nothing written.
    Inherited,
}

/// The declared type of a parameter, as far as forwarding depends on it.
#[derive(Clone, Copy, Debug, PartialEq, Eq, Structural)]
pub enum DeclaredType {
    /// A reference type: `&T` or `&mut T`.
    Reference,
    /// Any other type.
    Other,
}

/// What binds a typed parameter.
#[derive(Debug)]
pub enum Binding {
    /// A single identifier, held as the token it is written with.
    Identifier(TokenStream),
    /// Any other pattern.
    Pattern,
}

/// One parameter of a function definition.
#[derive(Debug)]
pub enum Parameter {
    /// A receiver: `self`, `&self` or `&mut self`.
    Receiver,
    /// A pattern with a declared type.
    Typed { binding: Binding, declared: DeclaredType },
}

/// A function definition.
#[derive(Debug)]
pub struct FunctionDefinition {
    /// The declared visibility.
    pub visibility: Visibility,
    /// The function's name.
    pub name: TokenStream,
    /// The generic parameters with their angle brackets; empty if there are none.
    pub generics: TokenStream,
    /// The parameter list as it is written between the parentheses.
    pub inputs: TokenStream,
    /// The parameters, in declaration order.
    pub parameters: Vec<Parameter>,
    /// The return type after the arrow; `None` for a function that returns unit.
    pub output: Option<TokenStream>,
    /// The body with its braces.
    pub body: TokenStream,
}

/// The model of a [`Binding`].
pub enum BindingModel {
    Identifier(Seq<Token>),
    Pattern,
}

/// The model of a [`Parameter`].
pub enum ParameterModel {
    Receiver,
    Typed { binding: BindingModel, declared: DeclaredType },
}

/// The model of a [`FunctionDefinition`].
pub struct FunctionModel {
    pub visibility: Visibility,
    pub name: Seq<Token>,
    pub generics: Seq<Token>,
    pub inputs: Seq<Token>,
    pub parameters: Seq<ParameterModel>,
    pub output: Option<Seq<Token>>,
    pub body: Seq<Token>,
}

impl View for Binding {
    type V = BindingModel;

    open spec fn view(&self) -> BindingModel {
        match *self {
            Binding::Identifier(ident) => BindingModel::Identifier(stream_tokens(ident)),
            Binding::Pattern => BindingModel::Pattern,
        }
    }
}

impl View for Parameter {
    type V = ParameterModel;

    open spec fn view(&self) -> ParameterModel {
        match *self {
            Parameter::Receiver => ParameterModel::Receiver,
            Parameter::Typed { binding, declared } => ParameterModel::Typed {
                binding: binding@,
                declared,
            },
        }
    }
}

/// The models of a list of parameters.
pub open spec fn parameter_models(parameters: Seq<Parameter>) -> Seq<ParameterModel> {
    parameters.map_values(|p: Parameter| p@)
}

/// The tokens of an optional stream.
pub open spec fn optional_tokens(stream: Option<TokenStream>) -> Option<Seq<Token>> {
    match stream {
        Some(s) => Some(stream_tokens(s)),
        None => None,
    }
}

impl View for FunctionDefinition {
    type V = FunctionModel;

    open spec fn view(&self) -> FunctionModel {
        FunctionModel {
            visibility: self.visibility,
            name: stream_tokens(self.name),
            generics: stream_tokens(self.generics),
            inputs: stream_tokens(self.inputs),
            parameters: parameter_models(self.parameters@),
            output: optional_tokens(self.output),
            body: stream_tokens(self.body),
        }
    }
}

#[verifier::external_type_specification]
#[verifier::external_body]
pub struct ExItemFn(syn::ItemFn);

/// What a parsed function item holds: its visibility, the tokens that its
/// name, generic parameters, parameter list and return type print as, and the
/// kind of each parameter. Its `body` is not read.
pub uninterp spec fn item_model(item: syn::ItemFn) -> FunctionModel;

/// What `syn::parse2::<syn::ItemFn>` makes of a sequence of tokens: the model
/// of the item it returns, or `None` where it returns an error.
pub uninterp spec fn parsed_function(input: Seq<Token>) -> Option<FunctionModel>;

/// `syn::parse2::<syn::ItemFn>`: parses the tokens as one function definition.
/// The outcome depends on the tokens alone, not on their positions. The
/// parser panics on a literal of a form that it does not know, and it calls
/// itself for what is nested and chained, so it is handed only what is
/// acceptable: nested to a small depth, with short chains, and with literals
/// that it reads.
#[verifier::external_body]
fn parse_item(input: TokenStream) -> (parsed: Result<syn::ItemFn, syn::Error>)
    requires
        acceptable(stream_tokens(input)),
    ensures
        match parsed {
            Ok(item) => parsed_function(stream_tokens(input)) == Some(item_model(item)),
            Err(_) => parsed_function(stream_tokens(input)) is None,
        },
{
    syn::parse2::<syn::ItemFn>(input)
}

/// The field `vis` of `syn::ItemFn`, variant by variant.
#[verifier::external_body]
fn item_visibility(item: &syn::ItemFn) -> (visibility: Visibility)
    ensures
        visibility == item_model(*item).visibility,
{
    match &item.vis {
        syn::Visibility::Public(_) => Visibility::Public,
        syn::Visibility::Crate(_) => Visibility::Crate,
        syn::Visibility::Restricted(_) => Visibility::Restricted,
        syn::Visibility::Inherited => Visibility::Inherited,
    }
}

/// `quote::ToTokens::to_token_stream` of the signature's `ident`.
#[verifier::external_body]
fn item_name(item: &syn::ItemFn) -> (name: TokenStream)
    ensures
        stream_tokens(name) == item_model(*item).name,
{
    item.sig.ident.to_token_stream()
}

/// `quote::ToTokens::to_token_stream` of the signature's `generics`, which
/// prints the angle brackets and what stands between them, and no `where`
/// clause.
#[verifier::external_body]
fn item_generics(item: &syn::ItemFn) -> (generics: TokenStream)
    ensures
        stream_tokens(generics) == item_model(*item).generics,
{
    item.sig.generics.to_token_stream()
}

/// `quote::ToTokens::to_token_stream` of the signature's `inputs`.
#[verifier::external_body]
fn item_inputs(item: &syn::ItemFn) -> (inputs: TokenStream)
    ensures
        stream_tokens(inputs) == item_model(*item).inputs,
{
    item.sig.inputs.to_token_stream()
}

/// `syn::punctuated::Punctuated::len` of the signature's `inputs`.
#[verifier::external_body]
fn item_parameter_count(item: &syn::ItemFn) -> (count: usize)
    ensures
        count == item_model(*item).parameters.len(),
{
    item.sig.inputs.len()
}

/// One element of the signature's `inputs`, by `Punctuated`'s index operator,
/// which panics past the end. The variants of `syn::FnArg`, `syn::Pat` and
/// `syn::Type` are told apart; an identifier pattern gives its `ident`.
#[verifier::external_body]
fn item_parameter(item: &syn::ItemFn, position: usize) -> (parameter: Parameter)
    requires
        position < item_model(*item).parameters.len(),
    ensures
        parameter@ == item_model(*item).parameters[position as int],
{
    match &item.sig.inputs[position] {
        syn::FnArg::Receiver(_) => Parameter::Receiver,
        syn::FnArg::Typed(typed) => Parameter::Typed {
            binding: match &*typed.pat {
                syn::Pat::Ident(pattern) => Binding::Identifier(pattern.ident.to_token_stream()),
                _ => Binding::Pattern,
            },
            declared: match &*typed.ty {
                syn::Type::Reference(_) => DeclaredType::Reference,
                _ => DeclaredType::Other,
            },
        },
    }
}

/// The signature's `output`: nothing for `syn::ReturnType::Default`, else
/// `quote::ToTokens::to_token_stream` of the type after the arrow.
#[verifier::external_body]
fn item_output(item: &syn::ItemFn) -> (output: Option<TokenStream>)
    ensures
        optional_tokens(output) == item_model(*item).output,
{
    match &item.sig.output {
        syn::ReturnType::Default => None,
        syn::ReturnType::Type(_, declared) => Some(declared.to_token_stream()),
    }
}

/// Whether a definition ends in a body in braces.
pub open spec fn ends_in_body(input: Seq<Token>) -> bool {
    input.len() > 0 && input.last() matches Token::Group(Delimiter::Brace, _)
}

/// Whether two tokens are an attribute: `#` and a group in square brackets.
pub open spec fn is_attribute(first: Token, second: Token) -> bool {
    &&& first matches Token::Punct(mark, _) && mark == '#'
    &&& second matches Token::Group(Delimiter::Bracket, _)
}

/// The number of tokens that the attributes at the head of an item take.
pub open spec fn attribute_tokens(input: Seq<Token>) -> nat
    decreases input.len(),
{
    if input.len() >= 2 && is_attribute(input[0], input[1]) {
        2 + attribute_tokens(input.skip(2))
    } else {
        0
    }
}

/// What is handed to the parser of a definition that ends in a body: what
/// stands between the attributes at its head and the body, and an empty body.
pub open spec fn signature_tokens(input: Seq<Token>) -> Seq<Token> {
    input.subrange(attribute_tokens(input) as int, input.len() - 1).push(
        Token::Group(Delimiter::Brace, Seq::<Token>::empty()),
    )
}

/// What reading a definition gives. The body is taken as it stands; the rest
/// is what the parser finds in it, where it may be handed to the parser.
pub open spec fn reading(input: Seq<Token>) -> Result<FunctionModel, ErrorKind> {
    if !ends_in_body(input) {
        Err(ErrorKind::Body)
    } else if !acceptable(signature_tokens(input)) {
        Err(ErrorKind::Unreadable(Part::Signature))
    } else {
        match parsed_function(signature_tokens(input)) {
            None => Err(ErrorKind::Function),
            Some(found) => Ok(
                FunctionModel {
                    visibility: found.visibility,
                    name: found.name,
                    generics: found.generics,
                    inputs: found.inputs,
                    parameters: found.parameters,
                    output: found.output,
                    body: seq![input.last()],
                },
            ),
        }
    }
}

/// Reads a function definition from its tokens.
///
/// The definition must end in a body in braces, which is kept as it stands.
/// What stands between the attributes at its head and the body is handed to
/// the parser with an empty body, unless it is no acceptable input for the
/// parser. Succeeds exactly where the
/// parser then accepts it as one function item, and gives what the parser
/// found.
pub fn read_function(input: TokenStream) -> (function: Result<FunctionDefinition, AspectError>)
    ensures
        match function {
            Ok(definition) => reading(stream_tokens(input)) == Ok::<FunctionModel, ErrorKind>(
                definition@,
            ),
            Err(error) => reading(stream_tokens(input)) == Err::<FunctionModel, ErrorKind>(
                error@,
            ),
        },
{
    let ghost tokens = stream_tokens(input);
    let trees = stream_trees(&input);
    if trees.len() == 0 {
        return Err(AspectError::Body);
    }
    let last = trees.len() - 1;
    assert(tokens.last() == tree_token(trees@[last as int]));
    match scan_tree(&trees[last]) {
        Piece::Group(Delimiter::Brace, _) => {},
        _ => { return Err(AspectError::Body); },
    }
    let mut start: usize = 0;
    let mut more = true;
    assert(tokens.skip(0) =~= tokens);
    while more && start + 1 < last
        invariant
            start <= last,
            last == trees@.len() - 1,
            ends_in_body(tokens),
            tree_tokens(trees@) == tokens,
            attribute_tokens(tokens) == start + attribute_tokens(tokens.skip(start as int)),
            !more ==> attribute_tokens(tokens.skip(start as int)) == 0,
        decreases last - start, (if more { 1nat } else { 0nat }),
    {
        let ghost rest = tokens.skip(start as int);
        assert(rest[0] == tree_token(trees@[start as int]));
        assert(rest[1] == tree_token(trees@[start + 1]));
        let marked = match scan_tree(&trees[start]) {
            Piece::Punct(mark, _) => mark == '#',
            _ => false,
        };
        let bracketed = match scan_tree(&trees[start + 1]) {
            Piece::Group(Delimiter::Bracket, _) => true,
            _ => false,
        };
        if marked && bracketed {
            assert(rest.skip(2) =~= tokens.skip(start + 2));
            start += 2;
        } else {
            more = false;
        }
    }
    proof {
        let rest = tokens.skip(start as int);
        if rest.len() >= 2 && more {
            assert(rest[1] == tokens.last());
        }
        assert(attribute_tokens(tokens) == start);
    }
    let mut signature = empty_stream();
    let mut position: usize = start;
    assert(tokens.subrange(start as int, start as int) =~= Seq::<Token>::empty());
    while position < last
        invariant
            start <= position <= last,
            last == trees@.len() - 1,
            tokens == stream_tokens(input),
            ends_in_body(tokens),
            tree_tokens(trees@) == tokens,
            attribute_tokens(tokens) == start,
            stream_tokens(signature) == tokens.subrange(start as int, position as int),
        decreases last - position,
    {
        let ghost token = tokens[position as int];
        assert(token == tree_token(trees@[position as int]));
        match scan_tree(&trees[position]) {
            Piece::Literal(text) => {
                if !is_readable(text.as_str()) {
                    proof {
                        assert(signature_tokens(tokens)[position - start] == token);
                        assert(token == Token::Literal(text@));
                        if acceptable(signature_tokens(tokens)) {
                            lemma_scan_reads(
                                signature_tokens(tokens),
                                MAX_DEPTH as nat,
                                0,
                                position - start,
                            );
                        }
                    }
                    return Err(AspectError::Unreadable { part: Part::Signature });
                }
            },
            _ => {},
        }
        push_tree(&mut signature, &trees[position]);
        position += 1;
        assert(stream_tokens(signature) =~= tokens.subrange(start as int, position as int));
    }
    push_group(&mut signature, Delimiter::Brace, empty_stream());
    assert(stream_tokens(signature) =~= signature_tokens(tokens));
    if !is_acceptable(&signature) {
        return Err(AspectError::Unreadable { part: Part::Signature });
    }
    let mut body = empty_stream();
    push_tree(&mut body, &trees[last]);
    assert(stream_tokens(body) =~= seq![tokens.last()]);
    let item = match parse_item(signature) {
        Ok(item) => item,
        Err(cause) => { return Err(AspectError::Function(cause)); },
    };
    let count = item_parameter_count(&item);
    let mut parameters: Vec<Parameter> = Vec::new();
    let mut position: usize = 0;
    while position < count
        invariant
            count == item_model(item).parameters.len(),
            position <= count,
            parameters@.len() == position,
            parameter_models(parameters@) == item_model(item).parameters.take(position as int),
        decreases count - position,
    {
        let ghost read = parameters@;
        let parameter = item_parameter(&item, position);
        parameters.push(parameter);
        assert forall|i: int| 0 <= i <= position implies parameter_models(parameters@)[i]
            == item_model(item).parameters[i] by {
            if i < position {
                assert(parameter_models(read)[i] == item_model(item).parameters.take(
                    position as int,
                )[i]);
            }
        }
        position += 1;
        assert(parameter_models(parameters@) =~= item_model(item).parameters.take(
            position as int,
        ));
    }
    assert(item_model(item).parameters.take(count as int) =~= item_model(item).parameters);
    let definition = FunctionDefinition {
        visibility: item_visibility(&item),
        name: item_name(&item),
        generics: item_generics(&item),
        inputs: item_inputs(&item),
        parameters,
        output: item_output(&item),
        body,
    };
    Ok(definition)
}

} // verus!
