//! The attribute's arguments and the hooks they configure.
//!
//! The arguments are a comma-separated list of meta items. A pair
//! `before = "path"` or `after = "path"` names a hook; every other item is
//! skipped. The text of a hook is read as tokens, which must be a path; where
//! a hook is named twice, the later pair wins.
use crate::error::{AspectError, ErrorKind, Hook, Part};
use crate::function::optional_tokens;
use crate::tokens::{acceptable, is_acceptable, stream_tokens, Token};
use proc_macro2::TokenStream;
use quote::ToTokens;
use vstd::prelude::*;

verus! {

/// One item of the attribute's argument list.
#[derive(Debug)]
pub enum AttributeArgument {
    /// `name = literal`. `name` is given where it is a single identifier,
    /// `value` where the literal is a string: its content, unescaped.
    NameValue { name: Option<String>, value: Option<String> },
    /// A path alone, a list or a literal.
    Other,
}

/// The model of an [`AttributeArgument`].
pub enum ArgumentModel {
    NameValue { name: Option<Seq<char>>, value: Option<Seq<char>> },
    Other,
}

/// The characters of an optional string.
pub open spec fn optional_text(text: Option<String>) -> Option<Seq<char>> {
    match text {
        Some(t) => Some(t@),
        None => None,
    }
}

impl View for AttributeArgument {
    type V = ArgumentModel;

    open spec fn view(&self) -> ArgumentModel {
        match *self {
            AttributeArgument::NameValue { name, value } => ArgumentModel::NameValue {
                name: optional_text(name),
                value: optional_text(value),
            },
            AttributeArgument::Other => ArgumentModel::Other,
        }
    }
}

/// The models of a list of arguments.
pub open spec fn argument_models(arguments: Seq<AttributeArgument>) -> Seq<ArgumentModel> {
    arguments.map_values(|a: AttributeArgument| a@)
}

/// The hooks that an attribute configures, each by the path of the function to
/// call.
#[derive(Debug)]
pub struct HookConfiguration {
    /// The function to call before the original body, if any.
    pub before: Option<TokenStream>,
    /// The function to call after the original body, if any.
    pub after: Option<TokenStream>,
}

/// The model of a [`HookConfiguration`].
pub struct HookModel {
    pub before: Option<Seq<Token>>,
    pub after: Option<Seq<Token>>,
}

impl View for HookConfiguration {
    type V = HookModel;

    open spec fn view(&self) -> HookModel {
        HookModel { before: optional_tokens(self.before), after: optional_tokens(self.after) }
    }
}

impl HookModel {
    /// No hook.
    pub open spec fn none() -> HookModel {
        HookModel { before: None, after: None }
    }

    /// These hooks with `hook` set to `reference`.
    pub open spec fn assigned(self, hook: Hook, reference: Seq<Token>) -> HookModel {
        match hook {
            Hook::Before => HookModel { before: Some(reference), after: self.after },
            Hook::After => HookModel { before: self.before, after: Some(reference) },
        }
    }
}

/// The hook that an argument name stands for.
pub open spec fn hook_named(name: Seq<char>) -> Option<Hook> {
    if name == "before"@ {
        Some(Hook::Before)
    } else if name == "after"@ {
        Some(Hook::After)
    } else {
        None
    }
}

/// The hook that an argument asks for and the text it gives for it; `None` for
/// an argument that is skipped.
pub open spec fn request(argument: ArgumentModel) -> Option<(Hook, Seq<char>)> {
    match argument {
        ArgumentModel::NameValue { name: Some(name), value: Some(text) } => match hook_named(
            name,
        ) {
            Some(hook) => Some((hook, text)),
            None => None,
        },
        _ => None,
    }
}

#[verifier::external_type_specification]
#[verifier::external_body]
pub struct ExNestedMeta(syn::NestedMeta);

/// What a parsed meta item holds, as far as the rewrite reads it.
pub uninterp spec fn meta_model(meta: syn::NestedMeta) -> ArgumentModel;

/// What `syn` makes of a sequence of tokens read as a comma-separated list of
/// meta items: the models of the items, or `None` where it returns an error.
pub uninterp spec fn parsed_arguments(args: Seq<Token>) -> Option<Seq<ArgumentModel>>;

/// The tokens of the path that `syn::parse2::<syn::Path>` reads from a
/// sequence of tokens, or `None` where it returns an error.
pub uninterp spec fn parsed_path(reference: Seq<Token>) -> Option<Seq<Token>>;

/// The models of a list of parsed meta items.
pub open spec fn meta_models(metas: Seq<syn::NestedMeta>) -> Seq<ArgumentModel> {
    metas.map_values(|m: syn::NestedMeta| meta_model(m))
}

/// `syn::punctuated::Punctuated::parse_terminated` for `syn::NestedMeta` and
/// commas, run by `syn::parse::Parser::parse2`: parses the whole stream as
/// meta items separated by commas, the last comma optional. The outcome
/// depends on the tokens alone, not on their positions. The parser panics on
/// a literal of a form that it does not know, and it calls itself for what is
/// nested, so it is handed only what is acceptable.
#[verifier::external_body]
fn parse_metas(args: TokenStream) -> (parsed: Result<Vec<syn::NestedMeta>, syn::Error>)
    requires
        acceptable(stream_tokens(args)),
    ensures
        match parsed {
            Ok(metas) => parsed_arguments(stream_tokens(args)) == Some(meta_models(metas@)),
            Err(_) => parsed_arguments(stream_tokens(args)) is None,
        },
{
    let list = syn::parse::Parser::parse2(
        syn::punctuated::Punctuated::<syn::NestedMeta, syn::token::Comma>::parse_terminated,
        args,
    )?;
    Ok(list.into_iter().collect())
}

/// The variants of `syn::NestedMeta`, `syn::Meta` and `syn::Lit` told apart.
/// Of a name-value pair, `syn::Path::get_ident` gives the name and
/// `syn::LitStr::value` the content of a string literal.
#[verifier::external_body]
fn argument_of(meta: &syn::NestedMeta) -> (argument: AttributeArgument)
    ensures
        argument@ == meta_model(*meta),
{
    match meta {
        syn::NestedMeta::Meta(syn::Meta::NameValue(pair)) => AttributeArgument::NameValue {
            name: pair.path.get_ident().map(|ident| ident.to_string()),
            value: match &pair.lit {
                syn::Lit::Str(text) => Some(text.value()),
                _ => None,
            },
        },
        _ => AttributeArgument::Other,
    }
}

/// Whether `lexed` is what reading a text as tokens can give: the tokens, or
/// `None` where the text is no sequence of tokens. Which lexer reads the text
/// depends on where the process runs, so this is a relation and no function
/// of the text.
pub uninterp spec fn read_from(text: Seq<char>, lexed: Option<Seq<Token>>) -> bool;

/// `str::parse` for `proc_macro2::TokenStream`, with the lexer's error turned
/// into the parser's: reads a text as tokens. Of the outcome only this is
/// said, that it was read from this text.
#[verifier::external_body]
fn lex_reference(text: &str) -> (lexed: Result<TokenStream, syn::Error>)
    ensures
        read_from(text@, lexed_tokens(lexed)),
{
    text.parse::<TokenStream>().map_err(syn::Error::from)
}

/// `syn::parse2::<syn::Path>`, and `quote::ToTokens::into_token_stream` of
/// the path it returns. The parser is handed only what is acceptable.
#[verifier::external_body]
fn parse_path(reference: TokenStream) -> (parsed: Result<TokenStream, syn::Error>)
    requires
        acceptable(stream_tokens(reference)),
    ensures
        match parsed {
            Ok(path) => parsed_path(stream_tokens(reference)) == Some(stream_tokens(path)),
            Err(_) => parsed_path(stream_tokens(reference)) is None,
        },
{
    syn::parse2::<syn::Path>(reference).map(|path| path.into_token_stream())
}

/// What reading an argument list gives: what the parser finds in it, where
/// it may be handed to the parser.
pub open spec fn listing(args: Seq<Token>) -> Result<Seq<ArgumentModel>, ErrorKind> {
    if !acceptable(args) {
        Err(ErrorKind::Unreadable(Part::Arguments))
    } else {
        match parsed_arguments(args) {
            Some(list) => Ok(list),
            None => Err(ErrorKind::Arguments),
        }
    }
}

/// Reads the attribute's argument list from its tokens.
///
/// Refuses tokens that are no acceptable input for the parser. Otherwise
/// succeeds exactly where the parser accepts the tokens as a comma-separated
/// list of meta items, and then gives the items in order.
pub fn read_arguments(args: TokenStream) -> (arguments: Result<
    Vec<AttributeArgument>,
    AspectError,
>)
    ensures
        match arguments {
            Ok(list) => listing(stream_tokens(args)) == Ok::<Seq<ArgumentModel>, ErrorKind>(
                argument_models(list@),
            ),
            Err(error) => listing(stream_tokens(args)) == Err::<Seq<ArgumentModel>, ErrorKind>(
                error@,
            ),
        },
{
    if !is_acceptable(&args) {
        return Err(AspectError::Unreadable { part: Part::Arguments });
    }
    let metas = match parse_metas(args) {
        Ok(metas) => metas,
        Err(cause) => { return Err(AspectError::Arguments(cause)); },
    };
    let mut list: Vec<AttributeArgument> = Vec::new();
    let mut position: usize = 0;
    while position < metas.len()
        invariant
            position <= metas@.len(),
            list@.len() == position,
            argument_models(list@) == meta_models(metas@).take(position as int),
        decreases metas@.len() - position,
    {
        let ghost read = list@;
        let argument = argument_of(&metas[position]);
        list.push(argument);
        assert forall|i: int| 0 <= i <= position implies argument_models(list@)[i] == meta_models(
            metas@,
        )[i] by {
            if i < position {
                assert(argument_models(read)[i] == meta_models(metas@).take(position as int)[i]);
            }
        }
        position += 1;
        assert(argument_models(list@) =~= meta_models(metas@).take(position as int));
    }
    assert(meta_models(metas@).take(position as int) =~= meta_models(metas@));
    Ok(list)
}

/// The hook that an argument name stands for: `before`, `after`, or none.
pub fn recognize_hook(name: &str) -> (hook: Option<Hook>)
    ensures
        hook == hook_named(name@),
{
    let given = name.to_owned();
    if given == "before".to_owned() {
        Some(Hook::Before)
    } else if given == "after".to_owned() {
        Some(Hook::After)
    } else {
        None
    }
}

impl HookConfiguration {
    /// A configuration without hooks.
    pub fn new() -> (hooks: HookConfiguration)
        ensures
            hooks@ == HookModel::none(),
    {
        HookConfiguration { before: None, after: None }
    }

    /// Sets `hook` to `reference`, replacing what was there.
    pub fn assign(self, hook: Hook, reference: TokenStream) -> (hooks: HookConfiguration)
        ensures
            hooks@ == self@.assigned(hook, stream_tokens(reference)),
    {
        match hook {
            Hook::Before => HookConfiguration { before: Some(reference), after: self.after },
            Hook::After => HookConfiguration { before: self.before, after: Some(reference) },
        }
    }
}

/// The tokens that reading a text gave, if it gave any.
pub open spec fn lexed_tokens(lexed: Result<TokenStream, syn::Error>) -> Option<Seq<Token>> {
    match lexed {
        Ok(reference) => Some(stream_tokens(reference)),
        Err(_) => None,
    }
}

/// What an attempt to configure hooks gave, as a model.
pub open spec fn hooks_outcome(outcome: Result<HookConfiguration, AspectError>) -> Result<
    HookModel,
    ErrorKind,
> {
    match outcome {
        Ok(hooks) => Ok(hooks@),
        Err(error) => Err(error@),
    }
}

/// The hooks after `hook` is set to what was read from its text: `lexed` is
/// the tokens of the text, or `None` where the text is no sequence of tokens.
pub open spec fn referenced(hooks: HookModel, hook: Hook, lexed: Option<Seq<Token>>) -> Result<
    HookModel,
    ErrorKind,
> {
    match lexed {
        None => Err(ErrorKind::Reference(hook)),
        Some(reference) => if !acceptable(reference) {
            Err(ErrorKind::Unreadable(Part::Reference(hook)))
        } else {
            match parsed_path(reference) {
                Some(path) => Ok(hooks.assigned(hook, path)),
                None => Err(ErrorKind::Reference(hook)),
            }
        },
    }
}

/// The hooks after one more argument, where `lexed` is what reading the
/// argument's text gave. An argument that asks for no hook changes nothing.
pub open spec fn recorded(
    hooks: HookModel,
    argument: ArgumentModel,
    lexed: Option<Seq<Token>>,
) -> Result<HookModel, ErrorKind> {
    match request(argument) {
        None => Ok(hooks),
        Some((hook, _)) => referenced(hooks, hook, lexed),
    }
}

/// The hooks that a list of arguments configures, or the first failure, where
/// `lexed` holds for each argument what reading its text gave.
pub open spec fn configured(
    arguments: Seq<ArgumentModel>,
    lexed: Seq<Option<Seq<Token>>>,
) -> Result<HookModel, ErrorKind>
    decreases arguments.len(),
{
    if arguments.len() == 0 {
        Ok(HookModel::none())
    } else {
        match configured(arguments.drop_last(), lexed.drop_last()) {
            Ok(hooks) => recorded(hooks, arguments.last(), lexed.last()),
            Err(kind) => Err(kind),
        }
    }
}

/// Sets a hook to the path that the tokens of its text spell.
///
/// Fails where the text gave no tokens, where the tokens are no acceptable
/// input for the parser, and where they are no path.
pub fn record_reference(
    hooks: HookConfiguration,
    hook: Hook,
    lexed: Result<TokenStream, syn::Error>,
) -> (outcome: Result<HookConfiguration, AspectError>)
    ensures
        hooks_outcome(outcome) == referenced(hooks@, hook, lexed_tokens(lexed)),
{
    let reference = match lexed {
        Ok(reference) => reference,
        Err(cause) => { return Err(AspectError::Reference { hook, cause }); },
    };
    if !is_acceptable(&reference) {
        return Err(AspectError::Unreadable { part: Part::Reference(hook) });
    }
    match parse_path(reference) {
        Ok(path) => Ok(hooks.assign(hook, path)),
        Err(cause) => Err(AspectError::Reference { hook, cause }),
    }
}

/// The hook that an argument asks for and the text it gives for it; `None` for
/// an argument that is skipped: one that is no pair, whose name is not
/// `before` or `after`, or whose value is no string.
pub fn requested(argument: &AttributeArgument) -> (found: Option<(Hook, &String)>)
    ensures
        match found {
            Some((hook, text)) => request(argument@) == Some((hook, text@)),
            None => request(argument@) is None,
        },
{
    match argument {
        AttributeArgument::NameValue { name: Some(name), value: Some(text) } => {
            match recognize_hook(name.as_str()) {
                Some(hook) => Some((hook, text)),
                None => None,
            }
        },
        _ => None,
    }
}

/// Whether `lexed` can be what reading the text of an argument gave. Of an
/// argument that asks for no hook nothing is read.
pub open spec fn read_for(argument: ArgumentModel, lexed: Option<Seq<Token>>) -> bool {
    request(argument) matches Some((_, text)) ==> read_from(text, lexed)
}

/// Whether `lexed` can be what reading the texts of a list of arguments gave,
/// one after the other: each of the first `count` was read from its own text,
/// and where `count` is short of the whole list, the reading stopped at a
/// failure.
pub open spec fn lexing(
    arguments: Seq<ArgumentModel>,
    lexed: Seq<Option<Seq<Token>>>,
    count: int,
) -> bool {
    &&& 0 <= count <= arguments.len()
    &&& lexed.len() == arguments.len()
    &&& forall|position: int|
        0 <= position < count ==> read_for(arguments[position], #[trigger] lexed[position])
    &&& count < arguments.len() ==> configured(arguments.take(count), lexed.take(count)) is Err
}

/// Takes one argument into a configuration.
///
/// An argument that names no hook leaves the configuration as it is, whatever
/// else it holds. One that names a hook has its own text read as tokens and
/// sets the hook to the path that they spell.
pub fn record_argument(hooks: HookConfiguration, argument: &AttributeArgument) -> (outcome: Result<
    HookConfiguration,
    AspectError,
>)
    ensures
        exists|lexed: Option<Seq<Token>>|
            read_for(argument@, lexed) && #[trigger] recorded(hooks@, argument@, lexed)
                == hooks_outcome(outcome),
{
    match requested(argument) {
        Some((hook, text)) => {
            let lexed = lex_reference(text.as_str());
            let ghost read = lexed_tokens(lexed);
            let outcome = record_reference(hooks, hook, lexed);
            assert(read_for(argument@, read) && recorded(hooks@, argument@, read) == hooks_outcome(
                outcome,
            ));
            outcome
        },
        None => {
            assert(read_for(argument@, None) && recorded(hooks@, argument@, None) == Ok::<
                HookModel,
                ErrorKind,
            >(hooks@));
            Ok(hooks)
        },
    }
}

/// Reads the hook configuration from the attribute's arguments.
///
/// The arguments are taken in order and each hook is read from the text of
/// its own pair, so a hook named twice keeps the later path, and the failure
/// reported is that of the first argument whose text gives no path.
pub fn parse_hooks(arguments: &Vec<AttributeArgument>) -> (outcome: Result<
    HookConfiguration,
    AspectError,
>)
    ensures
        exists|lexed: Seq<Option<Seq<Token>>>, count: int| #[trigger]
            lexing(argument_models(arguments@), lexed, count) && configured(
                argument_models(arguments@),
                lexed,
            ) == hooks_outcome(outcome),
{
    let ghost models = argument_models(arguments@);
    let ghost mut lexed: Seq<Option<Seq<Token>>> = Seq::empty();
    let mut hooks = HookConfiguration::new();
    let mut position: usize = 0;
    while position < arguments.len()
        invariant
            position <= arguments@.len(),
            models == argument_models(arguments@),
            lexed.len() == position,
            forall|earlier: int|
                0 <= earlier < position ==> read_for(models[earlier], #[trigger] lexed[earlier]),
            configured(models.take(position as int), lexed) == Ok::<HookModel, ErrorKind>(hooks@),
        decreases arguments@.len() - position,
    {
        let ghost before = hooks@;
        let outcome = record_argument(hooks, &arguments[position]);
        let ghost read = choose|read: Option<Seq<Token>>|
            read_for(models[position as int], read) && recorded(
                before,
                models[position as int],
                read,
            ) == hooks_outcome(outcome);
        proof {
            assert(models.take(position + 1).drop_last() =~= models.take(position as int));
            assert(lexed.push(read).drop_last() =~= lexed);
            lexed = lexed.push(read);
            assert(configured(models.take(position + 1), lexed) == hooks_outcome(outcome));
        }
        match outcome {
            Ok(next) => { hooks = next; },
            Err(error) => {
                proof {
                    let rest = Seq::new(
                        (models.len() - position - 1) as nat,
                        |i: int| None::<Seq<Token>>,
                    );
                    let whole = lexed + rest;
                    assert(whole.take(position + 1) =~= lexed);
                    lemma_failure_stays(models, whole, position + 1);
                    assert(configured(models, whole) == Err::<HookModel, ErrorKind>(error@));
                    assert forall|earlier: int| 0 <= earlier < position + 1 implies read_for(
                        models[earlier],
                        #[trigger] whole[earlier],
                    ) by {
                        assert(whole[earlier] == lexed[earlier]);
                    }
                    assert(lexing(models, whole, position + 1));
                }
                return Err(error);
            },
        }
        position += 1;
    }
    proof {
        assert(models.take(position as int) =~= models);
        assert(lexing(models, lexed, position as int));
        assert(configured(models, lexed) == Ok::<HookModel, ErrorKind>(hooks@));
    }
    Ok(hooks)
}

/// A failure among the first `count` arguments is the failure of the whole
/// list.
proof fn lemma_failure_stays(
    arguments: Seq<ArgumentModel>,
    lexed: Seq<Option<Seq<Token>>>,
    count: int,
)
    requires
        0 <= count <= arguments.len(),
        lexed.len() == arguments.len(),
        configured(arguments.take(count), lexed.take(count)) is Err,
    ensures
        configured(arguments, lexed) == configured(arguments.take(count), lexed.take(count)),
    decreases arguments.len() - count,
{
    if count < arguments.len() {
        assert(arguments.take(count + 1).drop_last() =~= arguments.take(count));
        assert(lexed.take(count + 1).drop_last() =~= lexed.take(count));
        lemma_failure_stays(arguments, lexed, count + 1);
    } else {
        assert(arguments.take(count) =~= arguments);
        assert(lexed.take(count) =~= lexed);
    }
}

} // verus!
