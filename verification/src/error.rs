//! Why a rewrite fails.
use vstd::prelude::*;

verus! {

#[verifier::external_type_specification]
#[verifier::external_body]
pub struct ExSyntaxError(syn::Error);

/// The two hooks that an attribute can name.
#[derive(Clone, Copy, Debug, PartialEq, Eq, Structural)]
pub enum Hook {
    /// Called before the original body.
    Before,
    /// Called after the original body.
    After,
}

/// A part of the input that is handed to the parser.
#[derive(Clone, Copy, Debug, PartialEq, Eq, Structural)]
pub enum Part {
    /// The attribute's arguments.
    Arguments,
    /// The annotated item without its body.
    Signature,
    /// The text given for a hook.
    Reference(Hook),
}

/// A failure, without the parser's message.
#[derive(Clone, Copy, Debug, PartialEq, Eq, Structural)]
pub enum ErrorKind {
    /// The attribute's arguments are no comma-separated list of meta items.
    Arguments,
    /// The annotated item is no function definition.
    Function,
    /// The annotated item does not end in a body in braces.
    Body,
    /// This part cannot be handed to the parser: it holds a literal that the
    /// parser does not read, or what is nested or chained in it goes too deep.
    Unreadable(Part),
    /// The parameter at this position is a receiver.
    Receiver(usize),
    /// The parameter at this position is bound by a pattern that is not a
    /// single identifier.
    Pattern(usize),
    /// The text given for this hook is no sequence of tokens, or no path.
    Reference(Hook),
}

/// A failure of the rewrite. Nothing is emitted when one occurs.
#[derive(Debug)]
pub enum AspectError {
    /// The attribute's arguments are no comma-separated list of meta items.
    Arguments(syn::Error),
    /// The annotated item is no function definition.
    Function(syn::Error),
    /// The annotated item does not end in a body in braces.
    Body,
    /// `part` cannot be handed to the parser: it holds a literal that the
    /// parser does not read, or what is nested or chained in it goes too deep.
    Unreadable { part: Part },
    /// The parameter at `position` is a receiver (`self`).
    Receiver { position: usize },
    /// The parameter at `position` is bound by a pattern that is not a single
    /// identifier.
    Pattern { position: usize },
    /// The text given for `hook` is no sequence of tokens, or no path.
    Reference { hook: Hook, cause: syn::Error },
}

impl View for AspectError {
    type V = ErrorKind;

    open spec fn view(&self) -> ErrorKind {
        match *self {
            AspectError::Arguments(_) => ErrorKind::Arguments,
            AspectError::Function(_) => ErrorKind::Function,
            AspectError::Body => ErrorKind::Body,
            AspectError::Unreadable { part } => ErrorKind::Unreadable(part),
            AspectError::Receiver { position } => ErrorKind::Receiver(position),
            AspectError::Pattern { position } => ErrorKind::Pattern(position),
            AspectError::Reference { hook, cause } => ErrorKind::Reference(hook),
        }
    }
}

impl AspectError {
    /// The kind of this failure.
    pub fn kind(&self) -> (kind: ErrorKind)
        ensures
            kind == self@,
    {
        match self {
            AspectError::Arguments(_) => ErrorKind::Arguments,
            AspectError::Function(_) => ErrorKind::Function,
            AspectError::Body => ErrorKind::Body,
            AspectError::Unreadable { part } => ErrorKind::Unreadable(*part),
            AspectError::Receiver { position } => ErrorKind::Receiver(*position),
            AspectError::Pattern { position } => ErrorKind::Pattern(*position),
            AspectError::Reference { hook, cause: _ } => ErrorKind::Reference(*hook),
        }
    }
}

} // verus!
