//! Token streams and their mathematical model.
//!
//! A `proc_macro2::TokenStream` is modelled as the sequence of token trees it
//! holds, each without its source position. The functions that build streams
//! are stated over that model, and so is the test of what may be handed to the
//! parser: [`is_acceptable`].
use proc_macro2::{TokenStream, TokenTree};
use quote::ToTokens;
use quote::TokenStreamExt;
use vstd::prelude::*;

verus! {

/// The brackets around a group of tokens.
#[derive(Clone, Copy, Debug, PartialEq, Eq, Structural)]
pub enum Delimiter {
    /// `( ... )`
    Parenthesis,
    /// `{ ... }`
    Brace,
    /// `[ ... ]`
    Bracket,
    /// No visible bracket.
    Invisible,
}

/// Whether a punctuation character is glued to the token after it.
#[derive(Clone, Copy, Debug, PartialEq, Eq, Structural)]
pub enum Spacing {
    /// The operator ends with this character.
    Alone,
    /// The next punctuation character continues the operator.
    Joint,
}

/// One token tree, without its source position.
pub enum Token {
    /// An identifier or keyword, by the text it prints as.
    Ident(Seq<char>),
    /// One punctuation character.
    Punct(char, Spacing),
    /// A literal, by the text it prints as.
    Literal(Seq<char>),
    /// A bracketed group and the tokens inside it.
    Group(Delimiter, Seq<Token>),
}

#[verifier::external_type_specification]
#[verifier::external_body]
pub struct ExTokenStream(proc_macro2::TokenStream);

/// The token trees that a stream holds, in order.
pub uninterp spec fn stream_tokens(stream: TokenStream) -> Seq<Token>;

/// Text that is a word of lower-case ASCII letters: always a legal identifier
/// or keyword.
pub open spec fn is_word(text: Seq<char>) -> bool {
    &&& text.len() > 0
    &&& forall|i: int| 0 <= i < text.len() ==> 'a' <= #[trigger] text[i] <= 'z'
}

/// The characters that can stand as one punctuation token.
pub open spec fn is_punctuation(mark: char) -> bool {
    ||| mark == '!'
    ||| mark == '#'
    ||| mark == '$'
    ||| mark == '%'
    ||| mark == '&'
    ||| mark == '\''
    ||| mark == '*'
    ||| mark == '+'
    ||| mark == ','
    ||| mark == '-'
    ||| mark == '.'
    ||| mark == '/'
    ||| mark == ':'
    ||| mark == ';'
    ||| mark == '<'
    ||| mark == '='
    ||| mark == '>'
    ||| mark == '?'
    ||| mark == '@'
    ||| mark == '^'
    ||| mark == '|'
    ||| mark == '~'
}

#[verifier::external_type_specification]
#[verifier::external_body]
pub struct ExTokenTree(proc_macro2::TokenTree);

/// The token that a token tree is.
pub uninterp spec fn tree_token(tree: TokenTree) -> Token;

/// The tokens of a list of token trees.
pub open spec fn tree_tokens(trees: Seq<TokenTree>) -> Seq<Token> {
    trees.map_values(|tree: TokenTree| tree_token(tree))
}

/// What the library reads of one token tree.
#[derive(Debug)]
pub enum Piece {
    /// A literal, by the text it prints as.
    Literal(String),
    /// A group, by its brackets and the stream inside.
    Group(Delimiter, TokenStream),
    /// A punctuation character and its spacing.
    Punct(char, Spacing),
    /// An identifier or keyword, by the text it prints as.
    Ident(String),
}

/// Whether a piece is what the library reads of a token.
pub open spec fn describes(piece: Piece, token: Token) -> bool {
    match piece {
        Piece::Literal(text) => token == Token::Literal(text@),
        Piece::Group(delimiter, inner) => token == Token::Group(delimiter, stream_tokens(inner)),
        Piece::Punct(mark, spacing) => token == Token::Punct(mark, spacing),
        Piece::Ident(text) => token == Token::Ident(text@),
    }
}

/// How deep groups may be nested in what is handed to the parser.
pub const MAX_DEPTH: usize = 32;

/// How long a chain of tokens that open something nested may be in what is
/// handed to the parser. The parser calls itself for what is nested and for
/// what is chained, such as one reference type in another or one generic
/// argument in another, and each such call begins at a group, at
/// punctuation that counts or at a keyword. What it reads of a chain of
/// operators it keeps as operands nested one in the other, which are taken
/// apart the same way. What is merely long it reads in a loop and keeps in a
/// list: a comma that separates the items of a list ends the chain before
/// it. This bound keeps the parser's calls within the stack that a thread
/// gets by default.
pub const MAX_CHAIN: usize = 32;

/// The literals that the parser reads: strings, raw strings, byte strings,
/// bytes, characters and numbers, told by how their text begins.
pub open spec fn readable_literal(text: Seq<char>) -> bool {
    &&& text.len() > 0
    &&& {
        ||| text[0] == '"'
        ||| text[0] == 'r'
        ||| text[0] == '\''
        ||| '0' <= text[0] <= '9'
        ||| text[0] == 'b' && text.len() > 1 && (text[1] == '"' || text[1] == 'r' || text[1]
            == '\'')
    }
}

/// The punctuation that begins or continues something nested: operators,
/// references and pointers, generic arguments, closures, assignments, ranges
/// and bindings. A chain of operators is kept as operands nested one in the
/// other. The comma, the semicolon, `#`, `'` and `$` are not among them; `:`
/// and `>` depend on where they stand, see [`mark_counts`].
pub open spec fn is_opening_mark(mark: char) -> bool {
    ||| mark == '!'
    ||| mark == '%'
    ||| mark == '&'
    ||| mark == '*'
    ||| mark == '+'
    ||| mark == '-'
    ||| mark == '.'
    ||| mark == '/'
    ||| mark == '<'
    ||| mark == '='
    ||| mark == '?'
    ||| mark == '@'
    ||| mark == '^'
    ||| mark == '|'
    ||| mark == '~'
}

/// The keywords of the language, strict and reserved.
pub open spec fn is_keyword(text: Seq<char>) -> bool {
    ||| text == "as"@
    ||| text == "async"@
    ||| text == "await"@
    ||| text == "box"@
    ||| text == "break"@
    ||| text == "const"@
    ||| text == "continue"@
    ||| text == "crate"@
    ||| text == "dyn"@
    ||| text == "else"@
    ||| text == "enum"@
    ||| text == "extern"@
    ||| text == "false"@
    ||| text == "fn"@
    ||| text == "for"@
    ||| text == "if"@
    ||| text == "impl"@
    ||| text == "in"@
    ||| text == "let"@
    ||| text == "loop"@
    ||| text == "match"@
    ||| text == "mod"@
    ||| text == "move"@
    ||| text == "mut"@
    ||| text == "pub"@
    ||| text == "ref"@
    ||| text == "return"@
    ||| text == "self"@
    ||| text == "Self"@
    ||| text == "static"@
    ||| text == "struct"@
    ||| text == "super"@
    ||| text == "trait"@
    ||| text == "true"@
    ||| text == "try"@
    ||| text == "type"@
    ||| text == "unsafe"@
    ||| text == "use"@
    ||| text == "where"@
    ||| text == "while"@
    ||| text == "yield"@
    ||| text == "abstract"@
    ||| text == "become"@
    ||| text == "do"@
    ||| text == "final"@
    ||| text == "macro"@
    ||| text == "override"@
    ||| text == "priv"@
    ||| text == "typeof"@
    ||| text == "unsized"@
    ||| text == "virtual"@
}

/// Where the reading of a sequence of tokens stands.
pub struct Scan {
    /// How many angle brackets are open.
    pub angle: nat,
    /// How many tokens that open something nested have come since the chain
    /// last ended.
    pub chain: nat,
    /// Whether a `|` has come: the parameters of a closure hold commas that
    /// end no chain.
    pub barred: bool,
    /// Whether the last token is a `-` or `=` glued to the next: a `>` after
    /// it closes no angle bracket.
    pub arrow: bool,
    /// Whether the last token is the first colon of `::`.
    pub colon: bool,
}

/// Whether a punctuation token adds to the chain. A colon does unless it is
/// part of `::`; a `>` does unless it closes an angle bracket or ends an
/// arrow.
pub open spec fn mark_counts(state: Scan, mark: char, spacing: Spacing) -> bool {
    if mark == ':' {
        spacing == Spacing::Alone && !state.colon
    } else if mark == '>' {
        !state.arrow && state.angle == 0
    } else {
        is_opening_mark(mark)
    }
}

/// Where the reading stands after one punctuation token. A comma outside
/// angle brackets ends the chain, unless a `|` has come.
pub open spec fn mark_step(state: Scan, mark: char, spacing: Spacing) -> Scan {
    Scan {
        angle: if mark == '<' {
            state.angle + 1
        } else if mark == '>' && !state.arrow && state.angle > 0 {
            (state.angle - 1) as nat
        } else {
            state.angle
        },
        chain: if mark_counts(state, mark, spacing) {
            state.chain + 1
        } else if mark == ',' && state.angle == 0 && !state.barred {
            0
        } else {
            state.chain
        },
        barred: state.barred || mark == '|',
        arrow: (mark == '-' || mark == '=') && spacing == Spacing::Joint,
        colon: mark == ':' && spacing == Spacing::Joint && !state.colon,
    }
}

/// Where the reading stands after one more token, `base` being the length of
/// the chain that leads to this sequence. `None` for a literal that the
/// parser does not read, for a group nested deeper than `depth`, and where
/// the chain grows longer than [`MAX_CHAIN`].
pub open spec fn step(state: Scan, token: Token, depth: nat, base: nat) -> Option<Scan>
    decreases depth, 0nat,
{
    let next = match token {
        Token::Literal(text) => if readable_literal(text) {
            Some(
                Scan {
                    angle: state.angle,
                    chain: state.chain,
                    barred: state.barred,
                    arrow: false,
                    colon: false,
                },
            )
        } else {
            None
        },
        Token::Ident(text) => Some(
            Scan {
                angle: state.angle,
                chain: if is_keyword(text) {
                    state.chain + 1
                } else {
                    state.chain
                },
                barred: state.barred,
                arrow: false,
                colon: false,
            },
        ),
        Token::Punct(mark, spacing) => Some(mark_step(state, mark, spacing)),
        Token::Group(_, inner) => if depth > 0 && scan(
            inner,
            (depth - 1) as nat,
            base + state.chain + 1,
        ) is Some {
            Some(
                Scan {
                    angle: state.angle,
                    chain: state.chain + 1,
                    barred: state.barred,
                    arrow: false,
                    colon: false,
                },
            )
        } else {
            None
        },
    };
    match next {
        Some(reached) => if base + reached.chain <= MAX_CHAIN {
            Some(reached)
        } else {
            None
        },
        None => None,
    }
}

/// Where the reading of a sequence ends, or `None` where it is refused.
pub open spec fn scan(tokens: Seq<Token>, depth: nat, base: nat) -> Option<Scan>
    decreases depth, tokens.len() + 1,
{
    if tokens.len() == 0 {
        Some(Scan { angle: 0, chain: 0, barred: false, arrow: false, colon: false })
    } else {
        match scan(tokens.drop_last(), depth, base) {
            Some(state) => step(state, tokens.last(), depth, base),
            None => None,
        }
    }
}

/// Whether a sequence of tokens may be handed to the parser: every literal in
/// it is one that the parser reads, its groups are nested no deeper than
/// [`MAX_DEPTH`], and no chain of tokens that open something nested, through
/// the groups that hold it, is longer than [`MAX_CHAIN`].
pub open spec fn acceptable(tokens: Seq<Token>) -> bool {
    scan(tokens, MAX_DEPTH as nat, 0) is Some
}

/// `proc_macro2::TokenStream::new`: the result holds no token.
#[verifier::external_body]
pub(crate) fn empty_stream() -> (stream: TokenStream)
    ensures
        stream_tokens(stream) == Seq::<Token>::empty(),
{
    TokenStream::new()
}

/// `proc_macro2::Ident::new` with the call-site span, appended by
/// `quote::TokenStreamExt::append`: one identifier token with the given text
/// is added at the end. `Ident::new` panics on text that is no identifier;
/// a word of lower-case ASCII letters always is one.
#[verifier::external_body]
pub(crate) fn push_word(stream: &mut TokenStream, word: &str)
    requires
        is_word(word@),
    ensures
        stream_tokens(*final(stream)) == stream_tokens(*old(stream)).push(Token::Ident(word@)),
{
    stream.append(proc_macro2::Ident::new(word, proc_macro2::Span::call_site()));
}

/// `proc_macro2::Punct::new`, appended by `quote::TokenStreamExt::append`: one
/// punctuation token with the given character and spacing is added at the end.
/// `Punct::new` panics on any character outside its list.
#[verifier::external_body]
pub(crate) fn push_punct(stream: &mut TokenStream, mark: char, spacing: Spacing)
    requires
        is_punctuation(mark),
    ensures
        stream_tokens(*final(stream)) == stream_tokens(*old(stream)).push(
            Token::Punct(mark, spacing),
        ),
{
    let spacing = match spacing {
        Spacing::Alone => proc_macro2::Spacing::Alone,
        Spacing::Joint => proc_macro2::Spacing::Joint,
    };
    stream.append(proc_macro2::Punct::new(mark, spacing));
}

/// `proc_macro2::Group::new`, appended by `quote::TokenStreamExt::append`: one
/// group token with the given brackets around the tokens of `inner` is added at
/// the end.
#[verifier::external_body]
pub(crate) fn push_group(stream: &mut TokenStream, delimiter: Delimiter, inner: TokenStream)
    ensures
        stream_tokens(*final(stream)) == stream_tokens(*old(stream)).push(
            Token::Group(delimiter, stream_tokens(inner)),
        ),
{
    let delimiter = match delimiter {
        Delimiter::Parenthesis => proc_macro2::Delimiter::Parenthesis,
        Delimiter::Brace => proc_macro2::Delimiter::Brace,
        Delimiter::Bracket => proc_macro2::Delimiter::Bracket,
        Delimiter::Invisible => proc_macro2::Delimiter::None,
    };
    stream.append(proc_macro2::Group::new(delimiter, inner));
}

/// `quote::ToTokens::to_tokens` of a token stream: the tokens of `tail` are
/// added at the end, in order.
#[verifier::external_body]
pub(crate) fn append_stream(stream: &mut TokenStream, tail: &TokenStream)
    ensures
        stream_tokens(*final(stream)) == stream_tokens(*old(stream)) + stream_tokens(*tail),
{
    tail.to_tokens(stream);
}

/// `Clone::clone` of `proc_macro2::TokenStream`: a stream with the same tokens.
#[verifier::external_body]
pub(crate) fn copy_stream(stream: &TokenStream) -> (copy: TokenStream)
    ensures
        stream_tokens(copy) == stream_tokens(*stream),
{
    stream.clone()
}

/// `IntoIterator::into_iter` of `proc_macro2::TokenStream`, collected: the
/// token trees of the stream, in order.
#[verifier::external_body]
pub(crate) fn stream_trees(stream: &TokenStream) -> (trees: Vec<TokenTree>)
    ensures
        tree_tokens(trees@) == stream_tokens(*stream),
{
    stream.clone().into_iter().collect()
}

/// The variants of `proc_macro2::TokenTree` told apart. Of a literal,
/// `to_string` gives the text; of a group, `Group::delimiter` the brackets and
/// `Group::stream` what is inside; of a punctuation token, `Punct::as_char`
/// the character and `Punct::spacing` the spacing; of an identifier,
/// `to_string` the text.
#[verifier::external_body]
pub(crate) fn scan_tree(tree: &TokenTree) -> (piece: Piece)
    ensures
        describes(piece, tree_token(*tree)),
{
    match tree {
        TokenTree::Literal(literal) => Piece::Literal(literal.to_string()),
        TokenTree::Ident(ident) => Piece::Ident(ident.to_string()),
        TokenTree::Punct(punct) => match punct.spacing() {
            proc_macro2::Spacing::Alone => Piece::Punct(punct.as_char(), Spacing::Alone),
            proc_macro2::Spacing::Joint => Piece::Punct(punct.as_char(), Spacing::Joint),
        },
        TokenTree::Group(group) => match group.delimiter() {
            proc_macro2::Delimiter::Parenthesis => Piece::Group(Delimiter::Parenthesis, group.stream()),
            proc_macro2::Delimiter::Brace => Piece::Group(Delimiter::Brace, group.stream()),
            proc_macro2::Delimiter::Bracket => Piece::Group(Delimiter::Bracket, group.stream()),
            proc_macro2::Delimiter::None => Piece::Group(Delimiter::Invisible, group.stream()),
        },
    }
}

/// `quote::TokenStreamExt::append` of a copy of a token tree: the token is
/// added at the end. A literal that begins with a minus sign may be added as
/// two tokens, so it is left out.
#[verifier::external_body]
pub(crate) fn push_tree(stream: &mut TokenStream, tree: &TokenTree)
    requires
        tree_token(*tree) matches Token::Literal(text) ==> readable_literal(text),
    ensures
        stream_tokens(*final(stream)) == stream_tokens(*old(stream)).push(tree_token(*tree)),
{
    stream.append(tree.clone());
}

/// Whether a literal is one that the parser reads.
pub fn is_readable(text: &str) -> (readable: bool)
    ensures
        readable == readable_literal(text@),
{
    let length = text.unicode_len();
    if length == 0 {
        return false;
    }
    let first = text.get_char(0);
    if first == '"' || first == 'r' || first == '\'' || ('0' <= first && first <= '9') {
        return true;
    }
    if first == 'b' && length > 1 {
        let second = text.get_char(1);
        return second == '"' || second == 'r' || second == '\'';
    }
    false
}

/// Whether a punctuation character begins or continues something nested
/// wherever it stands.
pub fn opens(mark: char) -> (opening: bool)
    ensures
        opening == is_opening_mark(mark),
{
    mark == '!' || mark == '%' || mark == '&' || mark == '*' || mark == '+' || mark == '-' || mark == '.' || mark == '/' || mark == '<' || mark == '=' || mark == '?' || mark == '@' || mark == '^' || mark == '|' || mark == '~'
}

fn same(text: &str, word: &str) -> (equal: bool)
    ensures
        equal == (text@ == word@),
{
    text.to_owned() == word.to_owned()
}

/// Whether an identifier is a keyword of the language.
pub fn is_reserved(text: &str) -> (reserved: bool)
    ensures
        reserved == is_keyword(text@),
{
    false
        || same(text, "as")
        || same(text, "async")
        || same(text, "await")
        || same(text, "box")
        || same(text, "break")
        || same(text, "const")
        || same(text, "continue")
        || same(text, "crate")
        || same(text, "dyn")
        || same(text, "else")
        || same(text, "enum")
        || same(text, "extern")
        || same(text, "false")
        || same(text, "fn")
        || same(text, "for")
        || same(text, "if")
        || same(text, "impl")
        || same(text, "in")
        || same(text, "let")
        || same(text, "loop")
        || same(text, "match")
        || same(text, "mod")
        || same(text, "move")
        || same(text, "mut")
        || same(text, "pub")
        || same(text, "ref")
        || same(text, "return")
        || same(text, "self")
        || same(text, "Self")
        || same(text, "static")
        || same(text, "struct")
        || same(text, "super")
        || same(text, "trait")
        || same(text, "true")
        || same(text, "try")
        || same(text, "type")
        || same(text, "unsafe")
        || same(text, "use")
        || same(text, "where")
        || same(text, "while")
        || same(text, "yield")
        || same(text, "abstract")
        || same(text, "become")
        || same(text, "do")
        || same(text, "final")
        || same(text, "macro")
        || same(text, "override")
        || same(text, "priv")
        || same(text, "typeof")
        || same(text, "unsized")
        || same(text, "virtual")
}

/// Where a sequence is read to its end, each literal in it is one that the
/// parser reads.
pub(crate) proof fn lemma_scan_reads(tokens: Seq<Token>, depth: nat, base: nat, position: int)
    requires
        0 <= position < tokens.len(),
        scan(tokens, depth, base) is Some,
    ensures
        tokens[position] matches Token::Literal(text) ==> readable_literal(text),
    decreases tokens.len(),
{
    let earlier = scan(tokens.drop_last(), depth, base);
    assert(earlier is Some);
    if position < tokens.len() - 1 {
        lemma_scan_reads(tokens.drop_last(), depth, base, position);
        assert(tokens.drop_last()[position] == tokens[position]);
    } else {
        assert(tokens.last() == tokens[position]);
        assert(step(earlier->0, tokens[position], depth, base) is Some);
    }
}

/// Where a sequence is read to its end, so are its first `length` tokens.
proof fn lemma_scan_begins(tokens: Seq<Token>, depth: nat, base: nat, length: int)
    requires
        0 <= length <= tokens.len(),
        scan(tokens, depth, base) is Some,
    ensures
        scan(tokens.take(length), depth, base) is Some,
    decreases tokens.len(),
{
    if length == tokens.len() {
        assert(tokens.take(length) =~= tokens);
    } else {
        assert(tokens.drop_last().take(length) =~= tokens.take(length));
        lemma_scan_begins(tokens.drop_last(), depth, base, length);
    }
}

/// Reads a stream as the parser's recursion would meet it.
///
/// Says whether every literal is one that the parser reads, no group is
/// nested deeper than `depth`, and no chain, `base` tokens of it leading to
/// this stream, grows longer than [`MAX_CHAIN`]. It calls itself once for
/// each level of nesting, `depth` times at most.
fn fits(stream: &TokenStream, depth: usize, base: usize) -> (fit: bool)
    requires
        base <= MAX_CHAIN,
    ensures
        fit == scan(stream_tokens(*stream), depth as nat, base as nat) is Some,
    decreases depth,
{
    let ghost tokens = stream_tokens(*stream);
    let trees = stream_trees(stream);
    let mut angle: usize = 0;
    let mut chain: usize = 0;
    let mut barred = false;
    let mut arrow = false;
    let mut colon = false;
    let mut position: usize = 0;
    while position < trees.len()
        invariant
            position <= trees@.len(),
            tokens == stream_tokens(*stream),
            tree_tokens(trees@) == tokens,
            angle <= position,
            base + chain <= MAX_CHAIN,
            scan(tokens.take(position as int), depth as nat, base as nat) == Some(
                Scan { angle: angle as nat, chain: chain as nat, barred, arrow, colon },
            ),
        decreases trees@.len() - position,
    {
        let ghost token = tokens[position as int];
        let ghost state = Scan { angle: angle as nat, chain: chain as nat, barred, arrow, colon };
        proof {
            assert(tokens.take(position + 1).drop_last() =~= tokens.take(position as int));
            assert(tokens.take(position + 1).last() == token);
            assert(token == tree_token(trees@[position as int]));
            assert(scan(tokens.take(position + 1), depth as nat, base as nat) == step(
                state,
                token,
                depth as nat,
                base as nat,
            ));
            if scan(tokens, depth as nat, base as nat) is Some {
                lemma_scan_begins(tokens, depth as nat, base as nat, position + 1);
            }
        }
        match scan_tree(&trees[position]) {
            Piece::Literal(text) => {
                assert(token == Token::Literal(text@));
                if !is_readable(text.as_str()) {
                    return false;
                }
                arrow = false;
                colon = false;
            },
            Piece::Ident(text) => {
                assert(token == Token::Ident(text@));
                if is_reserved(text.as_str()) {
                    if base + chain >= MAX_CHAIN {
                        return false;
                    }
                    chain = chain + 1;
                }
                arrow = false;
                colon = false;
            },
            Piece::Punct(mark, spacing) => {
                assert(token == Token::Punct(mark, spacing));
                let counts = if mark == ':' {
                    spacing == Spacing::Alone && !colon
                } else if mark == '>' {
                    !arrow && angle == 0
                } else {
                    opens(mark)
                };
                assert(counts == mark_counts(state, mark, spacing));
                let comma_angle = angle;
                if mark == '<' {
                    angle = angle + 1;
                } else if mark == '>' && !arrow && angle > 0 {
                    angle = angle - 1;
                }
                if counts {
                    if base + chain >= MAX_CHAIN {
                        return false;
                    }
                    chain = chain + 1;
                } else if mark == ',' && comma_angle == 0 && !barred {
                    chain = 0;
                }
                barred = barred || mark == '|';
                arrow = (mark == '-' || mark == '=') && spacing == Spacing::Joint;
                colon = mark == ':' && spacing == Spacing::Joint && !colon;
            },
            Piece::Group(delimiter, inner) => {
                assert(token == Token::Group(delimiter, stream_tokens(inner)));
                if depth == 0 || base + chain >= MAX_CHAIN {
                    return false;
                }
                if !fits(&inner, depth - 1, base + chain + 1) {
                    return false;
                }
                chain = chain + 1;
                arrow = false;
                colon = false;
            },
        }
        position += 1;
    }
    assert(tokens.take(position as int) =~= tokens);
    true
}

/// Whether a stream may be handed to the parser.
pub fn is_acceptable(stream: &TokenStream) -> (accepted: bool)
    ensures
        accepted == acceptable(stream_tokens(*stream)),
{
    fits(stream, MAX_DEPTH, 0)
}

} // verus!
