//! The stream of JavaScript tokens of `genco`, as far as this library uses it.

use vstd::prelude::*;

verus! {

/// A `genco` stream of JavaScript tokens, held opaquely: the library reads and
/// changes it only through the functions below, and `tokens` is the stream
/// itself, for the code that formats it into a file.
#[verifier::external_body]
pub struct JsTokens {
    pub tokens: genco::lang::js::Tokens,
}

/// One item of a `genco` token stream.
pub enum TokenItem {
    /// A literal item, by its text.
    Literal(Seq<char>),
    /// A push onto a new line.
    Push,
    /// Any other item (a line, a space, an indentation, a quote, ...).
    Other,
}

/// The items of a `genco` token stream, in order.
pub uninterp spec fn token_items(tokens: JsTokens) -> Seq<TokenItem>;

/// `genco::Tokens::new`: a stream with no items.
#[verifier::external_body]
pub(crate) fn new_tokens() -> (tokens: JsTokens)
    ensures
        token_items(tokens) == Seq::<TokenItem>::empty(),
{
    JsTokens { tokens: genco::lang::js::Tokens::new() }
}

/// `genco::Tokens::append` with a `String`: the string becomes one literal item
/// at the end of the stream (genco's `FormatInto` for `String` pushes
/// `Item::literal` and nothing else).
#[verifier::external_body]
pub(crate) fn append_literal(tokens: &mut JsTokens, text: String)
    ensures
        token_items(*final(tokens)) == token_items(*old(tokens)).push(TokenItem::Literal(text@)),
{
    tokens.tokens.append(text);
}

/// `genco::Tokens::push`. genco first drops trailing spaces and pushes, and adds
/// nothing after a line item; after a literal item, or on an empty stream, this
/// appends exactly one push item. What it does after any other kind of item is
/// left unsaid here.
#[verifier::external_body]
pub(crate) fn push_line_break(tokens: &mut JsTokens)
    ensures
        token_items(*old(tokens)).len() == 0 || token_items(*old(tokens)).last() is Literal
            ==> token_items(*final(tokens)) == token_items(*old(tokens)).push(TokenItem::Push),
{
    tokens.tokens.push();
}

} // verus!
