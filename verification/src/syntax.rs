//! The lexer, parser and formatter that the library calls but does not
//! verify: `proc_macro2`, `syn` and `prettier_please`. Every item here is
//! taken on trust; the doc comment of each says what is claimed.

use vstd::prelude::*;
use crate::outline::names_stop;
use crate::tokens::models;
use crate::tokens::rules_fit;
use crate::tokens::Enclosure;
use crate::tokens::Token;
use crate::tokens::TokenModel;

verus! {

/// `proc_macro2::TokenStream`, a sequence of token trees. Nothing of its
/// inside is visible to proofs but through `stream_tokens`.
#[verifier::external_type_specification]
#[verifier::external_body]
pub struct ExTokenStream(proc_macro2::TokenStream);

/// The tokens that a stream holds, flattened: a group is its opening token,
/// its contents and its closing token.
pub uninterp spec fn stream_tokens(stream: proc_macro2::TokenStream) -> Seq<TokenModel>;

/// The tokens that `TokenStream::from_str` reads from source text, `None`
/// where it rejects the text.
pub uninterp spec fn lexed(source: Seq<char>) -> Option<Seq<TokenModel>>;

/// The text that `TokenStream::to_string` writes for a stream of these
/// tokens.
pub uninterp spec fn printed(tokens: Seq<TokenModel>) -> Seq<char>;

/// The text that `Debug` writes for the `syn::File` that `syn::parse2` reads
/// from these tokens, `None` where `syn` does not read a file from them.
pub uninterp spec fn unit_outline(tokens: Seq<TokenModel>) -> Option<Seq<char>>;

/// The text that `Debug` writes for the `syn::Expr` that `syn::parse2` reads
/// from these tokens, `None` where `syn` does not read an expression from
/// them.
pub uninterp spec fn expr_outline(tokens: Seq<TokenModel>) -> Option<Seq<char>>;

/// Whether the formatter has a layout for every kind of node in a syntax
/// tree with this outline. It has none for a node that `syn` keeps verbatim,
/// but for a literal or an expression without tokens, nor for the two kinds
/// of node that it does not know, a raw address and a precise capture. An
/// outline names the kind of every node, and writes `::` nowhere else but in
/// the text of a literal.
pub open spec fn fits_formatter(outline: Seq<char>) -> bool {
    !names_stop(outline)
}

/// The text that `prettier_please::unparse` lays out for the `syn::File`
/// that `syn::parse2` reads from these tokens, `None` where `syn` does not
/// read a file from them.
pub uninterp spec fn unit_layout(tokens: Seq<TokenModel>) -> Option<Seq<char>>;

/// The text that `prettier_please::unparse_expr` lays out for the
/// `syn::Expr` that `syn::parse2` reads from these tokens, `None` where `syn`
/// does not read an expression from them.
pub uninterp spec fn expr_layout(tokens: Seq<TokenModel>) -> Option<Seq<char>>;

/// Whether the two `syn::File` values that `syn::parse2` reads from the two
/// runs of tokens are equal by `syn`'s `==`, `None` where either is not read
/// as a file.
pub uninterp spec fn unit_same(a: Seq<TokenModel>, b: Seq<TokenModel>) -> Option<bool>;

/// Whether the two `syn::Expr` values that `syn::parse2` reads from the two
/// runs of tokens are equal by `syn`'s `==`, `None` where either is not read
/// as an expression.
pub uninterp spec fn expr_same(a: Seq<TokenModel>, b: Seq<TokenModel>) -> Option<bool>;

/// Calls `str::parse` for `proc_macro2::TokenStream`, which is its
/// `FromStr::from_str`. Claimed: the outcome depends on the text alone, and
/// the stream holds the tokens that `lexed` names.
#[verifier::external_body]
pub(crate) fn lex(source: &str) -> (out: Option<proc_macro2::TokenStream>)
    ensures
        out matches Some(stream) ==> lexed(source@) == Some(stream_tokens(stream)),
        out is None ==> lexed(source@) is None,
{
    source.parse::<proc_macro2::TokenStream>().ok()
}

/// `proc_macro2::Delimiter`, with its four variants in the open.
#[verifier::external_type_specification]
pub struct ExDelimiter(proc_macro2::Delimiter);

/// The enclosure that stands for a delimiter of `proc_macro2`.
pub open spec fn enclosure_for(delimiter: proc_macro2::Delimiter) -> Enclosure {
    match delimiter {
        proc_macro2::Delimiter::Parenthesis => Enclosure::Parenthesis,
        proc_macro2::Delimiter::Brace => Enclosure::Brace,
        proc_macro2::Delimiter::Bracket => Enclosure::Bracket,
        proc_macro2::Delimiter::None => Enclosure::Invisible,
    }
}

/// The enclosure that stands for a delimiter of `proc_macro2`.
pub fn delimiter_of(delimiter: proc_macro2::Delimiter) -> (out: Enclosure)
    ensures
        out == enclosure_for(delimiter),
{
    match delimiter {
        proc_macro2::Delimiter::Parenthesis => Enclosure::Parenthesis,
        proc_macro2::Delimiter::Brace => Enclosure::Brace,
        proc_macro2::Delimiter::Bracket => Enclosure::Bracket,
        proc_macro2::Delimiter::None => Enclosure::Invisible,
    }
}

/// `proc_macro2::Spacing`, with its two variants in the open.
#[verifier::external_type_specification]
pub struct ExSpacing(proc_macro2::Spacing);

/// Whether a punctuation character is glued to the token after it.
pub fn is_joint(spacing: proc_macro2::Spacing) -> (joint: bool)
    ensures
        joint == (spacing is Joint),
{
    match spacing {
        proc_macro2::Spacing::Joint => true,
        proc_macro2::Spacing::Alone => false,
    }
}

/// Walks a copy of a stream with `TokenStream::into_iter` and appends each
/// token tree to `out` as tokens of this library: an identifier and a literal with the
/// text of their `to_string`, a punctuation character with `as_char` and
/// whether `spacing` is `Joint`, a group as an opening token with its
/// `delimiter`, the tokens of its `stream`, and a closing token. Claimed:
/// what is appended is what `stream_tokens` names, which this walk defines.
#[verifier::external_body]
pub(crate) fn flatten(stream: &proc_macro2::TokenStream, out: &mut Vec<Token>)
    ensures
        models(final(out)@) == models(old(out)@) + stream_tokens(*stream),
{
    for tree in stream.clone() {
        match tree {
            proc_macro2::TokenTree::Group(group) => {
                out.push(Token::open(delimiter_of(group.delimiter())));
                flatten(&group.stream(), out);
                out.push(Token::close(delimiter_of(group.delimiter())));
            },
            proc_macro2::TokenTree::Ident(ident) => out.push(Token::ident(&ident.to_string())),
            proc_macro2::TokenTree::Punct(p) => out.push(Token::punct(p.as_char(), is_joint(p.spacing()))),
            proc_macro2::TokenTree::Literal(lit) => out.push(Token::literal(&lit.to_string())),
        }
    }
}

/// Calls `ToString::to_string` of `proc_macro2::TokenStream`. Claimed: the
/// text depends on the tokens alone.
#[verifier::external_body]
pub(crate) fn print(stream: &proc_macro2::TokenStream) -> (out: String)
    ensures
        out@ == printed(stream_tokens(*stream)),
{
    stream.to_string()
}

/// Calls `syn::parse2::<syn::File>` and, where it succeeds, writes the file
/// with its `Debug`, which `syn` generates for every node: the name of the
/// node's kind and then its fields, tokens by their text. Claimed: the
/// outcome depends on the tokens alone.
#[verifier::external_body]
pub(crate) fn outline_unit(stream: &proc_macro2::TokenStream) -> (out: Option<String>)
    ensures
        out matches Some(text) ==> unit_outline(stream_tokens(*stream)) == Some(text@),
        out is None ==> unit_outline(stream_tokens(*stream)) is None,
{
    let file = syn::parse2::<syn::File>(stream.clone()).ok()?;
    Some(format!("{:?}", file))
}

/// Calls `syn::parse2::<syn::Expr>` and, where it succeeds, writes the
/// expression with its `Debug`. Claimed: the outcome depends on the tokens
/// alone.
#[verifier::external_body]
pub(crate) fn outline_expr(stream: &proc_macro2::TokenStream) -> (out: Option<String>)
    ensures
        out matches Some(text) ==> expr_outline(stream_tokens(*stream)) == Some(text@),
        out is None ==> expr_outline(stream_tokens(*stream)) is None,
{
    let expr = syn::parse2::<syn::Expr>(stream.clone()).ok()?;
    Some(format!("{:?}", expr))
}

/// Calls `syn::parse2::<syn::File>` and, where it succeeds,
/// `prettier_please::unparse` on the file. Claimed: the outcome depends on
/// the tokens alone. The formatter stops with a panic on a node that it has
/// no layout for, so the call is made only for a file whose outline names no
/// such node. It stops as well on a definition by `macro_rules`, which is the
/// word `macro_rules`, `!`, a name and a group, where the group does not
/// hold a list of rules; so the call is made only where each such group
/// does, and where no group without brackets could hide such a definition.
/// The formatter is built without its `verbatim` feature: it reads no tokens
/// itself, so every node that it lays out is a node of the file, which the
/// outline names.
#[verifier::external_body]
pub(crate) fn format_unit(stream: &proc_macro2::TokenStream) -> (out: Option<String>)
    requires
        unit_outline(stream_tokens(*stream)) is Some,
        fits_formatter(unit_outline(stream_tokens(*stream))->0),
        rules_fit(stream_tokens(*stream)),
    ensures
        out matches Some(text) ==> unit_layout(stream_tokens(*stream)) == Some(text@),
        out is None ==> unit_layout(stream_tokens(*stream)) is None,
{
    let file = syn::parse2::<syn::File>(stream.clone()).ok()?;
    Some(prettier_please::unparse(&file))
}

/// Calls `syn::parse2::<syn::Expr>` and, where it succeeds,
/// `prettier_please::unparse_expr` on the expression. Claimed: the outcome
/// depends on the tokens alone. The formatter stops with a panic on a node
/// that it has no layout for, so the call is made only for an expression
/// whose outline names no such node; as for a file, the formatter lays out
/// no node that the outline does not name.
#[verifier::external_body]
pub(crate) fn format_expr(stream: &proc_macro2::TokenStream) -> (out: Option<String>)
    requires
        expr_outline(stream_tokens(*stream)) is Some,
        fits_formatter(expr_outline(stream_tokens(*stream))->0),
        rules_fit(stream_tokens(*stream)),
    ensures
        out matches Some(text) ==> expr_layout(stream_tokens(*stream)) == Some(text@),
        out is None ==> expr_layout(stream_tokens(*stream)) is None,
{
    let expr = syn::parse2::<syn::Expr>(stream.clone()).ok()?;
    Some(prettier_please::unparse_expr(&expr))
}

/// Calls `syn::parse2::<syn::File>` on both streams and, where both
/// succeed, `PartialEq::eq` of `syn::File`. Claimed: the outcome depends on
/// the tokens alone, two files read from the same tokens are never unequal
/// (`syn::File` is `Eq`, and its `==` looks at no span), and the order of the
/// two makes no difference (every `==` of `syn` compares field by field).
#[verifier::external_body]
pub(crate) fn units_equal(a: &proc_macro2::TokenStream, b: &proc_macro2::TokenStream) -> (out:
    Option<bool>)
    ensures
        out == unit_same(stream_tokens(*a), stream_tokens(*b)),
        out == unit_same(stream_tokens(*b), stream_tokens(*a)),
        stream_tokens(*a) == stream_tokens(*b) ==> out != Some(false),
{
    let left = syn::parse2::<syn::File>(a.clone()).ok()?;
    let right = syn::parse2::<syn::File>(b.clone()).ok()?;
    Some(left == right)
}

/// Calls `syn::parse2::<syn::Expr>` on both streams and, where both
/// succeed, `PartialEq::eq` of `syn::Expr`. Claimed: the outcome depends on
/// the tokens alone, two expressions read from the same tokens are never
/// unequal (`syn::Expr` is `Eq`, and its `==` looks at no span), and the
/// order of the two makes no difference.
#[verifier::external_body]
pub(crate) fn exprs_equal(a: &proc_macro2::TokenStream, b: &proc_macro2::TokenStream) -> (out:
    Option<bool>)
    ensures
        out == expr_same(stream_tokens(*a), stream_tokens(*b)),
        out == expr_same(stream_tokens(*b), stream_tokens(*a)),
        stream_tokens(*a) == stream_tokens(*b) ==> out != Some(false),
{
    let left = syn::parse2::<syn::Expr>(a.clone()).ok()?;
    let right = syn::parse2::<syn::Expr>(b.clone()).ok()?;
    Some(left == right)
}

} // verus!
