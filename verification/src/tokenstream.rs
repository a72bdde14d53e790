//! Printing and comparing token streams: a stream is read as a complete
//! unit, else as a single expression, else taken as raw tokens, and the
//! settings decide whether it is formatted and whether documentation counts.

use vstd::prelude::*;
use vstd::string::*;
use crate::settings::format_tokens_in;
use crate::settings::ignore_docs_in;
use crate::outline::find_stop;
use crate::settings::Settings;
use crate::syntax::expr_layout;
use crate::syntax::expr_outline;
use crate::syntax::expr_same;
use crate::syntax::exprs_equal;
use crate::syntax::flatten;
use crate::syntax::format_expr;
use crate::syntax::format_unit;
use crate::syntax::fits_formatter;
use crate::syntax::outline_expr;
use crate::syntax::outline_unit;
use crate::syntax::unit_outline;
use crate::syntax::lex;
use crate::syntax::lexed;
use crate::syntax::print;
use crate::syntax::printed;
use crate::syntax::stream_tokens;
use crate::syntax::unit_layout;
use crate::syntax::unit_same;
use crate::syntax::units_equal;
use crate::text::chars_of;
use crate::text::string_of;
use crate::tokens::models;
use crate::tokens::rules_are_fit;
use crate::tokens::rules_fit;
use crate::tokens::spell;
use crate::tokens::spelled;
use crate::tokens::strip_docs;
use crate::tokens::without_docs;
use crate::tokens::Token;
use crate::tokens::TokenModel;

verus! {

/// How much structure was found in a run of tokens.
#[derive(Clone, Copy, Debug, PartialEq, Eq, Structural)]
pub enum Tier {
    /// Items and declarations: a whole file.
    CompleteUnit,
    /// One expression.
    Expression,
    /// Neither: only the tokens themselves.
    Unparsed,
}

/// A run of tokens read at the most specific tier that takes it, with the
/// text that this tier gives: the formatted file, the formatted expression,
/// or the tokens as they print.
pub struct ParsedForm {
    pub tier: Tier,
    pub text: String,
}

/// The mathematical value of a `ParsedForm`.
pub struct FormModel {
    pub tier: Tier,
    pub text: Seq<char>,
}

impl View for ParsedForm {
    type V = FormModel;

    open spec fn view(&self) -> FormModel {
        FormModel { tier: self.tier, text: self.text@ }
    }
}

/// The outcome of comparing two runs of tokens: the tier at which both were
/// read, and whether they are the same there.
#[derive(Clone, Copy, Debug, PartialEq, Eq, Structural)]
pub struct Comparison {
    pub tier: Tier,
    pub same: bool,
}

/// The form of tokens that are read at a structural tier, where `outline`
/// is the outline of what was read and `layout` the text that the formatter
/// lays out for it: the layout, unless the formatter has no layout for a node
/// of the outline or for a `macro_rules` definition among the tokens, or
/// gives none; then the tokens stand as raw tokens.
pub open spec fn laid_out(
    tier: Tier,
    outline: Seq<char>,
    layout: Option<Seq<char>>,
    tokens: Seq<TokenModel>,
) -> FormModel {
    if fits_formatter(outline) && rules_fit(tokens) && layout is Some {
        FormModel { tier, text: layout->0 }
    } else {
        FormModel { tier: Tier::Unparsed, text: printed(tokens) }
    }
}

/// The form of a run of tokens: the first tier that reads it.
pub open spec fn form_of(tokens: Seq<TokenModel>) -> FormModel {
    match unit_outline(tokens) {
        Some(outline) => laid_out(Tier::CompleteUnit, outline, unit_layout(tokens), tokens),
        None => match expr_outline(tokens) {
            Some(outline) => laid_out(Tier::Expression, outline, expr_layout(tokens), tokens),
            None => FormModel { tier: Tier::Unparsed, text: printed(tokens) },
        },
    }
}

/// The comparison of two runs of tokens: at the first tier that reads both,
/// by structure; where none does, by the text they print as.
pub open spec fn comparison_of(a: Seq<TokenModel>, b: Seq<TokenModel>) -> Comparison {
    match unit_same(a, b) {
        Some(same) => Comparison { tier: Tier::CompleteUnit, same },
        None => match expr_same(a, b) {
            Some(same) => Comparison { tier: Tier::Expression, same },
            None => Comparison { tier: Tier::Unparsed, same: printed(a) == printed(b) },
        },
    }
}

/// The tokens that stand for `tokens` once documentation is set aside.
/// Where the tokens hold no documentation attribute to remove, or where
/// documentation counts, they stand for themselves. Otherwise they are
/// spelled without those attributes and read again by the lexer; where the
/// lexer reads nothing from the spelling, they stand for themselves as well.
pub open spec fn shown(ignore_docs: bool, tokens: Seq<TokenModel>) -> Seq<TokenModel> {
    if ignore_docs && without_docs(tokens) != tokens {
        match lexed(spelled(without_docs(tokens))) {
            Some(bare) => bare,
            None => tokens,
        }
    } else {
        tokens
    }
}

/// `text` without the line breaks at its end.
pub open spec fn trimmed(text: Seq<char>) -> Seq<char>
    decreases text.len(),
{
    if text.len() > 0 && text.last() == '\n' {
        trimmed(text.drop_last())
    } else {
        text
    }
}

/// What is printed for a form, given the form of the same tokens with
/// documentation set aside: the text of the latter where both are read at the
/// same tier, a file without the line breaks that end it; raw tokens are
/// printed as they are.
pub open spec fn chosen_text(plain: FormModel, bare: FormModel) -> Seq<char> {
    match plain.tier {
        Tier::CompleteUnit => trimmed(
            if bare.tier == Tier::CompleteUnit {
                bare.text
            } else {
                plain.text
            },
        ),
        Tier::Expression => if bare.tier == Tier::Expression {
            bare.text
        } else {
            plain.text
        },
        Tier::Unparsed => plain.text,
    }
}

/// What `pretty_print` gives for a run of tokens under the two switches.
pub open spec fn rendering(format: bool, ignore_docs: bool, tokens: Seq<TokenModel>) -> Seq<
    char,
> {
    if format {
        chosen_text(form_of(tokens), form_of(shown(ignore_docs, tokens)))
    } else {
        printed(tokens)
    }
}

/// Whether two runs of tokens count as equal, given their comparison as
/// they are and their comparison with documentation set aside: the latter
/// decides where both comparisons were made at the same structural tier.
pub open spec fn verdict_of(plain: Comparison, bare: Comparison) -> bool {
    if plain.tier != Tier::Unparsed && bare.tier == plain.tier {
        bare.same
    } else {
        plain.same
    }
}

/// What `tokens_equal` gives for two runs of tokens.
pub open spec fn equal_under(ignore_docs: bool, a: Seq<TokenModel>, b: Seq<TokenModel>) -> bool {
    verdict_of(comparison_of(a, b), comparison_of(shown(ignore_docs, a), shown(ignore_docs, b)))
}

/// Reads source text into a token stream. `None` where the text does not
/// tokenize: an unterminated literal, a bracket without its partner.
pub fn tokenize(source: &str) -> (out: Option<proc_macro2::TokenStream>)
    ensures
        out matches Some(stream) ==> lexed(source@) == Some(stream_tokens(stream)),
        out is None ==> lexed(source@) is None,
{
    lex(source)
}

/// The tokens of a stream, flattened.
pub fn tokens_of(stream: &proc_macro2::TokenStream) -> (out: Vec<Token>)
    ensures
        models(out@) == stream_tokens(*stream),
{
    let mut out: Vec<Token> = Vec::new();
    assert(models(out@) =~= Seq::<TokenModel>::empty());
    flatten(stream, &mut out);
    assert(Seq::<TokenModel>::empty() + stream_tokens(*stream) =~= stream_tokens(*stream));
    out
}

/// The stream without its documentation attributes: its tokens are
/// flattened, the attributes removed, and the rest spelled and read again.
/// `None` where the stream stands for itself: it holds no documentation
/// attribute to remove, or the lexer does not read the spelling.
pub fn undocumented(stream: &proc_macro2::TokenStream) -> (out: Option<proc_macro2::TokenStream>)
    ensures
        match out {
            Some(bare) => stream_tokens(bare) == shown(true, stream_tokens(*stream))
                && without_docs(stream_tokens(*stream)) != stream_tokens(*stream),
            None => shown(true, stream_tokens(*stream)) == stream_tokens(*stream),
        },
{
    let tokens = tokens_of(stream);
    let kept = strip_docs(&tokens);
    if kept.len() == tokens.len() {
        return None;
    }
    let spelling = spell(&kept);
    let source = string_of(&spelling);
    lex(source.as_str())
}

/// Whether the formatter has a layout for every kind of node in a syntax
/// tree with this outline.
pub fn formatter_fits(outline: &str) -> (fits: bool)
    ensures
        fits == fits_formatter(outline@),
{
    !find_stop(outline)
}

/// Reads a stream at the first tier that takes it: as a complete unit, else
/// as a single expression, else as raw tokens. What is read at one of the
/// first two tiers is laid out by the formatter; where the formatter has no
/// layout for it, the stream is taken as raw tokens.
pub fn parse_tiers(stream: &proc_macro2::TokenStream) -> (form: ParsedForm)
    ensures
        form@ == form_of(stream_tokens(*stream)),
{
    let rules = rules_are_fit(&tokens_of(stream));
    match outline_unit(stream) {
        Some(outline) => {
            if rules && formatter_fits(outline.as_str()) {
                match format_unit(stream) {
                    Some(text) => {
                        return ParsedForm { tier: Tier::CompleteUnit, text };
                    },
                    None => {},
                }
            }
        },
        None => {
            match outline_expr(stream) {
                Some(outline) => {
                    if rules && formatter_fits(outline.as_str()) {
                        match format_expr(stream) {
                            Some(text) => {
                                return ParsedForm { tier: Tier::Expression, text };
                            },
                            None => {},
                        }
                    }
                },
                None => {},
            }
        },
    }
    ParsedForm { tier: Tier::Unparsed, text: print(stream) }
}

/// Compares two streams at the first tier that reads both.
pub fn compare_tiers(a: &proc_macro2::TokenStream, b: &proc_macro2::TokenStream) -> (out:
    Comparison)
    ensures
        out == comparison_of(stream_tokens(*a), stream_tokens(*b)),
        out == comparison_of(stream_tokens(*b), stream_tokens(*a)),
        stream_tokens(*a) == stream_tokens(*b) ==> out.same,
{
    match units_equal(a, b) {
        Some(same) => Comparison { tier: Tier::CompleteUnit, same },
        None => match exprs_equal(a, b) {
            Some(same) => Comparison { tier: Tier::Expression, same },
            None => {
                let left = print(a);
                let right = print(b);
                Comparison { tier: Tier::Unparsed, same: left == right }
            },
        },
    }
}

/// `text` without the line breaks at its end.
pub fn trim_line_breaks(text: &str) -> (out: String)
    ensures
        out@ == trimmed(text@),
{
    let chars = chars_of(text);
    let mut end: usize = chars.len();
    assert(chars@.take(end as int) =~= chars@);
    while end > 0 && chars[end - 1] == '\n'
        invariant
            end <= chars.len(),
            trimmed(chars@) == trimmed(chars@.take(end as int)),
        decreases end,
    {
        assert(chars@.take(end as int).last() == '\n');
        assert(chars@.take(end as int).drop_last() =~= chars@.take(end - 1));
        end -= 1;
    }
    let mut kept: Vec<char> = Vec::new();
    crate::text::append_range(&mut kept, &chars, 0, end);
    assert(kept@ =~= chars@.take(end as int));
    string_of(&kept)
}

/// Picks the text to print from the form of a stream and the form of the
/// same stream with documentation set aside.
pub fn render_form(plain: &ParsedForm, bare: &ParsedForm) -> (out: String)
    ensures
        out@ == chosen_text(plain@, bare@),
{
    match plain.tier {
        Tier::CompleteUnit => match bare.tier {
            Tier::CompleteUnit => trim_line_breaks(bare.text.as_str()),
            _ => trim_line_breaks(plain.text.as_str()),
        },
        Tier::Expression => match bare.tier {
            Tier::Expression => bare.text.clone(),
            _ => plain.text.clone(),
        },
        Tier::Unparsed => plain.text.clone(),
    }
}

/// Decides equality from the comparison of two streams as they are and
/// their comparison with documentation set aside.
pub fn verdict(plain: Comparison, bare: Comparison) -> (equal: bool)
    ensures
        equal == verdict_of(plain, bare),
{
    let structural = match plain.tier {
        Tier::Unparsed => false,
        _ => bare.tier == plain.tier,
    };
    if structural {
        bare.same
    } else {
        plain.same
    }
}

/// Prints a token stream. With formatting switched off, the tokens print as
/// they are. Otherwise the stream is read as a complete unit, else as a
/// single expression, and laid out by the formatter, without its
/// documentation attributes where those are ignored; a stream that is
/// neither, or that holds what the formatter has no layout for, prints as
/// its raw tokens.
pub fn pretty_print(settings: &Settings, tokens: &proc_macro2::TokenStream) -> (out: String)
    ensures
        out@ == rendering(
            format_tokens_in(settings@),
            ignore_docs_in(settings@),
            stream_tokens(*tokens),
        ),
{
    if !settings.format_tokens() {
        return print(tokens);
    }
    let plain = parse_tiers(tokens);
    if settings.ignore_docs_for_tokens() {
        match undocumented(tokens) {
            Some(bare) => {
                let bare_form = parse_tiers(&bare);
                return render_form(&plain, &bare_form);
            },
            None => {},
        }
    }
    render_form(&plain, &plain)
}

/// Compares two token streams by meaning. Both are read as complete units,
/// else both as single expressions, and compared by structure, without
/// their documentation attributes where those are ignored; where neither
/// reading takes both, they are compared by the text they print as. Streams
/// of the same tokens are always equal, and the order of the two makes no
/// difference.
pub fn tokens_equal(
    settings: &Settings,
    a: &proc_macro2::TokenStream,
    b: &proc_macro2::TokenStream,
) -> (equal: bool)
    ensures
        equal == equal_under(ignore_docs_in(settings@), stream_tokens(*a), stream_tokens(*b)),
        equal == equal_under(ignore_docs_in(settings@), stream_tokens(*b), stream_tokens(*a)),
        stream_tokens(*a) == stream_tokens(*b) ==> equal,
        same_but_for_docs(ignore_docs_in(settings@), stream_tokens(*a), stream_tokens(*b))
            ==> equal,
{
    let plain = compare_tiers(a, b);
    if settings.ignore_docs_for_tokens() {
        let bare_a = undocumented(a);
        let bare_b = undocumented(b);
        let bare = match (&bare_a, &bare_b) {
            (Some(x), Some(y)) => compare_tiers(x, y),
            (Some(x), None) => compare_tiers(x, b),
            (None, Some(y)) => compare_tiers(a, y),
            (None, None) => plain,
        };
        return verdict(plain, bare);
    }
    verdict(plain, plain)
}

/// Two runs of tokens that differ in documentation attributes only, compared
/// with documentation ignored, where the spelling of what is left reads back
/// as it is and is read at the structural tier of the two as they are.
pub open spec fn same_but_for_docs(
    ignore_docs: bool,
    a: Seq<TokenModel>,
    b: Seq<TokenModel>,
) -> bool {
    &&& ignore_docs
    &&& without_docs(a) == without_docs(b)
    &&& lexed(spelled(without_docs(a))) == Some(without_docs(a))
    &&& comparison_of(a, b).tier != Tier::Unparsed
    &&& comparison_of(without_docs(a), without_docs(a)).tier == comparison_of(a, b).tier
}

} // verus!
