//! The inline formatter: the shape that printed tokens take as the content
//! of a literal embedded in source text.

use vstd::prelude::*;
use crate::settings::format_tokens_in;
use crate::settings::ignore_docs_in;
use crate::settings::Settings;
use crate::syntax::stream_tokens;
use crate::text::append_range;
use crate::text::chars_of;
use crate::text::has_line_break;
use crate::text::string_of;
use crate::text::trim_end;
use crate::text::trim_end_at;
use crate::tokenstream::pretty_print;
use crate::tokenstream::rendering;

verus! {

/// Content for a literal: text of several lines stands between two line
/// breaks, without the blanks that ended it, so that neither its first nor
/// its last line touches the literal's delimiters. Text of one line is left
/// as it is.
pub open spec fn literal_content(text: Seq<char>) -> Seq<char> {
    if text.contains('\n') {
        seq!['\n'] + trim_end(text) + seq!['\n']
    } else {
        text
    }
}

/// Shapes printed text into the content of a literal.
pub fn for_literal(text: &str) -> (out: String)
    ensures
        out@ == literal_content(text@),
{
    let chars = chars_of(text);
    if !has_line_break(&chars) {
        return string_of(&chars);
    }
    let end = trim_end_at(&chars, chars.len());
    assert(chars@.take(chars.len() as int) =~= chars@);
    let mut out: Vec<char> = Vec::new();
    out.push('\n');
    append_range(&mut out, &chars, 0, end);
    out.push('\n');
    assert(out@ =~= seq!['\n'] + chars@.take(end as int) + seq!['\n']);
    string_of(&out)
}

/// Prints a token stream as the content of a literal.
pub fn render_for_literal(settings: &Settings, tokens: &proc_macro2::TokenStream) -> (out: String)
    ensures
        out@ == literal_content(
            rendering(
                format_tokens_in(settings@),
                ignore_docs_in(settings@),
                stream_tokens(*tokens),
            ),
        ),
{
    let text = pretty_print(settings, tokens);
    for_literal(text.as_str())
}

/// Text of one line passes through unchanged.
pub proof fn single_line_unchanged(text: Seq<char>)
    requires
        !text.contains('\n'),
    ensures
        literal_content(text) == text,
{
}

} // verus!
