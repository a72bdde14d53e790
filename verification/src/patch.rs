//! The source patch engine: the text of an inline literal for new content,
//! laid out against the line that holds its opening delimiter, and the
//! replacement of the old literal that leaves the rest of the file as it is.
//!
//! Positions in a text are counted in characters.

use vstd::prelude::*;
use vstd::multiset::Multiset;
use crate::diff::break_from;
use crate::diff::break_from_bounds;
use crate::diff::common_prefix;
use crate::diff::common_prefix_from;
use crate::diff::from_end;
use crate::diff::lines;
use crate::diff::lines_of_join;
use crate::diff::script;
use crate::diff::script_keeps_shared_end;
use crate::diff::script_keeps_shared_start;
use crate::diff::smaller;
use crate::diff::step_from_end;
use crate::diff::Edit;
use crate::inline::literal_content;
use crate::inline::render_for_literal;
use crate::settings::format_tokens_in;
use crate::settings::ignore_docs_in;
use crate::settings::Settings;
use crate::syntax::lexed;
use crate::syntax::stream_tokens;
use crate::text::append;
use crate::text::append_range;
use crate::text::append_repeat;
use crate::text::chars_of;
use crate::text::has_line_break;
use crate::text::leading_breaks_end;
use crate::text::drop_leading_breaks;
use crate::text::is_blank;
use crate::text::repeat;
use crate::text::same_text;
use crate::text::string_of;
use crate::text::trim;
use crate::text::trim_end;
use crate::text::trim_end_at;
use crate::text::trim_start;
use crate::text::trim_start_at;
use crate::tokens::TokenModel;
use crate::tokenstream::equal_under;
use crate::tokenstream::rendering;
use crate::tokenstream::tokenize;
use crate::tokenstream::tokens_equal;

verus! {

/// What a placeholder records, which decides its delimiters: token-shaped
/// content stands in braces, plain text in quotes.
#[derive(Clone, Copy, Debug, PartialEq, Eq, Structural)]
pub enum Kind {
    Tokens,
    Text,
}

/// How a placeholder is written in the source.
#[derive(Clone, Copy, Debug, PartialEq, Eq, Structural)]
pub enum Form {
    /// Braces with nothing but blanks between them.
    Empty,
    /// Braces and content on one line.
    CompactBrace,
    /// Braces with content on lines of its own.
    ExpandedBrace,
    /// A quoted string.
    StringLiteral,
}

/// An inline literal found in source text. It spans from its opening
/// delimiter, at `start`, to just after its closing delimiter, at `end`;
/// `indent` is the indentation of the line on which it opens.
#[derive(Clone, Copy, Debug, PartialEq, Eq, Structural)]
pub struct Placeholder {
    pub start: usize,
    pub end: usize,
    pub form: Form,
    pub indent: usize,
}

/// The delimiter that opens a literal of this kind.
pub open spec fn opener(kind: Kind) -> char {
    match kind {
        Kind::Tokens => '{',
        Kind::Text => '"',
    }
}

/// The delimiter that closes a literal of this kind.
pub open spec fn closer(kind: Kind) -> char {
    match kind {
        Kind::Tokens => '}',
        Kind::Text => '"',
    }
}

/// Whether `text[start..end]` is an inline literal: it follows an `@`, opens
/// with a brace or a quote and closes with the partner of that.
pub open spec fn is_placeholder(text: Seq<char>, start: int, end: int) -> bool {
    &&& 0 < start
    &&& start + 2 <= end <= text.len()
    &&& text[start - 1] == '@'
    &&& (text[start] == '{' && text[end - 1] == '}') || (text[start] == '"' && text[end - 1]
        == '"')
}

/// What stands between the delimiters of the literal `text[start..end]`.
pub open spec fn captured(text: Seq<char>, start: int, end: int) -> Seq<char> {
    text.subrange(start + 1, end - 1)
}

/// The form in which the literal `text[start..end]` is written.
pub open spec fn form_at(text: Seq<char>, start: int, end: int) -> Form {
    if text[start] == '"' {
        Form::StringLiteral
    } else if trim(captured(text, start, end)).len() == 0 {
        Form::Empty
    } else if captured(text, start, end).contains('\n') {
        Form::ExpandedBrace
    } else {
        Form::CompactBrace
    }
}

/// Where the line that holds position `at` starts.
pub open spec fn line_start(text: Seq<char>, at: int) -> int
    decreases at,
{
    if at <= 0 || at > text.len() {
        0
    } else if text[at - 1] == '\n' {
        at
    } else {
        line_start(text, at - 1)
    }
}

/// How many spaces and tabs stand in `text` from `from` on, before `limit`.
pub open spec fn blanks_from(text: Seq<char>, from: int, limit: int) -> nat
    decreases limit - from,
{
    if 0 <= from < limit <= text.len() && (text[from] == ' ' || text[from] == '\t') {
        1 + blanks_from(text, from + 1, limit)
    } else {
        0
    }
}

/// The indentation column of position `at`: the number of spaces and tabs
/// that lead the line on which it stands.
pub open spec fn indent_at(text: Seq<char>, at: int) -> nat {
    blanks_from(text, line_start(text, at), at)
}

/// The placeholder that `text[start..end]` is.
pub open spec fn placeholder_at(text: Seq<char>, start: int, end: int) -> Placeholder {
    Placeholder {
        start: start as usize,
        end: end as usize,
        form: form_at(text, start, end),
        indent: indent_at(text, start) as usize,
    }
}

/// Content as it stands inside a literal: token-shaped content as it is,
/// plain text with a backslash before each quote and backslash.
pub open spec fn escaped_from(kind: Kind, content: Seq<char>, i: int) -> Seq<char>
    decreases content.len() - i,
{
    if i < 0 || i >= content.len() {
        Seq::empty()
    } else if kind == Kind::Text && (content[i] == '"' || content[i] == '\\') {
        seq!['\\', content[i]] + escaped_from(kind, content, i + 1)
    } else {
        seq![content[i]] + escaped_from(kind, content, i + 1)
    }
}

/// Content of one line as a literal: token-shaped content between braces,
/// without the blanks at its ends and parted from each brace by a space, or
/// two braces alone where nothing is left; plain text between quotes.
pub open spec fn compact(kind: Kind, content: Seq<char>) -> Seq<char> {
    match kind {
        Kind::Tokens => if trim(content).len() == 0 {
            seq!['{', '}']
        } else {
            seq!['{', ' '] + trim(content) + seq![' ', '}']
        },
        Kind::Text => seq!['"'] + escaped_from(kind, content, 0) + seq!['"'],
    }
}

/// `body` from `i` on, with `margin` before the first character of every
/// line that is not empty. `fresh` says that `i` starts a line.
pub open spec fn indented_from(body: Seq<char>, i: int, margin: Seq<char>, fresh: bool) -> Seq<
    char,
>
    decreases body.len() - i,
{
    if i < 0 || i >= body.len() {
        Seq::empty()
    } else {
        let lead = if fresh && body[i] != '\n' {
            margin
        } else {
            Seq::empty()
        };
        lead + seq![body[i]] + indented_from(body, i + 1, margin, body[i] == '\n')
    }
}

/// The lines of content of several lines: the content without the line
/// breaks that lead it and the blanks that end it.
pub open spec fn body_of(content: Seq<char>) -> Seq<char> {
    trim_end(drop_leading_breaks(content))
}

/// Content of several lines as a literal: the opening delimiter, each line
/// of the content on a line of its own, four columns deeper than `indent`,
/// and the closing delimiter on a line of its own at `indent`.
pub open spec fn expanded(kind: Kind, indent: nat, content: Seq<char>) -> Seq<char> {
    seq![opener(kind), '\n'] + indented_from(
        escaped_from(kind, body_of(content), 0),
        0,
        repeat(' ', indent + 4),
        true,
    ) + seq!['\n'] + repeat(' ', indent) + seq![closer(kind)]
}

/// The literal for `content`, opened on a line that is indented by
/// `indent`.
pub open spec fn literal(kind: Kind, indent: nat, content: Seq<char>) -> Seq<char> {
    if content.contains('\n') {
        expanded(kind, indent, content)
    } else {
        compact(kind, content)
    }
}

/// `text` with `text[start..end]` replaced by `piece`.
pub open spec fn spliced(text: Seq<char>, start: int, end: int, piece: Seq<char>) -> Seq<char> {
    text.take(start) + piece + text.skip(end)
}

/// Reads the placeholder at `text[start..end]`. `None` where that span is
/// not an inline literal.
pub fn read_placeholder(text: &Vec<char>, start: usize, end: usize) -> (out: Option<Placeholder>)
    ensures
        out.is_some() == is_placeholder(text@, start as int, end as int),
        out matches Some(place) ==> place == placeholder_at(text@, start as int, end as int),
        out matches Some(place) ==> place.indent == indent_at(text@, start as int),
{
    if start == 0 || end > text.len() || end < 2 || start > end - 2 {
        return None;
    }
    if text[start - 1] != '@' {
        return None;
    }
    let braces = text[start] == '{' && text[end - 1] == '}';
    let quotes = text[start] == '"' && text[end - 1] == '"';
    if !braces && !quotes {
        return None;
    }
    let form = if quotes {
        Form::StringLiteral
    } else {
        let stop = trim_end_at(text, end - 1);
        let ghost inside = captured(text@, start as int, end as int);
        if stop <= start + 1 {
            proof {
                blank_run_trims_to_nothing(text@, start + 1, end - 1);
            }
            Form::Empty
        } else {
            proof {
                kept_end_is_kept_inside(text@, start + 1, end - 1, stop as int);
            }
            let content = slice(text, start + 1, end - 1);
            if has_line_break(&content) {
                Form::ExpandedBrace
            } else {
                Form::CompactBrace
            }
        }
    };
    let indent = indentation(text, start);
    Some(Placeholder { start, end, form, indent })
}

/// A copy of `text[from..to]`.
pub fn slice(text: &Vec<char>, from: usize, to: usize) -> (out: Vec<char>)
    requires
        from <= to <= text.len(),
    ensures
        out@ == text@.subrange(from as int, to as int),
{
    let mut out: Vec<char> = Vec::new();
    append_range(&mut out, text, from, to);
    assert(out@ =~= text@.subrange(from as int, to as int));
    out
}

/// Where the blanks that end `text[..to]` reach back to `from` or beyond,
/// `text[from..to]` is blank throughout, and trims to nothing.
pub proof fn blank_run_trims_to_nothing(text: Seq<char>, from: int, to: int)
    requires
        0 <= from <= to <= text.len(),
        trim_end(text.take(to)).len() <= from,
    ensures
        trim(text.subrange(from, to)).len() == 0,
    decreases to - from,
{
    let part = text.subrange(from, to);
    if from < to {
        assert(text.take(to).last() == text[to - 1]);
        assert(text.take(to).drop_last() =~= text.take(to - 1));
        trim_end_length(text.take(to));
        assert(is_blank(text[to - 1]));
        assert(part.last() == text[to - 1]);
        assert(part.drop_last() =~= text.subrange(from, to - 1));
        blank_run_trims_to_nothing(text, from, to - 1);
    } else {
        assert(part.len() == 0);
    }
}

/// Trimming never lengthens.
pub proof fn trim_end_length(text: Seq<char>)
    ensures
        trim_end(text).len() <= text.len(),
        trim_end(text).len() < text.len() ==> is_blank(text.last()),
        trim_end(text).len() > 0 ==> !is_blank(trim_end(text).last()),
    decreases text.len(),
{
    if text.len() > 0 && is_blank(text.last()) {
        trim_end_length(text.drop_last());
    }
}

/// Trimming the start never lengthens, and leaves a last character that is
/// not blank in its place.
pub proof fn trim_start_keeps_end(text: Seq<char>)
    requires
        text.len() > 0,
        !is_blank(text.last()),
    ensures
        trim_start(text).len() > 0,
    decreases text.len(),
{
    if is_blank(text.first()) {
        assert(text.len() > 1);
        assert(text.drop_first().last() == text.last());
        trim_start_keeps_end(text.drop_first());
    }
}

/// Where the blanks that end `text[..to]` begin at `stop`, after `from`,
/// `text[from..to]` does not trim to nothing.
pub proof fn kept_end_is_kept_inside(text: Seq<char>, from: int, to: int, stop: int)
    requires
        0 <= from < stop <= to <= text.len(),
        text.take(stop) == trim_end(text.take(to)),
    ensures
        trim(text.subrange(from, to)).len() > 0,
    decreases to - stop,
{
    let part = text.subrange(from, to);
    trim_end_length(text.take(to));
    if stop == to {
        assert(text.take(to) =~= trim_end(text.take(to)));
        assert(text.take(to).last() == text[to - 1]);
        assert(part.last() == text[to - 1]);
        assert(trim_end(part) == part);
        trim_start_keeps_end(part);
    } else {
        assert(text.take(stop).len() == stop);
        assert(text.take(to).last() == text[to - 1]);
        assert(text.take(to).drop_last() =~= text.take(to - 1));
        assert(part.last() == text[to - 1]);
        assert(part.drop_last() =~= text.subrange(from, to - 1));
        kept_end_is_kept_inside(text, from, to - 1, stop);
    }
}

/// The indentation column of position `at`.
pub fn indentation(text: &Vec<char>, at: usize) -> (indent: usize)
    requires
        at <= text.len(),
    ensures
        indent == indent_at(text@, at as int),
        indent <= at,
{
    let mut start: usize = at;
    while start > 0 && text[start - 1] != '\n'
        invariant
            start <= at <= text.len(),
            line_start(text@, at as int) == line_start(text@, start as int),
        decreases start,
    {
        start -= 1;
    }
    let mut count: usize = 0;
    while start + count < at && (text[start + count] == ' ' || text[start + count] == '\t')
        invariant
            start + count <= at <= text.len(),
            blanks_from(text@, start as int, at as int) == count + blanks_from(
                text@,
                start + count,
                at as int,
            ),
        decreases at - start - count,
    {
        count += 1;
    }
    count
}

/// Appends `content` as it stands inside a literal of this kind.
pub fn append_escaped(out: &mut Vec<char>, kind: Kind, content: &Vec<char>, from: usize, to: usize)
    requires
        from <= to <= content.len(),
    ensures
        final(out)@ == old(out)@ + escaped_from(
            kind,
            content@.subrange(from as int, to as int),
            0,
        ),
{
    let ghost part = content@.subrange(from as int, to as int);
    let mut i: usize = from;
    while i < to
        invariant
            from <= i <= to <= content.len(),
            part == content@.subrange(from as int, to as int),
            out@ + escaped_from(kind, part, i - from) == old(out)@ + escaped_from(kind, part, 0),
        decreases to - i,
    {
        let c = content[i];
        let ghost before = out@;
        let ghost rest = escaped_from(kind, part, i - from + 1);
        assert(part[i - from] == c);
        let quote = match kind {
            Kind::Text => c == '"' || c == '\\',
            Kind::Tokens => false,
        };
        if quote {
            out.push('\\');
            out.push(c);
            assert(out@ =~= before + seq!['\\', c]);
            assert(before + (seq!['\\', c] + rest) =~= (before + seq!['\\', c]) + rest);
        } else {
            out.push(c);
            assert(out@ =~= before + seq![c]);
            assert(before + (seq![c] + rest) =~= (before + seq![c]) + rest);
        }
        i += 1;
    }
    assert(out@ + Seq::<char>::empty() =~= out@);
}

/// The literal of one line for `content`.
pub fn lay_out_compact(kind: Kind, content: &Vec<char>) -> (out: Vec<char>)
    ensures
        out@ == compact(kind, content@),
{
    let mut out: Vec<char> = Vec::new();
    match kind {
        Kind::Tokens => {
            let end = trim_end_at(content, content.len());
            let start = trim_start_at(content, 0, end);
            assert(content@.take(content.len() as int) =~= content@);
            assert(content@.subrange(0, end as int) =~= content@.take(end as int));
            out.push('{');
            if start < end {
                out.push(' ');
                append_range(&mut out, content, start, end);
                out.push(' ');
                out.push('}');
                assert(out@ =~= seq!['{', ' '] + trim(content@) + seq![' ', '}']);
            } else {
                out.push('}');
                assert(out@ =~= seq!['{', '}']);
            }
        },
        Kind::Text => {
            out.push('"');
            append_escaped(&mut out, kind, content, 0, content.len());
            out.push('"');
            assert(content@.subrange(0, content.len() as int) =~= content@);
            assert(out@ =~= seq!['"'] + escaped_from(kind, content@, 0) + seq!['"']);
        },
    }
    out
}

/// Appends `body` with `margin` before every line that is not empty.
pub fn append_indented(out: &mut Vec<char>, body: &Vec<char>, margin: &Vec<char>)
    ensures
        final(out)@ == old(out)@ + indented_from(body@, 0, margin@, true),
{
    let mut i: usize = 0;
    let mut fresh = true;
    while i < body.len()
        invariant
            i <= body.len(),
            out@ + indented_from(body@, i as int, margin@, fresh) == old(out)@ + indented_from(
                body@,
                0,
                margin@,
                true,
            ),
        decreases body.len() - i,
    {
        let c = body[i];
        let ghost before = out@;
        let ghost rest = indented_from(body@, i + 1, margin@, c == '\n');
        if fresh && c != '\n' {
            append(out, margin);
            out.push(c);
            assert(out@ =~= before + (margin@ + seq![c]));
            assert(before + (margin@ + seq![c] + rest) =~= (before + (margin@ + seq![c])) + rest);
        } else {
            out.push(c);
            assert(out@ =~= before + (Seq::<char>::empty() + seq![c]));
            assert(before + (Seq::<char>::empty() + seq![c] + rest) =~= (before + (Seq::<
                char,
            >::empty() + seq![c])) + rest);
        }
        fresh = c == '\n';
        i += 1;
    }
    assert(out@ + Seq::<char>::empty() =~= out@);
}

/// The literal of several lines for `content`, opened on a line that is
/// indented by `indent`.
pub fn lay_out_expanded(kind: Kind, indent: usize, content: &Vec<char>) -> (out: Vec<char>)
    ensures
        out@ == expanded(kind, indent as nat, content@),
{
    let whole = content.len();
    let from = leading_breaks_end(content, 0, whole);
    assert(content@.subrange(0, whole as int) =~= content@);
    let rest = slice(content, from, whole);
    let to = trim_end_at(&rest, rest.len());
    assert(rest@.take(rest.len() as int) =~= rest@);
    assert(rest@.subrange(0, to as int) =~= rest@.take(to as int));
    let mut body: Vec<char> = Vec::new();
    append_escaped(&mut body, kind, &rest, 0, to);
    assert(body@ =~= escaped_from(kind, body_of(content@), 0));
    let mut margin: Vec<char> = Vec::new();
    append_repeat(&mut margin, ' ', indent);
    append_repeat(&mut margin, ' ', 4);
    assert(margin@ =~= repeat(' ', (indent + 4) as nat));
    let mut out: Vec<char> = Vec::new();
    match kind {
        Kind::Tokens => out.push('{'),
        Kind::Text => out.push('"'),
    }
    out.push('\n');
    assert(out@ =~= seq![opener(kind), '\n']);
    append_indented(&mut out, &body, &margin);
    out.push('\n');
    append_repeat(&mut out, ' ', indent);
    match kind {
        Kind::Tokens => out.push('}'),
        Kind::Text => out.push('"'),
    }
    out
}

/// The literal for `content`, opened on a line that is indented by
/// `indent`: on one line where the content has no line break, on lines of
/// its own where it has.
pub fn lay_out(kind: Kind, indent: usize, content: &Vec<char>) -> (out: Vec<char>)
    ensures
        out@ == literal(kind, indent as nat, content@),
{
    if has_line_break(content) {
        lay_out_expanded(kind, indent, content)
    } else {
        lay_out_compact(kind, content)
    }
}

/// Replaces `text[start..end]` by `piece`.
pub fn splice(text: &Vec<char>, start: usize, end: usize, piece: &Vec<char>) -> (out: Vec<char>)
    requires
        start <= end <= text.len(),
    ensures
        out@ == spliced(text@, start as int, end as int, piece@),
{
    let mut out: Vec<char> = Vec::new();
    append_range(&mut out, text, 0, start);
    append(&mut out, piece);
    append_range(&mut out, text, end, text.len());
    assert(out@ =~= spliced(text@, start as int, end as int, piece@));
    out
}

/// Why a patch was not made.
#[derive(Clone, Copy, Debug, PartialEq, Eq, Structural)]
pub enum PatchError {
    /// The span given is not an inline literal.
    NoPlaceholder,
    /// The recorded content does not tokenize.
    Malformed,
}

/// The text with the literal at `text[start..end]` rewritten for `content`.
pub open spec fn patched(text: Seq<char>, start: int, end: int, kind: Kind, content: Seq<char>)
    -> Seq<char> {
    spliced(text, start, end, literal(kind, indent_at(text, start), content))
}

/// Whether the literal at `text[start..end]` already records the tokens
/// `value`: what stands between its delimiters reads as tokens that are
/// equal to them.
pub open spec fn already_recorded(
    ignore_docs: bool,
    text: Seq<char>,
    start: int,
    end: int,
    value: Seq<TokenModel>,
) -> bool {
    equal_under(ignore_docs, lexed(captured(text, start, end))->0, value)
}

/// Rewrites the literal at `place` for `content`, unless `same` says that
/// it records the content already.
pub fn patch_at(
    text: &Vec<char>,
    place: &Placeholder,
    kind: Kind,
    content: &Vec<char>,
    same: bool,
) -> (out: Option<Vec<char>>)
    requires
        place.start <= place.end <= text.len(),
        place.indent == indent_at(text@, place.start as int),
    ensures
        same ==> out is None,
        !same ==> out is Some,
        out matches Some(new_text) ==> new_text@ == patched(
            text@,
            place.start as int,
            place.end as int,
            kind,
            content@,
        ),
{
    if same {
        return None;
    }
    let piece = lay_out(kind, place.indent, content);
    Some(splice(text, place.start, place.end, &piece))
}

/// Brings the token literal at `source[start..end]` up to date with
/// `value`.
///
/// The span runs from the opening delimiter of the literal to just after its
/// closing delimiter. Where the literal records tokens equal to the value,
/// the outcome is `Ok(None)`: the file stays as it is, whatever the spacing
/// of the literal. Otherwise the outcome is the new text of the file, in
/// which the literal is written anew for the value as it prints, and nothing
/// else has changed.
pub fn patch_source(
    settings: &Settings,
    source: &str,
    start: usize,
    end: usize,
    value: &proc_macro2::TokenStream,
) -> (out: Result<Option<String>, PatchError>)
    ensures
        out == Err::<Option<String>, PatchError>(PatchError::NoPlaceholder) <==> !is_placeholder(
            source@,
            start as int,
            end as int,
        ),
        out == Err::<Option<String>, PatchError>(PatchError::Malformed) <==> is_placeholder(
            source@,
            start as int,
            end as int,
        ) && lexed(captured(source@, start as int, end as int)) is None,
        out == Ok::<Option<String>, PatchError>(None) <==> is_placeholder(
            source@,
            start as int,
            end as int,
        ) && lexed(captured(source@, start as int, end as int)) is Some && already_recorded(
            ignore_docs_in(settings@),
            source@,
            start as int,
            end as int,
            stream_tokens(*value),
        ),
        is_placeholder(source@, start as int, end as int) && lexed(
            captured(source@, start as int, end as int),
        ) is Some ==> out is Ok,
        is_placeholder(source@, start as int, end as int) && lexed(
            captured(source@, start as int, end as int),
        ) is Some && !already_recorded(
            ignore_docs_in(settings@),
            source@,
            start as int,
            end as int,
            stream_tokens(*value),
        ) ==> out matches Ok(Some(_)),
        out matches Ok(Some(new_text)) ==> new_text@ == patched(
            source@,
            start as int,
            end as int,
            Kind::Tokens,
            literal_content(
                rendering(
                    format_tokens_in(settings@),
                    ignore_docs_in(settings@),
                    stream_tokens(*value),
                ),
            ),
        ),
{
    match plan_update(settings, source, start, end, value) {
        Ok(Some(update)) => {
            let text = chars_of(source);
            Ok(Some(string_of(&splice(&text, start, end, &update.text))))
        },
        Ok(None) => Ok(None),
        Err(error) => Err(error),
    }
}

/// Brings the literal at `source[start..end]` up to date with plain text.
///
/// Where the literal reads as it would be written for `content`, the
/// outcome is `Ok(None)`. Otherwise the outcome is the new text of the file,
/// in which the literal is written anew, in quotes, and nothing else has
/// changed.
pub fn patch_text(source: &str, start: usize, end: usize, content: &str) -> (out: Result<
    Option<String>,
    PatchError,
>)
    ensures
        out == Err::<Option<String>, PatchError>(PatchError::NoPlaceholder) <==> !is_placeholder(
            source@,
            start as int,
            end as int,
        ),
        out == Ok::<Option<String>, PatchError>(None) <==> is_placeholder(
            source@,
            start as int,
            end as int,
        ) && source@.subrange(start as int, end as int) == literal(
            Kind::Text,
            indent_at(source@, start as int),
            content@,
        ),
        is_placeholder(source@, start as int, end as int) ==> out is Ok,
        is_placeholder(source@, start as int, end as int) && source@.subrange(
            start as int,
            end as int,
        ) != literal(Kind::Text, indent_at(source@, start as int), content@) ==> out matches Ok(
            Some(_),
        ),
        out matches Ok(Some(new_text)) ==> new_text@ == patched(
            source@,
            start as int,
            end as int,
            Kind::Text,
            content@,
        ),
{
    let text = chars_of(source);
    let fresh = chars_of(content);
    let place = match read_placeholder(&text, start, end) {
        Some(place) => place,
        None => {
            return Err(PatchError::NoPlaceholder);
        },
    };
    let piece = lay_out(Kind::Text, place.indent, &fresh);
    let current = slice(&text, start, end);
    let same = same_text(&current, &piece);
    match patch_at(&text, &place, Kind::Text, &fresh, same) {
        Some(new_text) => Ok(Some(string_of(&new_text))),
        None => Ok(None),
    }
}

/// Writing a literal anew where it reads as it would be written leaves the
/// text as it is.
pub proof fn same_literal_same_text(text: Seq<char>, start: int, end: int)
    requires
        0 <= start <= end <= text.len(),
    ensures
        spliced(text, start, end, text.subrange(start, end)) == text,
{
    assert(spliced(text, start, end, text.subrange(start, end)) =~= text);
}

/// A patch changes the span of the literal and nothing else: the text
/// before the span and the text after it are in the new text as they were,
/// and between them stands the new literal.
pub proof fn patch_keeps_surroundings(text: Seq<char>, start: int, end: int, piece: Seq<char>)
    requires
        0 <= start <= end <= text.len(),
    ensures
        spliced(text, start, end, piece).len() == text.len() - (end - start) + piece.len(),
        spliced(text, start, end, piece).take(start) == text.take(start),
        spliced(text, start, end, piece).skip(start + piece.len()) == text.skip(end),
        spliced(text, start, end, piece).subrange(start, start + piece.len()) == piece,
{
    let new_text = spliced(text, start, end, piece);
    assert(new_text.take(start) =~= text.take(start));
    assert(new_text.skip(start + piece.len()) =~= text.skip(end));
    assert(new_text.subrange(start, start + piece.len()) =~= piece);
}

/// Where the line that holds position `at` ends: after its line feed, or at
/// the end of the text.
pub open spec fn line_end(text: Seq<char>, at: int) -> int {
    let stop = break_from(text, at);
    if 0 <= stop < text.len() {
        stop + 1
    } else {
        text.len() as int
    }
}

/// The lines that stand wholly before the line that holds position `at`.
pub open spec fn lines_before(text: Seq<char>, at: int) -> Seq<Seq<char>> {
    lines(text.take(line_start(text, at)))
}

/// The lines that stand wholly after the line that holds position `at`.
pub open spec fn lines_after(text: Seq<char>, at: int) -> Seq<Seq<char>> {
    lines(text.skip(line_end(text, at)))
}

/// A line starts at or before any position on it, after a line feed or at
/// the start of the text.
pub proof fn line_start_bounds(text: Seq<char>, at: int)
    requires
        0 <= at <= text.len(),
    ensures
        0 <= line_start(text, at) <= at,
        line_start(text, at) > 0 ==> text[line_start(text, at) - 1] == '\n',
    decreases at,
{
    if at > 0 && text[at - 1] != '\n' {
        line_start_bounds(text, at - 1);
    }
}

/// The lines before the line on which a replaced span opens are lines of
/// the new text as they were of the old.
pub proof fn lines_before_stay(text: Seq<char>, start: int, end: int, piece: Seq<char>)
    requires
        0 <= start <= end <= text.len(),
    ensures
        lines_before(text, start).len() <= lines(text).len(),
        lines_before(text, start).len() <= lines(spliced(text, start, end, piece)).len(),
        forall|k: int|
            0 <= k < lines_before(text, start).len() ==> #[trigger] lines(text)[k]
                == lines_before(text, start)[k],
        forall|k: int|
            0 <= k < lines_before(text, start).len() ==> #[trigger] lines(
                spliced(text, start, end, piece),
            )[k] == lines_before(text, start)[k],
{
    let new_text = spliced(text, start, end, piece);
    line_start_bounds(text, start);
    let ls = line_start(text, start);
    let u = text.take(ls);
    let old_rest = text.skip(ls);
    let new_rest = text.subrange(ls, start) + piece + text.skip(end);
    assert(text =~= u + old_rest);
    assert(new_text =~= u + new_rest);
    if u.len() > 0 {
        assert(u.last() == text[ls - 1]);
    }
    lines_of_join(u, old_rest);
    lines_of_join(u, new_rest);
    assert(lines(text) == lines(u) + lines(old_rest));
    assert(lines(new_text) == lines(u) + lines(new_rest));
}

/// The lines after the line on which a replaced span closes are lines of
/// the new text as they were of the old.
pub proof fn lines_after_stay(text: Seq<char>, start: int, end: int, piece: Seq<char>)
    requires
        0 <= start <= end <= text.len(),
    ensures
        lines_after(text, end).len() <= lines(text).len(),
        lines_after(text, end).len() <= lines(spliced(text, start, end, piece)).len(),
        forall|t: int|
            0 <= t < lines_after(text, end).len() ==> #[trigger] from_end(lines(text), t)
                == from_end(lines_after(text, end), t),
        forall|t: int|
            0 <= t < lines_after(text, end).len() ==> #[trigger] from_end(
                lines(spliced(text, start, end, piece)),
                t,
            ) == from_end(lines_after(text, end), t),
{
    let new_text = spliced(text, start, end, piece);
    break_from_bounds(text, end);
    let le = line_end(text, end);
    let tail = text.skip(le);
    let after = lines_after(text, end);
    let old_head = text.take(le);
    let new_head = text.take(start) + piece + text.subrange(end, le);
    assert(text =~= old_head + tail);
    assert(new_text =~= new_head + tail);
    if break_from(text, end) < text.len() {
        assert(le == break_from(text, end) + 1);
        assert(old_head.last() == text[le - 1]);
        assert(new_head.last() == text[le - 1]);
        lines_of_join(old_head, tail);
        lines_of_join(new_head, tail);
        let m = after.len() as int;
        let old_lines = lines(text);
        let new_lines = lines(new_text);
        assert(old_lines == lines(old_head) + after);
        assert(new_lines == lines(new_head) + after);
        assert forall|t: int| 0 <= t < m implies #[trigger] from_end(old_lines, t) == from_end(
            after,
            t,
        ) by {
            assert(old_lines[old_lines.len() - 1 - t] == after[m - 1 - t]);
        }
        assert forall|t: int| 0 <= t < m implies #[trigger] from_end(new_lines, t) == from_end(
            after,
            t,
        ) by {
            assert(new_lines[new_lines.len() - 1 - t] == after[m - 1 - t]);
        }
    } else {
        assert(tail.len() == 0);
        assert(after.len() == 0);
    }
}

/// A patch changes no line but those on which the literal stands: a diff of
/// the old text and the new keeps every line before the line on which the
/// literal opens, and every line after the line on which it closes, unless
/// it has counted that line among the lines shared at the start.
pub proof fn patch_changes_no_other_line(text: Seq<char>, start: int, end: int, piece: Seq<char>)
    requires
        0 <= start <= end <= text.len(),
    ensures
        ({
            let old_lines = lines(text);
            let new_lines = lines(spliced(text, start, end, piece));
            let steps = script(old_lines, new_lines);
            let n = lines_before(text, start).len();
            let m = lines_after(text, end).len();
            &&& steps.len() >= n
            &&& forall|k: int| 0 <= k < n ==> #[trigger] steps[k] == Edit::Keep
            &&& common_prefix(old_lines, new_lines) + m <= smaller(
                old_lines.len() as int,
                new_lines.len() as int,
            ) ==> forall|t: int| 0 <= t < m ==> #[trigger] step_from_end(steps, t) == Edit::Keep
        }),
{
    let old_lines = lines(text);
    let new_lines = lines(spliced(text, start, end, piece));
    let before = lines_before(text, start);
    let after = lines_after(text, end);
    lines_before_stay(text, start, end, piece);
    assert forall|k: int| 0 <= k < before.len() implies old_lines[k] == new_lines[k] by {
        assert(old_lines[k] == before[k]);
        assert(new_lines[k] == before[k]);
    }
    script_keeps_shared_start(old_lines, new_lines, before.len() as int);
    lines_after_stay(text, start, end, piece);
    let m = after.len() as int;
    if common_prefix(old_lines, new_lines) + m <= smaller(
        old_lines.len() as int,
        new_lines.len() as int,
    ) {
        assert forall|t: int| 0 <= t < m implies #[trigger] from_end(old_lines, t) == from_end(
            new_lines,
            t,
        ) by {
            assert(from_end(old_lines, t) == from_end(after, t));
            assert(from_end(new_lines, t) == from_end(after, t));
        }
        script_keeps_shared_end(old_lines, new_lines, m);
    }
}

/// A replacement waiting to be made in a file: the text for the span from
/// `start` up to `end`, and the form in which that text is written.
pub struct PendingUpdate {
    pub start: usize,
    pub end: usize,
    pub text: Vec<char>,
    pub form: Form,
}

/// The mathematical value of a `PendingUpdate`.
pub struct UpdateModel {
    pub start: int,
    pub end: int,
    pub text: Seq<char>,
    pub form: Form,
}

/// The form in which the literal for `content` is written.
pub open spec fn chosen_form(kind: Kind, content: Seq<char>) -> Form {
    match kind {
        Kind::Text => Form::StringLiteral,
        Kind::Tokens => if content.contains('\n') {
            Form::ExpandedBrace
        } else if trim(content).len() == 0 {
            Form::Empty
        } else {
            Form::CompactBrace
        },
    }
}

/// The form in which the literal for `content` is written.
pub fn choose_form(kind: Kind, content: &Vec<char>) -> (form: Form)
    ensures
        form == chosen_form(kind, content@),
{
    match kind {
        Kind::Text => Form::StringLiteral,
        Kind::Tokens => {
            if has_line_break(content) {
                Form::ExpandedBrace
            } else {
                let end = trim_end_at(content, content.len());
                let start = trim_start_at(content, 0, end);
                assert(content@.take(content.len() as int) =~= content@);
                assert(content@.subrange(0, end as int) =~= content@.take(end as int));
                if start < end {
                    Form::CompactBrace
                } else {
                    Form::Empty
                }
            }
        },
    }
}

impl View for PendingUpdate {
    type V = UpdateModel;

    open spec fn view(&self) -> UpdateModel {
        UpdateModel {
            start: self.start as int,
            end: self.end as int,
            text: self.text@,
            form: self.form,
        }
    }
}

/// The values of a run of updates.
pub open spec fn update_models(updates: Seq<PendingUpdate>) -> Seq<UpdateModel> {
    updates.map_values(|update: PendingUpdate| update@)
}

/// Whether the updates from `i` on stand in order in a text of length
/// `len`, none before `floor`: each span is within the text, and each starts
/// where the one before it has ended, or later.
pub open spec fn in_order_from(updates: Seq<UpdateModel>, i: int, floor: int, len: int) -> bool
    decreases updates.len() - i,
{
    if i < 0 || i >= updates.len() {
        true
    } else {
        &&& floor <= updates[i].start <= updates[i].end <= len
        &&& in_order_from(updates, i + 1, updates[i].end, len)
    }
}

/// Whether the updates stand in order in a text of length `len`, and none
/// overlaps another.
pub open spec fn in_order(updates: Seq<UpdateModel>, len: int) -> bool {
    in_order_from(updates, 0, 0, len)
}

/// The text from `pos` on with the updates from `i` on made in one pass:
/// what stands before each span, the replacement for it, and so on to the
/// end of the text.
pub open spec fn woven(text: Seq<char>, updates: Seq<UpdateModel>, i: int, pos: int) -> Seq<char>
    decreases updates.len() - i,
{
    if i < 0 || i >= updates.len() {
        text.skip(pos)
    } else {
        text.subrange(pos, updates[i].start) + updates[i].text + woven(
            text,
            updates,
            i + 1,
            updates[i].end,
        )
    }
}

/// The text with the updates made one after the other, the last span
/// first, so that no replacement moves a span that is still to be replaced.
pub open spec fn applied(text: Seq<char>, updates: Seq<UpdateModel>) -> Seq<char>
    decreases updates.len(),
{
    if updates.len() == 0 {
        text
    } else {
        let last = updates.last();
        applied(spliced(text, last.start, last.end, last.text), updates.drop_last())
    }
}

/// Makes all the updates of one file in a single pass over its text. `None`
/// where the updates do not stand in order in the text or overlap.
pub fn apply_updates(text: &Vec<char>, updates: &Vec<PendingUpdate>) -> (out: Option<Vec<char>>)
    ensures
        out.is_some() == in_order(update_models(updates@), text.len() as int),
        out matches Some(new_text) ==> new_text@ == woven(text@, update_models(updates@), 0, 0),
        out matches Some(new_text) ==> new_text@ == applied(text@, update_models(updates@)),
{
    let ghost all = update_models(updates@);
    let ghost whole = woven(text@, all, 0, 0);
    let mut out: Vec<char> = Vec::new();
    let mut pos: usize = 0;
    let mut i: usize = 0;
    assert(out@ + whole =~= whole);
    while i < updates.len()
        invariant
            i <= updates.len(),
            pos <= text.len(),
            all == update_models(updates@),
            in_order(all, text.len() as int) == in_order_from(
                all,
                i as int,
                pos as int,
                text.len() as int,
            ),
            out@ + woven(text@, all, i as int, pos as int) == whole,
        decreases updates.len() - i,
    {
        let update = &updates[i];
        assert(all[i as int] == update@);
        if update.start < pos || update.end < update.start || update.end > text.len() {
            return None;
        }
        let ghost before = out@;
        let ghost rest = woven(text@, all, i + 1, update.end as int);
        append_range(&mut out, text, pos, update.start);
        append(&mut out, &update.text);
        assert(before + (text@.subrange(pos as int, update.start as int) + update.text@ + rest)
            =~= (before + text@.subrange(pos as int, update.start as int) + update.text@) + rest);
        pos = update.end;
        i += 1;
    }
    append_range(&mut out, text, pos, text.len());
    assert(text@.subrange(pos as int, text.len() as int) =~= text@.skip(pos as int));
    proof {
        one_pass_is_last_first(text@, all);
    }
    Some(out)
}

/// Updates in order lie one after the other: from `i` on, each is within
/// the text and at or after `floor`.
pub proof fn in_order_bounds(updates: Seq<UpdateModel>, i: int, floor: int, len: int, j: int)
    requires
        0 <= i <= j < updates.len(),
        in_order_from(updates, i, floor, len),
    ensures
        floor <= updates[j].start <= updates[j].end <= len,
        in_order_from(updates, j, floor, len),
        in_order_from(updates, j + 1, updates[j].end, len),
    decreases j - i,
{
    if i < j {
        in_order_bounds(updates, i + 1, updates[i].end, len, j);
    }
}

/// Updates in order stay in order without the last of them, in the text
/// that the last has been made in.
pub proof fn in_order_without_last(updates: Seq<UpdateModel>, i: int, floor: int, len: int, new_len: int)
    requires
        updates.len() > 0,
        0 <= i < updates.len(),
        in_order_from(updates, i, floor, len),
        updates.last().start <= new_len,
    ensures
        in_order_from(updates.drop_last(), i, floor, new_len),
    decreases updates.len() - i,
{
    let fewer = updates.drop_last();
    if i < fewer.len() {
        assert(fewer[i] == updates[i]);
        in_order_bounds(updates, i, floor, len, updates.len() - 1);
        in_order_bounds(updates, i + 1, updates[i].end, len, updates.len() - 1);
        in_order_without_last(updates, i + 1, updates[i].end, len, new_len);
    }
}

/// Making the last update first does not change what the pass over the
/// others writes.
pub proof fn woven_without_last(text: Seq<char>, updates: Seq<UpdateModel>, i: int, pos: int)
    requires
        updates.len() > 0,
        0 <= i < updates.len(),
        0 <= pos,
        in_order_from(updates, i, pos, text.len() as int),
    ensures
        ({
            let last = updates.last();
            woven(spliced(text, last.start, last.end, last.text), updates.drop_last(), i, pos)
                == woven(text, updates, i, pos)
        }),
    decreases updates.len() - i,
{
    let last = updates.last();
    let fewer = updates.drop_last();
    let new_text = spliced(text, last.start, last.end, last.text);
    in_order_bounds(updates, i, pos, text.len() as int, updates.len() - 1);
    if i == updates.len() - 1 {
        assert(woven(text, updates, i + 1, last.end) == text.skip(last.end));
        assert(new_text.skip(pos) =~= text.subrange(pos, last.start) + last.text + text.skip(
            last.end,
        ));
    } else {
        assert(fewer[i] == updates[i]);
        in_order_bounds(updates, i + 1, updates[i].end, text.len() as int, updates.len() - 1);
        woven_without_last(text, updates, i + 1, updates[i].end);
        assert(new_text.subrange(pos, updates[i].start) =~= text.subrange(pos, updates[i].start));
    }
}

/// One pass over the text makes the updates as making them one after the
/// other does, the last span first.
pub proof fn one_pass_is_last_first(text: Seq<char>, updates: Seq<UpdateModel>)
    requires
        in_order(updates, text.len() as int),
    ensures
        woven(text, updates, 0, 0) == applied(text, updates),
    decreases updates.len(),
{
    if updates.len() == 0 {
        assert(text.skip(0) =~= text);
    } else {
        let last = updates.last();
        let new_text = spliced(text, last.start, last.end, last.text);
        in_order_bounds(updates, 0, 0, text.len() as int, updates.len() - 1);
        in_order_without_last(updates, 0, 0, text.len() as int, new_text.len() as int);
        one_pass_is_last_first(new_text, updates.drop_last());
        woven_without_last(text, updates, 0, 0);
    }
}

/// The literal that records the tokens `value` at position `start` of
/// `text`, under the two switches.
pub open spec fn literal_for(
    format: bool,
    ignore_docs: bool,
    text: Seq<char>,
    start: int,
    value: Seq<TokenModel>,
) -> Seq<char> {
    literal(
        Kind::Tokens,
        indent_at(text, start),
        literal_content(rendering(format, ignore_docs, value)),
    )
}

/// Plans the update that brings the token literal at `source[start..end]`
/// up to date with `value`: `Ok(None)` where the literal records tokens
/// equal to the value, else the replacement of the literal's span by the
/// literal written anew.
pub fn plan_update(
    settings: &Settings,
    source: &str,
    start: usize,
    end: usize,
    value: &proc_macro2::TokenStream,
) -> (out: Result<Option<PendingUpdate>, PatchError>)
    ensures
        (out matches Err(PatchError::NoPlaceholder)) <==> !is_placeholder(
            source@,
            start as int,
            end as int,
        ),
        (out matches Err(PatchError::Malformed)) <==> is_placeholder(
            source@,
            start as int,
            end as int,
        ) && lexed(captured(source@, start as int, end as int)) is None,
        (out matches Ok(None)) <==> is_placeholder(source@, start as int, end as int) && lexed(
            captured(source@, start as int, end as int),
        ) is Some && already_recorded(
            ignore_docs_in(settings@),
            source@,
            start as int,
            end as int,
            stream_tokens(*value),
        ),
        is_placeholder(source@, start as int, end as int) && lexed(
            captured(source@, start as int, end as int),
        ) is Some ==> out is Ok,
        is_placeholder(source@, start as int, end as int) && lexed(
            captured(source@, start as int, end as int),
        ) is Some && !already_recorded(
            ignore_docs_in(settings@),
            source@,
            start as int,
            end as int,
            stream_tokens(*value),
        ) ==> out matches Ok(Some(_)),
        out matches Ok(Some(update)) ==> update@ == (UpdateModel {
            start: start as int,
            end: end as int,
            text: literal_for(
                format_tokens_in(settings@),
                ignore_docs_in(settings@),
                source@,
                start as int,
                stream_tokens(*value),
            ),
            form: chosen_form(
                Kind::Tokens,
                literal_content(
                    rendering(
                        format_tokens_in(settings@),
                        ignore_docs_in(settings@),
                        stream_tokens(*value),
                    ),
                ),
            ),
        }),
{
    let text = chars_of(source);
    let place = match read_placeholder(&text, start, end) {
        Some(place) => place,
        None => {
            return Err(PatchError::NoPlaceholder);
        },
    };
    let inside = slice(&text, start + 1, end - 1);
    let same = match tokenize(string_of(&inside).as_str()) {
        Some(recorded) => tokens_equal(settings, &recorded, value),
        None => {
            return Err(PatchError::Malformed);
        },
    };
    if same {
        return Ok(None);
    }
    let content = chars_of(render_for_literal(settings, value).as_str());
    let piece = lay_out(Kind::Tokens, place.indent, &content);
    let form = choose_form(Kind::Tokens, &content);
    Ok(Some(PendingUpdate { start, end, text: piece, form }))
}

/// Whether the runner only reports what differs or writes it.
#[derive(Clone, Copy, Debug, PartialEq, Eq, Structural)]
pub enum Mode {
    ReportOnly,
    Accept,
}

/// What a value that differs from its recorded literal comes to: the path
/// of the file, the diff that the update would make in it, and the literal
/// proposed.
pub struct Mismatch {
    pub path: String,
    pub diff: String,
    pub proposed: String,
}

/// How an assertion ends.
pub enum Reconciled {
    /// The literal records the value.
    Matches,
    /// It does not, and the runner only reports.
    Differs(Mismatch),
    /// It does not, and the runner accepts: the update to make.
    Update(PendingUpdate),
}

/// Settles one assertion: compares `value` with the token literal at
/// `source[start..end]` of the file at `path`. Where they are equal the
/// assertion matches. Where they are not, the outcome in report-only mode is
/// the mismatch, with the diff that the update would make and the literal
/// proposed; in accept mode it is the update itself.
pub fn reconcile(
    settings: &Settings,
    mode: Mode,
    path: &str,
    source: &str,
    start: usize,
    end: usize,
    value: &proc_macro2::TokenStream,
) -> (out: Result<Reconciled, PatchError>)
    ensures
        (out matches Err(PatchError::NoPlaceholder)) <==> !is_placeholder(
            source@,
            start as int,
            end as int,
        ),
        (out matches Err(PatchError::Malformed)) <==> is_placeholder(
            source@,
            start as int,
            end as int,
        ) && lexed(captured(source@, start as int, end as int)) is None,
        (out matches Ok(Reconciled::Matches)) <==> is_placeholder(
            source@,
            start as int,
            end as int,
        ) && lexed(captured(source@, start as int, end as int)) is Some && already_recorded(
            ignore_docs_in(settings@),
            source@,
            start as int,
            end as int,
            stream_tokens(*value),
        ),
        is_placeholder(source@, start as int, end as int) && lexed(
            captured(source@, start as int, end as int),
        ) is Some ==> out is Ok,
        is_placeholder(source@, start as int, end as int) && lexed(
            captured(source@, start as int, end as int),
        ) is Some && !already_recorded(
            ignore_docs_in(settings@),
            source@,
            start as int,
            end as int,
            stream_tokens(*value),
        ) ==> match mode {
            Mode::ReportOnly => out matches Ok(Reconciled::Differs(_)),
            Mode::Accept => out matches Ok(Reconciled::Update(_)),
        },
        out matches Ok(Reconciled::Differs(_)) ==> mode == Mode::ReportOnly,
        out matches Ok(Reconciled::Update(_)) ==> mode == Mode::Accept,
        out matches Ok(Reconciled::Update(update)) ==> update@ == (UpdateModel {
            start: start as int,
            end: end as int,
            text: literal_for(
                format_tokens_in(settings@),
                ignore_docs_in(settings@),
                source@,
                start as int,
                stream_tokens(*value),
            ),
            form: chosen_form(
                Kind::Tokens,
                literal_content(
                    rendering(
                        format_tokens_in(settings@),
                        ignore_docs_in(settings@),
                        stream_tokens(*value),
                    ),
                ),
            ),
        }),
        out matches Ok(Reconciled::Differs(mismatch)) ==> {
            let proposed = literal_for(
                format_tokens_in(settings@),
                ignore_docs_in(settings@),
                source@,
                start as int,
                stream_tokens(*value),
            );
            &&& mismatch.path@ == path@
            &&& mismatch.proposed@ == proposed
            &&& mismatch.diff@ == crate::diff::diff_of_lines(
                crate::diff::original() + seq![':', ' '] + path@,
                crate::diff::updated() + seq![':', ' '] + path@,
                lines(source@),
                lines(spliced(source@, start as int, end as int, proposed)),
            )
        },
{
    let update = match plan_update(settings, source, start, end, value) {
        Ok(Some(update)) => update,
        Ok(None) => {
            return Ok(Reconciled::Matches);
        },
        Err(error) => {
            return Err(error);
        },
    };
    match mode {
        Mode::Accept => Ok(Reconciled::Update(update)),
        Mode::ReportOnly => {
            let text = chars_of(source);
            let new_text = string_of(&splice(&text, start, end, &update.text));
            let diff = crate::diff::file_diff(path, source, new_text.as_str());
            Ok(
                Reconciled::Differs(
                    Mismatch {
                        path: string_of(&chars_of(path)),
                        diff,
                        proposed: string_of(&update.text),
                    },
                ),
            )
        },
    }
}

/// The line of a position starts where the text before the position says.
pub proof fn line_start_reads_before(one: Seq<char>, other: Seq<char>, at: int)
    requires
        0 <= at <= one.len(),
        at <= other.len(),
        one.take(at) == other.take(at),
    ensures
        line_start(one, at) == line_start(other, at),
    decreases at,
{
    if at > 0 {
        assert(one[at - 1] == one.take(at)[at - 1]);
        assert(other[at - 1] == other.take(at)[at - 1]);
        if one[at - 1] != '\n' {
            assert(one.take(at - 1) =~= one.take(at).take(at - 1));
            assert(other.take(at - 1) =~= other.take(at).take(at - 1));
            line_start_reads_before(one, other, at - 1);
        }
    }
}

/// The blanks before a position are those of the text before the position.
pub proof fn blanks_read_before(one: Seq<char>, other: Seq<char>, from: int, at: int)
    requires
        0 <= from <= at <= one.len(),
        at <= other.len(),
        one.take(at) == other.take(at),
    ensures
        blanks_from(one, from, at) == blanks_from(other, from, at),
    decreases at - from,
{
    if from < at {
        assert(one[from] == one.take(at)[from]);
        assert(other[from] == other.take(at)[from]);
        blanks_read_before(one, other, from + 1, at);
    }
}

/// The literal for any content opens and closes with the delimiters of its
/// kind.
pub proof fn literal_has_its_delimiters(kind: Kind, indent: nat, content: Seq<char>)
    ensures
        literal(kind, indent, content).len() >= 2,
        literal(kind, indent, content).first() == opener(kind),
        literal(kind, indent, content).last() == closer(kind),
{
}

/// A patch made twice changes nothing more: in the text that a patch has
/// written, the new literal stands where the old one stood, on a line with
/// the same indentation, and writing it again for the same content gives
/// the same text.
pub proof fn patch_again_is_same(text: Seq<char>, start: int, end: int, kind: Kind, content: Seq<char>)
    requires
        is_placeholder(text, start, end),
        text[start] == opener(kind),
    ensures
        ({
            let once = patched(text, start, end, kind, content);
            let new_end = start + literal(kind, indent_at(text, start), content).len();
            &&& is_placeholder(once, start, new_end)
            &&& indent_at(once, start) == indent_at(text, start)
            &&& patched(once, start, new_end, kind, content) == once
        }),
{
    let piece = literal(kind, indent_at(text, start), content);
    let once = patched(text, start, end, kind, content);
    let new_end = start + piece.len();
    literal_has_its_delimiters(kind, indent_at(text, start), content);
    patch_keeps_surroundings(text, start, end, piece);
    assert(once[start - 1] == text[start - 1]) by {
        assert(once.take(start)[start - 1] == text.take(start)[start - 1]);
    }
    assert(once[start] == piece[0]) by {
        assert(once.subrange(start, start + piece.len())[0] == piece[0]);
    }
    assert(once[new_end - 1] == piece.last()) by {
        assert(once.subrange(start, start + piece.len())[piece.len() - 1] == piece.last());
    }
    line_start_reads_before(once, text, start);
    line_start_bounds(text, start);
    blanks_read_before(once, text, line_start(text, start), start);
    assert(once.subrange(start, new_end) == piece);
    same_literal_same_text(once, start, new_end);
}

/// Whether the span of `one` comes before that of `other` or is the same:
/// it starts earlier, or starts at the same place and ends no later.
pub open spec fn comes_first(one: UpdateModel, other: UpdateModel) -> bool {
    one.start < other.start || (one.start == other.start && one.end <= other.end)
}

/// The place of `update` among updates that are sorted by their spans:
/// after those whose spans come before its span or are the same.
pub open spec fn place_by_start(sorted: Seq<UpdateModel>, update: UpdateModel) -> nat
    decreases sorted.len(),
{
    if sorted.len() > 0 && comes_first(sorted[0], update) {
        1 + place_by_start(sorted.drop_first(), update)
    } else {
        0
    }
}

/// `sorted` with the updates from `i` on put in, each at its place.
pub open spec fn arranged_from(updates: Seq<UpdateModel>, i: int, sorted: Seq<UpdateModel>) -> Seq<
    UpdateModel,
>
    decreases updates.len() - i,
{
    if i < 0 || i >= updates.len() {
        sorted
    } else {
        arranged_from(
            updates,
            i + 1,
            sorted.insert(place_by_start(sorted, updates[i]) as int, updates[i]),
        )
    }
}

/// The updates in the order of their spans, by start and then by end; those
/// with the same span stay in the order in which they came.
pub open spec fn arranged(updates: Seq<UpdateModel>) -> Seq<UpdateModel> {
    arranged_from(updates, 0, Seq::empty())
}

/// The place of an update is within the updates.
pub proof fn place_by_start_bound(sorted: Seq<UpdateModel>, update: UpdateModel)
    ensures
        place_by_start(sorted, update) <= sorted.len(),
    decreases sorted.len(),
{
    if sorted.len() > 0 && comes_first(sorted[0], update) {
        place_by_start_bound(sorted.drop_first(), update);
    }
}

/// Arranging neither loses an update nor adds one: the arranged updates are
/// the updates given, each as often as it was given.
pub proof fn arranging_keeps_updates(updates: Seq<UpdateModel>, i: int, sorted: Seq<UpdateModel>)
    requires
        0 <= i <= updates.len(),
    ensures
        arranged_from(updates, i, sorted).to_multiset() == sorted.to_multiset().add(
            updates.skip(i).to_multiset(),
        ),
        arranged_from(updates, i, sorted).len() == sorted.len() + updates.len() - i,
    decreases updates.len() - i,
{
    broadcast use vstd::multiset::group_multiset_axioms;

    if i < updates.len() {
        let at = place_by_start(sorted, updates[i]) as int;
        place_by_start_bound(sorted, updates[i]);
        let grown = sorted.insert(at, updates[i]);
        vstd::seq_lib::to_multiset_insert(sorted, at, updates[i]);
        arranging_keeps_updates(updates, i + 1, grown);
        assert(updates.skip(i).drop_first() =~= updates.skip(i + 1));
        assert(updates.skip(i).first() == updates[i]);
        assert(updates.skip(i).to_multiset() =~= Multiset::<UpdateModel>::empty().insert(
            updates[i],
        ).add(updates.skip(i + 1).to_multiset())) by {
            updates.skip(i).to_multiset_ensures();
            assert(updates.skip(i) =~= seq![updates[i]] + updates.skip(i + 1));
            vstd::seq_lib::lemma_multiset_commutative(seq![updates[i]], updates.skip(i + 1));
            assert(seq![updates[i]] =~= Seq::<UpdateModel>::empty().push(updates[i]));
            vstd::seq_lib::to_multiset_build(Seq::<UpdateModel>::empty(), updates[i]);
            assert(Seq::<UpdateModel>::empty().to_multiset() =~= Multiset::<UpdateModel>::empty())
                by {
                Seq::<UpdateModel>::empty().to_multiset_ensures();
            }
        }
        assert(grown.to_multiset().add(updates.skip(i + 1).to_multiset()) =~= sorted.to_multiset().add(
            updates.skip(i).to_multiset(),
        ));
    } else {
        assert(updates.skip(i) =~= Seq::<UpdateModel>::empty());
        assert(updates.skip(i).to_multiset() =~= Multiset::<UpdateModel>::empty()) by {
            updates.skip(i).to_multiset_ensures();
        }
        assert(sorted.to_multiset().add(Multiset::<UpdateModel>::empty()) =~= sorted.to_multiset());
    }
}

/// Whether the updates stand in order in a text of length `len`, and none
/// overlaps another.
pub fn stands_in_order(updates: &Vec<PendingUpdate>, len: usize) -> (yes: bool)
    ensures
        yes == in_order(update_models(updates@), len as int),
{
    let ghost all = update_models(updates@);
    let mut floor: usize = 0;
    let mut i: usize = 0;
    while i < updates.len()
        invariant
            i <= updates.len(),
            all == update_models(updates@),
            in_order(all, len as int) == in_order_from(all, i as int, floor as int, len as int),
        decreases updates.len() - i,
    {
        let update = &updates[i];
        assert(all[i as int] == update@);
        if update.start < floor || update.end < update.start || update.end > len {
            return false;
        }
        floor = update.end;
        i += 1;
    }
    true
}

/// Puts the updates of one file in the order of their spans, so that they
/// can be made in one pass. `None` where, so arranged, two of them overlap or
/// one lies outside a text of length `len`.
pub fn arrange_updates(updates: &Vec<PendingUpdate>, len: usize) -> (out: Option<
    Vec<PendingUpdate>,
>)
    ensures
        out.is_some() == in_order(arranged(update_models(updates@)), len as int),
        out matches Some(sorted) ==> update_models(sorted@) == arranged(update_models(updates@)),
        out matches Some(sorted) ==> update_models(sorted@).to_multiset() == update_models(
            updates@,
        ).to_multiset(),
{
    let ghost all = update_models(updates@);
    let mut sorted: Vec<PendingUpdate> = Vec::new();
    let mut i: usize = 0;
    assert(update_models(sorted@) =~= Seq::<UpdateModel>::empty());
    while i < updates.len()
        invariant
            i <= updates.len(),
            all == update_models(updates@),
            arranged_from(all, i as int, update_models(sorted@)) == arranged(all),
        decreases updates.len() - i,
    {
        let update = &updates[i];
        assert(all[i as int] == update@);
        let ghost before = update_models(sorted@);
        let mut at: usize = 0;
        assert(before.skip(0) =~= before);
        while at < sorted.len() && (sorted[at].start < update.start || (sorted[at].start
            == update.start && sorted[at].end <= update.end))
            invariant
                at <= sorted.len(),
                before == update_models(sorted@),
                place_by_start(before, update@) == at + place_by_start(
                    before.skip(at as int),
                    update@,
                ),
            decreases sorted.len() - at,
        {
            assert(before[at as int] == sorted@[at as int]@);
            assert(before.skip(at as int)[0] == before[at as int]);
            assert(before.skip(at as int).drop_first() =~= before.skip(at + 1));
            at += 1;
        }
        proof {
            if at < sorted.len() {
                assert(before[at as int] == sorted@[at as int]@);
                assert(before.skip(at as int)[0] == before[at as int]);
            } else {
                assert(before.skip(at as int).len() == 0);
            }
        }
        let copy = PendingUpdate {
            start: update.start,
            end: update.end,
            text: slice(&update.text, 0, update.text.len()),
            form: update.form,
        };
        assert(copy.text@ =~= update.text@);
        assert(copy@ == update@);
        sorted.insert(at, copy);
        assert(update_models(sorted@) =~= before.insert(at as int, update@));
        i += 1;
    }
    proof {
        arranging_keeps_updates(all, 0, Seq::<UpdateModel>::empty());
        assert(all.skip(0) =~= all);
        assert(Seq::<UpdateModel>::empty().to_multiset() =~= Multiset::<UpdateModel>::empty()) by {
            Seq::<UpdateModel>::empty().to_multiset_ensures();
        }
        assert(Multiset::<UpdateModel>::empty().add(all.to_multiset()) =~= all.to_multiset());
    }
    if stands_in_order(&sorted, len) {
        Some(sorted)
    } else {
        None
    }
}

/// No line feed stands between the start of a line and a position on it.
pub proof fn no_break_on_line_before(text: Seq<char>, at: int)
    requires
        0 <= at <= text.len(),
    ensures
        forall|k: int| line_start(text, at) <= k < at ==> text[k] != '\n',
    decreases at,
{
    if at > 0 && text[at - 1] != '\n' {
        no_break_on_line_before(text, at - 1);
    }
}

/// Where no line feed stands in `a` from `i` on, the first line feed of `a`
/// and `b` joined, at or after `i`, is the first of `b`.
pub proof fn break_past_plain_text(a: Seq<char>, b: Seq<char>, i: int)
    requires
        0 <= i <= a.len(),
        forall|k: int| i <= k < a.len() ==> a[k] != '\n',
    ensures
        break_from(a + b, i) == a.len() + break_from(b, 0),
    decreases a.len() - i,
{
    if i < a.len() {
        assert((a + b)[i] == a[i]);
        break_past_plain_text(a, b, i + 1);
    } else {
        crate::diff::break_after_join(a, b, 0);
    }
}

/// The first line of a text that is not empty runs to its first line feed,
/// or to its end.
pub proof fn first_line_runs_to_break(x: Seq<char>)
    requires
        x.len() > 0,
    ensures
        lines(x).len() >= 1,
        lines(x)[0] == x.subrange(0, line_end(x, 0)),
        0 < line_end(x, 0) <= x.len(),
{
    break_from_bounds(x, 0);
}

/// Two runs of lines that agree on their first `n` lines and differ in the
/// next share just those at their start.
pub proof fn shared_start_stops(a: Seq<Seq<char>>, b: Seq<Seq<char>>, n: int, i: int)
    requires
        0 <= i <= n < a.len(),
        n < b.len(),
        forall|k: int| i <= k < n ==> a[k] == b[k],
        a[n] != b[n],
    ensures
        i + common_prefix_from(a, b, i) == n,
    decreases n - i,
{
    if i < n {
        shared_start_stops(a, b, n, i + 1);
    }
}

/// The lines before the line on which a span opens and the lines after the
/// line on which it closes are different lines: the old text and the new have
/// at least as many lines as both together, and the line after the lines
/// before is the first line of what follows them.
pub proof fn lines_outside_do_not_meet(text: Seq<char>, start: int, end: int, piece: Seq<char>)
    requires
        0 <= start <= end <= text.len(),
    ensures
        ({
            let new_text = spliced(text, start, end, piece);
            let n = lines_before(text, start).len();
            let m = lines_after(text, end).len();
            let from = line_start(text, start);
            &&& n + m <= lines(text).len()
            &&& n + m <= lines(new_text).len()
            &&& lines(text) == lines_before(text, start) + lines(text.skip(from))
            &&& lines(new_text) == lines_before(text, start) + lines(new_text.skip(from))
            &&& new_text.skip(from) == text.subrange(from, start) + piece + text.skip(end)
        }),
{
    let new_text = spliced(text, start, end, piece);
    line_start_bounds(text, start);
    let ls = line_start(text, start);
    let u = text.take(ls);
    if u.len() > 0 {
        assert(u.last() == text[ls - 1]);
    }
    let old_rest = text.skip(ls);
    let new_rest = text.subrange(ls, start) + piece + text.skip(end);
    assert(text =~= u + old_rest);
    assert(new_text =~= u + new_rest);
    assert(new_text.skip(ls) =~= new_rest);
    lines_of_join(u, old_rest);
    lines_of_join(u, new_rest);
    break_from_bounds(text, end);
    let le = line_end(text, end);
    let tail = text.skip(le);
    if break_from(text, end) < text.len() {
        let old_mid = text.subrange(ls, le);
        let new_mid = text.subrange(ls, start) + piece + text.subrange(end, le);
        assert(old_rest =~= old_mid + tail);
        assert(new_rest =~= new_mid + tail);
        assert(old_mid.last() == text[le - 1]);
        assert(new_mid.last() == text[le - 1]);
        lines_of_join(old_mid, tail);
        lines_of_join(new_mid, tail);
    } else {
        assert(tail.len() == 0);
    }
}

/// The line that starts at `from`, with the line feed that ends it.
pub open spec fn line_at(text: Seq<char>, from: int) -> Seq<char> {
    text.subrange(from, line_end(text, from))
}

/// The line that starts where a text is cut is the first line of what
/// follows the cut.
pub proof fn line_at_cut(text: Seq<char>, from: int)
    requires
        0 <= from < text.len(),
    ensures
        lines(text.skip(from)).len() >= 1,
        lines(text.skip(from))[0] == line_at(text, from),
{
    let u = text.take(from);
    let rest = text.skip(from);
    assert(text =~= u + rest);
    crate::diff::break_after_join(u, rest, 0);
    first_line_runs_to_break(rest);
    break_from_bounds(rest, 0);
    assert(rest.subrange(0, line_end(rest, 0)) =~= text.subrange(from, line_end(text, from)));
}

/// A patch that changes the line on which the literal opens changes no line
/// after the line on which it closes: a diff of the old text and the new
/// keeps every one of them. So does a patch that changes nothing.
pub proof fn patch_changes_no_line_after(text: Seq<char>, start: int, end: int, piece: Seq<char>)
    requires
        0 <= start < end <= text.len(),
        piece == text.subrange(start, end) || line_at(text, line_start(text, start)) != line_at(
            spliced(text, start, end, piece),
            line_start(text, start),
        ),
    ensures
        ({
            let steps = script(lines(text), lines(spliced(text, start, end, piece)));
            let m = lines_after(text, end).len();
            &&& steps.len() >= m
            &&& forall|t: int| 0 <= t < m ==> #[trigger] step_from_end(steps, t) == Edit::Keep
        }),
{
    let new_text = spliced(text, start, end, piece);
    let old_lines = lines(text);
    let new_lines = lines(new_text);
    let steps = script(old_lines, new_lines);
    let after = lines_after(text, end);
    let m = after.len() as int;
    lines_after_stay(text, start, end, piece);
    if piece == text.subrange(start, end) {
        same_literal_same_text(text, start, end);
        crate::diff::diff_of_same_is_empty(Seq::empty(), Seq::empty(), old_lines);
        assert forall|t: int| 0 <= t < m implies #[trigger] step_from_end(steps, t)
            == Edit::Keep by {
            assert(crate::diff::keeps(old_lines.len())[old_lines.len() - 1 - t] == Edit::Keep);
        }
    } else {
        let before = lines_before(text, start);
        let n = before.len() as int;
        let ls = line_start(text, start);
        line_start_bounds(text, start);
        lines_outside_do_not_meet(text, start, end, piece);
        lines_before_stay(text, start, end, piece);
        assert forall|k: int| 0 <= k < n implies old_lines[k] == new_lines[k] by {
            assert(old_lines[k] == before[k]);
            assert(new_lines[k] == before[k]);
        }
        line_at_cut(text, ls);
        assert(old_lines[n] == line_at(text, ls));
        if ls < new_text.len() {
            line_at_cut(new_text, ls);
            assert(new_lines[n] == line_at(new_text, ls));
            shared_start_stops(old_lines, new_lines, n, 0);
        } else {
            assert(new_text.skip(ls).len() == 0);
            assert(new_lines.len() == n);
            crate::diff::shared_start_covers(old_lines, new_lines, n, 0);
            crate::diff::common_prefix_bound(old_lines, new_lines, 0);
        }
        assert(common_prefix(old_lines, new_lines) == n);
        assert forall|t: int| 0 <= t < m implies #[trigger] from_end(old_lines, t) == from_end(
            new_lines,
            t,
        ) by {
            assert(from_end(old_lines, t) == from_end(after, t));
            assert(from_end(new_lines, t) == from_end(after, t));
        }
        script_keeps_shared_end(old_lines, new_lines, m);
    }
}

/// The first line feed at or after `i` stands at `j` where none stands
/// between them and one stands at `j`.
pub proof fn break_is_first(x: Seq<char>, i: int, j: int)
    requires
        0 <= i <= j < x.len(),
        forall|k: int| i <= k < j ==> x[k] != '\n',
        x[j] == '\n',
    ensures
        break_from(x, i) == j,
    decreases j - i,
{
    if i < j {
        break_is_first(x, i + 1, j);
    }
}

/// What is left of a text without the blanks at its end is its start.
pub proof fn trim_end_is_start(x: Seq<char>)
    ensures
        trim_end(x).len() <= x.len(),
        trim_end(x) == x.take(trim_end(x).len() as int),
    decreases x.len(),
{
    if x.len() > 0 && is_blank(x.last()) {
        trim_end_is_start(x.drop_last());
        assert(x.drop_last().take(trim_end(x).len() as int) =~= x.take(trim_end(x).len() as int));
    } else {
        assert(x.take(x.len() as int) =~= x);
    }
}

/// What is left of a text without the blanks at its start is its end.
pub proof fn trim_start_is_end(x: Seq<char>)
    ensures
        trim_start(x).len() <= x.len(),
        trim_start(x) == x.skip(x.len() - trim_start(x).len()),
    decreases x.len(),
{
    if x.len() > 0 && is_blank(x.first()) {
        trim_start_is_end(x.drop_first());
        assert(x.drop_first().skip(x.len() - 1 - trim_start(x).len()) =~= x.skip(
            x.len() - trim_start(x).len(),
        ));
    } else {
        assert(x.skip(0) =~= x);
    }
}

/// Content as it stands inside a literal holds a line feed only where the
/// content does.
pub proof fn escaped_adds_no_break(kind: Kind, content: Seq<char>, i: int)
    requires
        0 <= i,
        forall|k: int| 0 <= k < content.len() ==> content[k] != '\n',
    ensures
        forall|k: int|
            0 <= k < escaped_from(kind, content, i).len() ==> escaped_from(kind, content, i)[k]
                != '\n',
    decreases content.len() - i,
{
    if i < content.len() {
        escaped_adds_no_break(kind, content, i + 1);
        let whole = escaped_from(kind, content, i);
        let rest = escaped_from(kind, content, i + 1);
        assert forall|k: int| 0 <= k < whole.len() implies whole[k] != '\n' by {
            if kind == Kind::Text && (content[i] == '"' || content[i] == '\\') {
                assert(whole == seq!['\\', content[i]] + rest);
                if k >= 2 {
                    assert(whole[k] == rest[k - 2]);
                }
            } else {
                assert(whole == seq![content[i]] + rest);
                if k >= 1 {
                    assert(whole[k] == rest[k - 1]);
                }
            }
        }
    }
}

/// A literal of one line holds no line feed, and a literal of several lines
/// breaks off right after its opening delimiter.
pub proof fn literal_breaks_after_opener_or_not_at_all(kind: Kind, indent: nat, content: Seq<char>)
    ensures
        content.contains('\n') ==> literal(kind, indent, content).len() >= 2 && literal(
            kind,
            indent,
            content,
        )[0] != '\n' && literal(kind, indent, content)[1] == '\n',
        !content.contains('\n') ==> forall|k: int|
            0 <= k < literal(kind, indent, content).len() ==> literal(kind, indent, content)[k]
                != '\n',
{
    if !content.contains('\n') {
        assert forall|k: int| 0 <= k < content.len() implies content[k] != '\n' by {
            if content[k] == '\n' {
                assert(content.contains('\n'));
            }
        }
        let piece = compact(kind, content);
        match kind {
            Kind::Tokens => {
                let inner = trim(content);
                trim_end_is_start(content);
                trim_start_is_end(trim_end(content));
                assert forall|k: int| 0 <= k < inner.len() implies inner[k] != '\n' by {
                    let shorter = trim_end(content);
                    let at = shorter.len() - inner.len() + k;
                    assert(inner[k] == shorter[at]);
                    assert(shorter[at] == content[at]);
                }
                assert forall|k: int| 0 <= k < piece.len() implies piece[k] != '\n' by {
                    if inner.len() > 0 {
                        if 2 <= k < 2 + inner.len() {
                            assert(piece[k] == inner[k - 2]);
                        }
                    }
                }
            },
            Kind::Text => {
                escaped_adds_no_break(kind, content, 0);
                let inner = escaped_from(kind, content, 0);
                assert forall|k: int| 0 <= k < piece.len() implies piece[k] != '\n' by {
                    if 1 <= k < 1 + inner.len() {
                        assert(piece[k] == inner[k - 1]);
                    }
                }
            },
        }
    }
}

/// A literal written anew in place of a literal that stands on one line
/// changes that line, unless it is the same literal.
pub proof fn one_line_literal_changes_its_line(
    text: Seq<char>,
    start: int,
    end: int,
    kind: Kind,
    indent: nat,
    content: Seq<char>,
)
    requires
        0 <= start,
        start + 2 <= end <= text.len(),
        forall|k: int| start <= k < end ==> text[k] != '\n',
    ensures
        ({
            let piece = literal(kind, indent, content);
            piece == text.subrange(start, end) || line_at(text, line_start(text, start)) != line_at(
                spliced(text, start, end, piece),
                line_start(text, start),
            )
        }),
{
    let piece = literal(kind, indent, content);
    let old = text.subrange(start, end);
    let new_text = spliced(text, start, end, piece);
    let ls = line_start(text, start);
    line_start_bounds(text, start);
    no_break_on_line_before(text, start);
    literal_breaks_after_opener_or_not_at_all(kind, indent, content);
    let old_line = line_at(text, ls);
    let new_line = line_at(new_text, ls);
    let tail = text.skip(end);
    // The old line runs past the literal.
    let old_head = text.take(end);
    assert(text =~= old_head + tail);
    break_past_plain_text(old_head, tail, ls);
    break_from_bounds(tail, 0);
    if content.contains('\n') {
        assert(new_text[start] == piece[0]);
        assert(new_text[start + 1] == piece[1]);
        assert forall|k: int| ls <= k < start + 1 implies new_text[k] != '\n' by {
            if k < start {
                assert(new_text[k] == text[k]);
            }
        }
        break_is_first(new_text, ls, start + 1);
        assert(new_line[start + 1 - ls] == new_text[start + 1]);
        assert(old_line[start + 1 - ls] == text[start + 1]);
    } else if piece != old {
        let new_head = text.take(start) + piece;
        assert(new_text =~= new_head + tail);
        assert forall|k: int| ls <= k < new_head.len() implies new_head[k] != '\n' by {
            if k < start {
                assert(new_head[k] == text[k]);
            } else {
                assert(new_head[k] == piece[k - start]);
            }
        }
        break_past_plain_text(new_head, tail, ls);
        let after_literal = break_from(tail, 0);
        assert(break_from(text, ls) == end + after_literal);
        assert(break_from(new_text, ls) == start + piece.len() + after_literal);
        assert(text.len() == end + tail.len());
        assert(new_text.len() == start + piece.len() + tail.len());
        assert(old_line.len() == line_end(text, ls) - ls);
        assert(new_line.len() == line_end(new_text, ls) - ls);
        if old_line == new_line {
            assert(piece.len() == old.len());
            assert forall|j: int| 0 <= j < piece.len() implies piece[j] == old[j] by {
                assert(old_line[start - ls + j] == text[start + j]);
                assert(new_line[start - ls + j] == new_text[start + j]);
                assert(new_text[start + j] == piece[j]);
            }
            assert(piece =~= old);
        }
    }
}

/// A patch of a literal that stands on one line changes no line after it: a
/// diff of the old text and the new keeps every line after the line of the
/// literal, whatever content the literal is written anew for.
pub proof fn patch_of_one_line_changes_no_line_after(
    text: Seq<char>,
    start: int,
    end: int,
    kind: Kind,
    indent: nat,
    content: Seq<char>,
)
    requires
        0 <= start,
        start + 2 <= end <= text.len(),
        forall|k: int| start <= k < end ==> text[k] != '\n',
    ensures
        ({
            let piece = literal(kind, indent, content);
            let steps = script(lines(text), lines(spliced(text, start, end, piece)));
            let m = lines_after(text, end).len();
            &&& steps.len() >= m
            &&& forall|t: int| 0 <= t < m ==> #[trigger] step_from_end(steps, t) == Edit::Keep
        }),
{
    one_line_literal_changes_its_line(text, start, end, kind, indent, content);
    patch_changes_no_line_after(text, start, end, literal(kind, indent, content));
}

/// How many characters two texts share from place `i` on, place by place.
pub open spec fn shared_from(a: Seq<char>, b: Seq<char>, i: int) -> nat
    decreases a.len() - i,
{
    if 0 <= i < a.len() && i < b.len() && a[i] == b[i] {
        1 + shared_from(a, b, i + 1)
    } else {
        0
    }
}

/// How many characters two texts share at their start.
pub open spec fn shared(a: Seq<char>, b: Seq<char>) -> nat {
    shared_from(a, b, 0)
}

/// Two texts agree on the characters they share at their start, and differ
/// in the next, where both have one.
pub proof fn shared_is_common_start(a: Seq<char>, b: Seq<char>, i: int)
    requires
        0 <= i <= a.len(),
        i <= b.len(),
    ensures
        i + shared_from(a, b, i) <= a.len(),
        i + shared_from(a, b, i) <= b.len(),
        forall|k: int| i <= k < i + shared_from(a, b, i) ==> a[k] == b[k],
        i + shared_from(a, b, i) < a.len() && i + shared_from(a, b, i) < b.len() ==> a[i
            + shared_from(a, b, i)] != b[i + shared_from(a, b, i)],
    decreases a.len() - i,
{
    if i < a.len() && i < b.len() && a[i] == b[i] {
        shared_is_common_start(a, b, i + 1);
    }
}

/// Where the old text and the new agree up to a position and differ at it,
/// the line on which that position stands reads differently in the two.
pub proof fn line_of_difference_changes(text: Seq<char>, at: int, end: int, piece: Seq<char>)
    requires
        0 <= at < end <= text.len(),
        piece.len() > 0,
        piece[0] != text[at],
    ensures
        line_at(text, line_start(text, at)) != line_at(
            spliced(text, at, end, piece),
            line_start(text, at),
        ),
{
    let new_text = spliced(text, at, end, piece);
    let ls = line_start(text, at);
    line_start_bounds(text, at);
    no_break_on_line_before(text, at);
    break_from_bounds(text, ls);
    break_from_bounds(new_text, ls);
    assert forall|k: int| ls <= k < at implies new_text[k] != '\n' by {
        assert(new_text[k] == text[k]);
    }
    let old_break = break_from(text, ls);
    let new_break = break_from(new_text, ls);
    if old_break < at {
        assert(text[old_break] == '\n');
    }
    if new_break < at {
        assert(new_text[new_break] == '\n');
    }
    let old_line = line_at(text, ls);
    let new_line = line_at(new_text, ls);
    assert(old_line[at - ls] == text[at]);
    assert(new_line[at - ls] == new_text[at]);
    assert(new_text[at] == piece[0]);
}

/// A patch whose new literal and old literal part ways at a character that
/// both have changes no line after the literal: a diff of the old text and
/// the new keeps every line after the line on which the old literal closes.
pub proof fn patch_that_parts_ways_changes_no_line_after(
    text: Seq<char>,
    start: int,
    end: int,
    piece: Seq<char>,
)
    requires
        0 <= start <= end <= text.len(),
        shared(text.subrange(start, end), piece) < end - start,
        shared(text.subrange(start, end), piece) < piece.len(),
    ensures
        ({
            let steps = script(lines(text), lines(spliced(text, start, end, piece)));
            let m = lines_after(text, end).len();
            &&& steps.len() >= m
            &&& forall|t: int| 0 <= t < m ==> #[trigger] step_from_end(steps, t) == Edit::Keep
        }),
{
    let old = text.subrange(start, end);
    let j = shared(old, piece) as int;
    shared_is_common_start(old, piece, 0);
    let at = start + j;
    let rest = piece.skip(j);
    assert(rest[0] == piece[j]);
    assert(old[j] == text[at]);
    assert(spliced(text, at, end, rest) =~= spliced(text, start, end, piece)) by {
        assert forall|k: int| 0 <= k < j implies text[start + k] == piece[k] by {
            assert(old[k] == text[start + k]);
        }
        assert(text.take(at) =~= text.take(start) + piece.take(j));
        assert(piece =~= piece.take(j) + rest);
    }
    line_of_difference_changes(text, at, end, rest);
    patch_changes_no_line_after(text, at, end, rest);
}

/// Whether `rest` opens as a line of indented content does: with a line
/// feed, the line being empty, or with `width` spaces.
pub open spec fn opens_line(rest: Seq<char>, width: nat) -> bool {
    (rest.len() > 0 && rest[0] == '\n') || (rest.len() >= width && forall|k: int|
        0 <= k < width ==> rest[k] == ' ')
}

/// In indented content with a line feed after it, every line opens as a
/// line of indented content does: the first, where the content starts a
/// line, and each after a line feed of the content.
pub proof fn indented_lines_open(
    body: Seq<char>,
    i: int,
    width: nat,
    fresh: bool,
    tail: Seq<char>,
)
    requires
        0 <= i,
        tail.len() > 0,
        tail[0] == '\n',
    ensures
        ({
            let inside = indented_from(body, i, repeat(' ', width), fresh);
            let whole = inside + tail;
            &&& fresh ==> opens_line(whole, width)
            &&& forall|p: int|
                0 <= p < inside.len() && whole[p] == '\n' ==> opens_line(
                    #[trigger] whole.skip(p + 1),
                    width,
                )
        }),
    decreases body.len() - i,
{
    let margin = repeat(' ', width);
    let inside = indented_from(body, i, margin, fresh);
    let whole = inside + tail;
    if i < body.len() {
        let c = body[i];
        let lead = if fresh && c != '\n' {
            margin
        } else {
            Seq::<char>::empty()
        };
        let next_inside = indented_from(body, i + 1, margin, c == '\n');
        let next_whole = next_inside + tail;
        indented_lines_open(body, i + 1, width, c == '\n', tail);
        assert(inside == lead + seq![c] + next_inside);
        assert(whole =~= lead + seq![c] + next_whole);
        assert(whole.skip(lead.len() as int + 1) =~= next_whole);
        if fresh {
            if c == '\n' {
                assert(whole[0] == '\n');
            } else {
                assert forall|k: int| 0 <= k < width implies whole[k] == ' ' by {
                    assert(whole[k] == margin[k]);
                }
            }
        }
        assert forall|p: int| 0 <= p < inside.len() && whole[p] == '\n' implies opens_line(
            #[trigger] whole.skip(p + 1),
            width,
        ) by {
            if p < lead.len() {
                assert(whole[p] == margin[p]);
            } else if p == lead.len() {
                assert(whole[p] == c);
                assert(whole.skip(p + 1) =~= next_whole);
            } else {
                let q = p - lead.len() - 1;
                assert(whole[p] == next_whole[q]);
                assert(whole.skip(p + 1) =~= next_whole.skip(q + 1));
            }
        }
    } else {
        assert(whole =~= tail);
    }
}

/// What ends a literal of several lines: a line feed, the indentation, and
/// the closing delimiter.
pub open spec fn closing_line(kind: Kind, indent: nat) -> Seq<char> {
    seq!['\n'] + repeat(' ', indent) + seq![closer(kind)]
}

/// A literal of several lines is the start of no other literal of several
/// lines of its kind and indentation: the line on which it closes is indented
/// less than any line of content.
pub proof fn expanded_starts_no_other(kind: Kind, indent: nat, one: Seq<char>, other: Seq<char>)
    requires
        shared(expanded(kind, indent, one), expanded(kind, indent, other)) >= expanded(
            kind,
            indent,
            one,
        ).len(),
    ensures
        expanded(kind, indent, one).len() >= expanded(kind, indent, other).len(),
{
    let first = expanded(kind, indent, one);
    let second = expanded(kind, indent, other);
    let margin = repeat(' ', indent + 4);
    let tail = closing_line(kind, indent);
    let inside_one = indented_from(escaped_from(kind, body_of(one), 0), 0, margin, true);
    let inside_other = indented_from(escaped_from(kind, body_of(other), 0), 0, margin, true);
    let head = seq![opener(kind), '\n'];
    assert(first =~= head + (inside_one + tail));
    assert(second =~= head + (inside_other + tail));
    shared_is_common_start(first, second, 0);
    if first.len() < second.len() {
        let whole = inside_other + tail;
        let q = inside_one.len() as int;
        assert(q < inside_other.len());
        indented_lines_open(escaped_from(kind, body_of(other), 0), 0, indent + 4, true, tail);
        assert(whole[q] == second[2 + q]);
        assert(first[2 + q] == tail[0]);
        assert(second[2 + q] == first[2 + q]);
        let rest = whole.skip(q + 1);
        assert(opens_line(rest, indent + 4));
        assert forall|k: int| 0 <= k <= indent implies rest[k] == tail[1 + k] by {
            assert(rest[k] == second[2 + q + 1 + k]);
            assert(first[2 + q + 1 + k] == tail[1 + k]);
            assert(second[2 + q + 1 + k] == first[2 + q + 1 + k]);
        }
        assert(tail[1 + indent as int] == closer(kind));
        if indent > 0 {
            assert(tail[1] == ' ');
            assert(rest[0] == tail[1]);
        }
        assert(rest[indent as int] == closer(kind));
        assert(false);
    }
}

/// A literal that the engine has written, written anew, changes no line
/// after it: where the old literal is the literal for some content at the
/// indentation of its line, a diff of the old text and the new keeps every
/// line after the line on which the old literal closes, whatever the new
/// content is.
pub proof fn rewrite_changes_no_line_after(
    text: Seq<char>,
    start: int,
    end: int,
    kind: Kind,
    indent: nat,
    recorded: Seq<char>,
    content: Seq<char>,
)
    requires
        0 <= start <= end <= text.len(),
        text.subrange(start, end) == literal(kind, indent, recorded),
    ensures
        ({
            let piece = literal(kind, indent, content);
            let steps = script(lines(text), lines(spliced(text, start, end, piece)));
            let m = lines_after(text, end).len();
            &&& steps.len() >= m
            &&& forall|t: int| 0 <= t < m ==> #[trigger] step_from_end(steps, t) == Edit::Keep
        }),
{
    let old = text.subrange(start, end);
    let piece = literal(kind, indent, content);
    literal_has_its_delimiters(kind, indent, recorded);
    literal_has_its_delimiters(kind, indent, content);
    literal_breaks_after_opener_or_not_at_all(kind, indent, recorded);
    literal_breaks_after_opener_or_not_at_all(kind, indent, content);
    shared_is_common_start(old, piece, 0);
    if !recorded.contains('\n') {
        assert forall|k: int| start <= k < end implies text[k] != '\n' by {
            assert(old[k - start] == text[k]);
        }
        one_line_literal_changes_its_line(text, start, end, kind, indent, content);
        patch_changes_no_line_after(text, start, end, piece);
    } else if old == piece {
        patch_changes_no_line_after(text, start, end, piece);
    } else {
        if content.contains('\n') {
            if shared(old, piece) >= old.len() {
                expanded_starts_no_other(kind, indent, recorded, content);
                assert(old =~= piece);
            }
            if shared(old, piece) >= piece.len() {
                shared_is_common_start(piece, old, 0);
                assert(shared(piece, old) >= piece.len()) by {
                    shared_covers(piece, old, piece.len() as int, 0);
                }
                expanded_starts_no_other(kind, indent, content, recorded);
                assert(old =~= piece);
            }
        } else {
            assert(old[1] == '\n');
            assert(piece[1] != '\n');
            if shared(old, piece) >= 2 {
                assert(old[1] == piece[1]);
            }
        }
        patch_that_parts_ways_changes_no_line_after(text, start, end, piece);
    }
}

/// Two texts that agree on their first `n` characters share at least those
/// at their start.
pub proof fn shared_covers(a: Seq<char>, b: Seq<char>, n: int, i: int)
    requires
        0 <= i <= n <= a.len(),
        n <= b.len(),
        forall|k: int| 0 <= k < n ==> a[k] == b[k],
    ensures
        i + shared_from(a, b, i) >= n,
    decreases n - i,
{
    if i < n {
        shared_covers(a, b, n, i + 1);
    }
}

} // verus!
