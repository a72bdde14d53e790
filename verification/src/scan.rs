//! The source scan: where the inline literal of an assertion stands in the
//! text of a file.

use vstd::prelude::*;
use crate::patch::is_placeholder;
use crate::patch::placeholder_at;
use crate::patch::read_placeholder;
use crate::patch::Placeholder;
use crate::text::chars_of;

verus! {

/// Whether a literal is announced at `i`: an `@` with a brace or a quote
/// after it.
pub open spec fn marker_at(text: Seq<char>, i: int) -> bool {
    0 <= i && i + 1 < text.len() && text[i] == '@' && (text[i + 1] == '{' || text[i + 1] == '"')
}

/// Where the first literal at or after `i` is announced; `-1` where none
/// is.
pub open spec fn marker_from(text: Seq<char>, i: int) -> int
    decreases text.len() - i,
{
    if i < 0 || i >= text.len() {
        -1
    } else if marker_at(text, i) {
        i
    } else {
        marker_from(text, i + 1)
    }
}

/// How long the character literal that starts at `i` is: three characters
/// for one character in single quotes, four for an escape of one letter in
/// single quotes; `0` where neither stands there.
pub open spec fn char_literal_len(text: Seq<char>, i: int) -> int {
    if 0 <= i && i + 2 < text.len() && text[i] == '\'' && text[i + 1] != '\\' && text[i + 2]
        == '\'' {
        3
    } else if 0 <= i && i + 3 < text.len() && text[i] == '\'' && text[i + 1] == '\\' && text[i
        + 3] == '\'' {
        4
    } else {
        0
    }
}

/// Where the quoted string ends whose inside is read from `i` on: after the
/// first quote that no backslash stands before; `-1` where it does not end.
pub open spec fn quote_end(text: Seq<char>, i: int) -> int
    decreases text.len() - i,
{
    if i < 0 || i >= text.len() {
        -1
    } else if text[i] == '\\' {
        if i + 1 < text.len() {
            quote_end(text, i + 2)
        } else {
            -1
        }
    } else if text[i] == '"' {
        i + 1
    } else {
        quote_end(text, i + 1)
    }
}

/// Where the braces end whose inside is read from `i` on, `depth` braces
/// having been opened since: after the brace that closes them. Braces in
/// quoted strings and in character literals do not count. `-1` where the
/// braces do not end.
pub open spec fn brace_end(text: Seq<char>, i: int, depth: nat) -> int
    decreases text.len() - i,
{
    if i < 0 || i >= text.len() {
        -1
    } else if text[i] == '"' {
        let after = quote_end(text, i + 1);
        if i < after <= text.len() {
            brace_end(text, after, depth)
        } else {
            -1
        }
    } else if char_literal_len(text, i) > 0 {
        brace_end(text, i + char_literal_len(text, i), depth)
    } else if text[i] == '{' {
        brace_end(text, i + 1, depth + 1)
    } else if text[i] == '}' {
        if depth == 0 {
            i + 1
        } else {
            brace_end(text, i + 1, (depth - 1) as nat)
        }
    } else {
        brace_end(text, i + 1, depth)
    }
}

/// Where the literal that opens at `start` ends; `-1` where it does not
/// end.
pub open spec fn literal_end(text: Seq<char>, start: int) -> int {
    if 0 <= start < text.len() && text[start] == '{' {
        brace_end(text, start + 1, 0)
    } else {
        quote_end(text, start + 1)
    }
}

/// A quoted string ends after the place from which its inside is read, and
/// within the text, with a quote.
pub proof fn quote_end_bounds(text: Seq<char>, i: int)
    requires
        0 <= i,
        quote_end(text, i) >= 0,
    ensures
        i < quote_end(text, i) <= text.len(),
        text[quote_end(text, i) - 1] == '"',
    decreases text.len() - i,
{
    if i < text.len() {
        if text[i] == '\\' {
            if i + 1 < text.len() {
                quote_end_bounds(text, i + 2);
            }
        } else if text[i] != '"' {
            quote_end_bounds(text, i + 1);
        }
    }
}

/// Braces end after the place from which their inside is read, and within
/// the text, with a closing brace.
pub proof fn brace_end_bounds(text: Seq<char>, i: int, depth: nat)
    requires
        0 <= i,
        brace_end(text, i, depth) >= 0,
    ensures
        i < brace_end(text, i, depth) <= text.len(),
        text[brace_end(text, i, depth) - 1] == '}',
    decreases text.len() - i,
{
    if i < text.len() {
        if text[i] == '"' {
            let after = quote_end(text, i + 1);
            brace_end_bounds(text, after, depth);
        } else if char_literal_len(text, i) > 0 {
            brace_end_bounds(text, i + char_literal_len(text, i), depth);
        } else if text[i] == '{' {
            brace_end_bounds(text, i + 1, depth + 1);
        } else if text[i] == '}' {
            if depth > 0 {
                brace_end_bounds(text, i + 1, (depth - 1) as nat);
            }
        } else {
            brace_end_bounds(text, i + 1, depth);
        }
    }
}

/// Where the first literal at or after `from` is announced.
pub fn find_marker(text: &Vec<char>, from: usize) -> (at: Option<usize>)
    ensures
        match at {
            Some(i) => marker_from(text@, from as int) == i && marker_at(text@, i as int) && from
                <= i,
            None => marker_from(text@, from as int) == -1,
        },
{
    let n = text.len();
    let mut i: usize = from;
    while i < n
        invariant
            from <= i,
            n == text.len(),
            i <= n ==> marker_from(text@, from as int) == marker_from(text@, i as int),
            i > n ==> marker_from(text@, from as int) == -1,
        decreases n - i,
    {
        if text[i] == '@' && n - i > 1 && (text[i + 1] == '{' || text[i + 1] == '"') {
            return Some(i);
        }
        i += 1;
    }
    None
}

/// Where the quoted string ends whose inside is read from `from` on.
pub fn find_quote_end(text: &Vec<char>, from: usize) -> (end: Option<usize>)
    ensures
        match end {
            Some(e) => quote_end(text@, from as int) == e,
            None => quote_end(text@, from as int) == -1,
        },
{
    let n = text.len();
    let mut i: usize = from;
    while i < n
        invariant
            from <= i,
            n == text.len(),
            quote_end(text@, from as int) == quote_end(text@, i as int),
        decreases n - i,
    {
        if text[i] == '\\' {
            if n - i < 2 {
                return None;
            }
            i += 2;
        } else if text[i] == '"' {
            return Some(i + 1);
        } else {
            i += 1;
        }
    }
    None
}

/// How long the character literal that starts at `i` is.
fn measure_char_literal(text: &Vec<char>, i: usize) -> (len: usize)
    requires
        i < text.len(),
    ensures
        len == char_literal_len(text@, i as int),
{
    let n = text.len();
    if text[i] != '\'' {
        0
    } else if n - i > 2 && text[i + 1] != '\\' && text[i + 2] == '\'' {
        3
    } else if n - i > 3 && text[i + 1] == '\\' && text[i + 3] == '\'' {
        4
    } else {
        0
    }
}

/// Where the braces end whose inside is read from `from` on.
pub fn find_brace_end(text: &Vec<char>, from: usize) -> (end: Option<usize>)
    ensures
        match end {
            Some(e) => brace_end(text@, from as int, 0) == e,
            None => brace_end(text@, from as int, 0) == -1,
        },
{
    let n = text.len();
    let mut i: usize = from;
    let mut depth: usize = 0;
    while i < n
        invariant
            from <= i,
            n == text.len(),
            depth <= i - from,
            brace_end(text@, from as int, 0) == brace_end(text@, i as int, depth as nat),
        decreases n - i,
    {
        let c = text[i];
        if c == '"' {
            match find_quote_end(text, i + 1) {
                Some(after) => {
                    proof {
                        quote_end_bounds(text@, i + 1);
                    }
                    i = after;
                },
                None => {
                    return None;
                },
            }
        } else {
            let skip = measure_char_literal(text, i);
            if skip > 0 {
                i += skip;
            } else if c == '{' {
                depth += 1;
                i += 1;
            } else if c == '}' {
                if depth == 0 {
                    return Some(i + 1);
                }
                depth -= 1;
                i += 1;
            } else {
                i += 1;
            }
        }
    }
    None
}

/// The span of the first inline literal at or after `from`: from its
/// opening delimiter to just after its closing delimiter.
pub open spec fn span_from(text: Seq<char>, from: int) -> Option<(int, int)> {
    let at = marker_from(text, from);
    if at >= 0 && literal_end(text, at + 1) >= 0 {
        Some((at + 1, literal_end(text, at + 1)))
    } else {
        None
    }
}

/// Finds the first inline literal at or after `from`: an `@` with a brace
/// or a quote after it, up to the brace or quote that closes it. `None`
/// where no literal is announced there, or where the one announced does not
/// end.
pub fn find_placeholder(source: &str, from: usize) -> (out: Option<Placeholder>)
    ensures
        match out {
            Some(place) => span_from(source@, from as int) == Some(
                (place.start as int, place.end as int),
            ) && is_placeholder(source@, place.start as int, place.end as int) && place
                == placeholder_at(source@, place.start as int, place.end as int),
            None => span_from(source@, from as int).is_none(),
        },
{
    let text = chars_of(source);
    let at = match find_marker(&text, from) {
        Some(at) => at,
        None => {
            return None;
        },
    };
    let start = at + 1;
    let end = if text[start] == '{' {
        find_brace_end(&text, start + 1)
    } else {
        find_quote_end(&text, start + 1)
    };
    match end {
        Some(end) => {
            proof {
                if text@[start as int] == '{' {
                    brace_end_bounds(text@, start + 1, 0);
                } else {
                    quote_end_bounds(text@, start + 1);
                }
            }
            read_placeholder(&text, start, end)
        },
        None => None,
    }
}

} // verus!
