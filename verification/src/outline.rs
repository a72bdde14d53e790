//! Outlines of syntax trees: the kinds of node that an outline names. An
//! outline writes every node as the name of its kind, `Expr::Call` or
//! `Item::Struct`, and its fields; identifiers stand in it bare, literals as
//! they are written in source, and a punctuation character between single
//! quotes. So the name of a kind is read only outside quoted text.

use vstd::prelude::*;
use crate::scan::find_quote_end;
use crate::scan::quote_end;
use crate::scan::quote_end_bounds;
use crate::text::chars_of;
use crate::text::occurs_at;
use crate::text::stands_at;

verus! {

/// How many `#` stand directly before position `i`.
pub open spec fn hashes_before(text: Seq<char>, i: int) -> nat
    decreases i,
{
    if 0 < i <= text.len() && text[i - 1] == '#' {
        1 + hashes_before(text, i - 1)
    } else {
        0
    }
}

/// Whether the quote at `i` opens a raw string: an `r` stands before it,
/// with or without `#` between them.
pub open spec fn opens_raw(text: Seq<char>, i: int) -> bool {
    let marks = hashes_before(text, i);
    0 <= i - marks - 1 < text.len() && text[i - marks - 1] == 'r'
}

/// Whether `n` marks `#` stand from `j` on.
pub open spec fn hashes_at(text: Seq<char>, j: int, n: nat) -> bool
    decreases n,
{
    if n == 0 {
        true
    } else {
        0 <= j < text.len() && text[j] == '#' && hashes_at(text, j + 1, (n - 1) as nat)
    }
}

/// Where the raw string with `n` marks ends whose inside is read from `j`
/// on: after the first quote that the marks follow; `-1` where it does not
/// end.
pub open spec fn raw_end(text: Seq<char>, j: int, n: nat) -> int
    decreases text.len() - j,
{
    if j < 0 || j >= text.len() {
        -1
    } else if text[j] == '"' && hashes_at(text, j + 1, n) {
        j + 1 + n
    } else {
        raw_end(text, j + 1, n)
    }
}

/// The position after the first single quote at or after `j`; `-1` where
/// there is none.
pub open spec fn tick_from(text: Seq<char>, j: int) -> int
    decreases text.len() - j,
{
    if j < 0 || j >= text.len() {
        -1
    } else if text[j] == '\'' {
        j + 1
    } else {
        tick_from(text, j + 1)
    }
}

/// Where the character in single quotes that opens at `i` ends: an escape
/// runs from its backslash to the next single quote after the character
/// escaped; anything else is one character. `-1` where it does not end.
pub open spec fn char_end(text: Seq<char>, i: int) -> int {
    if 0 <= i && i + 1 < text.len() && text[i + 1] == '\\' {
        tick_from(text, i + 3)
    } else if 0 <= i && i + 2 < text.len() && text[i + 2] == '\'' {
        i + 3
    } else {
        -1
    }
}

/// Where the quoted text that opens at `i` ends: a string, raw or not, or a
/// character. `-1` where it does not end.
pub open spec fn quoted_end(text: Seq<char>, i: int) -> int {
    if 0 <= i < text.len() && text[i] == '"' {
        if opens_raw(text, i) {
            raw_end(text, i + 1, hashes_before(text, i))
        } else {
            quote_end(text, i + 1)
        }
    } else {
        char_end(text, i)
    }
}

/// Whether the name of a kind of node that the formatter has no layout for
/// stands at `i`: a node that the parser keeps verbatim, but for a literal or
/// an expression without tokens, or one of the two kinds that the formatter
/// does not know, a raw address and a precise capture.
pub open spec fn stop_at(text: Seq<char>, i: int) -> bool {
    ||| occurs_at(text, "Item::Verbatim"@, i)
    ||| occurs_at(text, "Pat::Verbatim"@, i)
    ||| occurs_at(text, "Type::Verbatim"@, i)
    ||| occurs_at(text, "TypeParamBound::Verbatim"@, i)
    ||| occurs_at(text, "TypeParamBound::PreciseCapture"@, i)
    ||| occurs_at(text, "Expr::RawAddr"@, i)
    ||| (occurs_at(text, "Expr::Verbatim"@, i) && !occurs_at(
        text,
        "Expr::Verbatim(TokenStream [])"@,
        i,
    ))
}

/// Whether the outline names, at `i` or after it and outside quoted text, a
/// kind of node that the formatter has no layout for. Quoted text that does
/// not end counts as such a name.
pub open spec fn names_stop_from(text: Seq<char>, i: int) -> bool
    decreases text.len() - i,
{
    if i < 0 || i >= text.len() {
        false
    } else if text[i] == '"' || text[i] == '\'' {
        let end = quoted_end(text, i);
        if i < end <= text.len() {
            names_stop_from(text, end)
        } else {
            true
        }
    } else if stop_at(text, i) {
        true
    } else {
        names_stop_from(text, i + 1)
    }
}

/// Whether the outline names a kind of node that the formatter has no
/// layout for.
pub open spec fn names_stop(text: Seq<char>) -> bool {
    names_stop_from(text, 0)
}

/// How many `#` stand directly before position `i`.
fn count_hashes_before(text: &Vec<char>, i: usize) -> (n: usize)
    requires
        i <= text.len(),
    ensures
        n == hashes_before(text@, i as int),
        n <= i,
{
    let mut n: usize = 0;
    while n < i && text[i - n - 1] == '#'
        invariant
            n <= i <= text.len(),
            hashes_before(text@, i as int) == n + hashes_before(text@, i - n),
        decreases i - n,
    {
        n += 1;
    }
    n
}

/// Whether `n` marks `#` stand from `j` on.
fn has_hashes_at(text: &Vec<char>, j: usize, n: usize) -> (yes: bool)
    ensures
        yes == hashes_at(text@, j as int, n as nat),
{
    if n == 0 {
        return true;
    }
    if j > text.len() || text.len() - j < n {
        proof {
            if hashes_at(text@, j as int, n as nat) {
                hashes_need_room(text@, j as int, n as nat);
            }
        }
        return false;
    }
    let mut k: usize = 0;
    while k < n
        invariant
            k <= n,
            j + n <= text.len(),
            hashes_at(text@, j as int, n as nat) == hashes_at(text@, j + k, (n - k) as nat),
        decreases n - k,
    {
        if text[j + k] != '#' {
            return false;
        }
        k += 1;
    }
    true
}

/// Marks need room: `n` of them from `j` on end within the text.
pub proof fn hashes_need_room(text: Seq<char>, j: int, n: nat)
    requires
        hashes_at(text, j, n),
    ensures
        n > 0 ==> 0 <= j && j + n <= text.len(),
    decreases n,
{
    if n > 1 {
        hashes_need_room(text, j + 1, (n - 1) as nat);
    }
}

/// Where the raw string with `n` marks ends whose inside is read from
/// `from` on.
fn find_raw_end(text: &Vec<char>, from: usize, n: usize) -> (end: Option<usize>)
    ensures
        match end {
            Some(e) => raw_end(text@, from as int, n as nat) == e && from < e <= text.len(),
            None => raw_end(text@, from as int, n as nat) == -1,
        },
{
    let mut j: usize = from;
    while j < text.len()
        invariant
            from <= j,
            raw_end(text@, from as int, n as nat) == raw_end(text@, j as int, n as nat),
        decreases text.len() - j,
    {
        if text[j] == '"' && has_hashes_at(text, j + 1, n) {
            proof {
                hashes_need_room(text@, j + 1, n as nat);
            }
            return Some(j + 1 + n);
        }
        j += 1;
    }
    None
}

/// The position after the first single quote at or after `from`.
fn find_tick(text: &Vec<char>, from: usize) -> (end: Option<usize>)
    ensures
        match end {
            Some(e) => tick_from(text@, from as int) == e && from < e <= text.len(),
            None => tick_from(text@, from as int) == -1,
        },
{
    let mut j: usize = from;
    while j < text.len()
        invariant
            from <= j,
            tick_from(text@, from as int) == tick_from(text@, j as int),
        decreases text.len() - j,
    {
        if text[j] == '\'' {
            return Some(j + 1);
        }
        j += 1;
    }
    None
}

/// Where the quoted text that opens at `i` ends.
fn find_quoted_end(text: &Vec<char>, i: usize) -> (end: Option<usize>)
    requires
        i < text.len(),
    ensures
        match end {
            Some(e) => quoted_end(text@, i as int) == e && i < e <= text.len(),
            None => !(i < quoted_end(text@, i as int) <= text.len()),
        },
{
    let n = text.len();
    if text[i] == '"' {
        let marks = count_hashes_before(text, i);
        let raw = i - marks >= 1 && text[i - marks - 1] == 'r';
        if raw {
            find_raw_end(text, i + 1, marks)
        } else {
            let end = find_quote_end(text, i + 1);
            proof {
                if end.is_some() {
                    quote_end_bounds(text@, i + 1);
                }
            }
            end
        }
    } else if n - i > 1 && text[i + 1] == '\\' {
        if n - i > 3 {
            find_tick(text, i + 3)
        } else {
            None
        }
    } else if n - i > 2 && text[i + 2] == '\'' {
        Some(i + 3)
    } else {
        None
    }
}

/// Whether the outline names a kind of node that the formatter has no
/// layout for.
pub fn find_stop(outline: &str) -> (found: bool)
    ensures
        found == names_stop(outline@),
{
    let text = chars_of(outline);
    let item = chars_of("Item::Verbatim");
    let pat = chars_of("Pat::Verbatim");
    let ty = chars_of("Type::Verbatim");
    let bound = chars_of("TypeParamBound::Verbatim");
    let capture = chars_of("TypeParamBound::PreciseCapture");
    let address = chars_of("Expr::RawAddr");
    let expr = chars_of("Expr::Verbatim");
    let empty = chars_of("Expr::Verbatim(TokenStream [])");
    let mut i: usize = 0;
    while i < text.len()
        invariant
            i <= text.len(),
            text@ == outline@,
            item@ == "Item::Verbatim"@,
            pat@ == "Pat::Verbatim"@,
            ty@ == "Type::Verbatim"@,
            bound@ == "TypeParamBound::Verbatim"@,
            capture@ == "TypeParamBound::PreciseCapture"@,
            address@ == "Expr::RawAddr"@,
            expr@ == "Expr::Verbatim"@,
            empty@ == "Expr::Verbatim(TokenStream [])"@,
            names_stop(text@) == names_stop_from(text@, i as int),
        decreases text.len() - i,
    {
        if text[i] == '"' || text[i] == '\'' {
            match find_quoted_end(&text, i) {
                Some(end) => {
                    i = end;
                },
                None => {
                    return true;
                },
            }
        } else {
            let stop = stands_at(&text, &item, i) || stands_at(&text, &pat, i) || stands_at(
                &text,
                &ty,
                i,
            ) || stands_at(&text, &bound, i) || stands_at(&text, &capture, i) || stands_at(
                &text,
                &address,
                i,
            ) || (stands_at(&text, &expr, i) && !stands_at(&text, &empty, i));
            if stop {
                return true;
            }
            i += 1;
        }
    }
    false
}

} // verus!
