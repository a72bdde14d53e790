//! Text as sequences of characters: conversions between `str`, `String` and
//! `Vec<char>`, and the small operations the other modules share.

use vstd::prelude::*;
use vstd::string::*;

verus! {

/// The characters of `s`, in order.
pub fn chars_of(s: &str) -> (out: Vec<char>)
    ensures
        out@ == s@,
{
    broadcast use group_string_axioms;
    let mut out: Vec<char> = Vec::new();
    for c in it: s.chars()
        invariant
            it.seq() == s@,
            out@ == s@.take(it.index() as int),
    {
        out.push(c);
        assert(out@ =~= s@.take(it.index() + 1));
    }
    assert(out@ =~= s@);
    out
}

/// Collects characters into a `String` with `Iterator::collect`, which keeps
/// every character in its place: the string reads exactly as `chars` does.
#[verifier::external_body]
pub(crate) fn string_of(chars: &Vec<char>) -> (out: String)
    ensures
        out@ == chars@,
{
    chars.iter().collect()
}

/// Appends `more` to `out`.
pub fn append(out: &mut Vec<char>, more: &Vec<char>)
    ensures
        final(out)@ == old(out)@ + more@,
{
    let mut i: usize = 0;
    while i < more.len()
        invariant
            i <= more.len(),
            out@ == old(out)@ + more@.take(i as int),
        decreases more.len() - i,
    {
        out.push(more[i]);
        i += 1;
        assert(out@ =~= old(out)@ + more@.take(i as int));
    }
    assert(more@.take(i as int) =~= more@);
}

/// Appends the characters of `s` to `out`.
pub fn append_str(out: &mut Vec<char>, s: &str)
    ensures
        final(out)@ == old(out)@ + s@,
{
    let more = chars_of(s);
    append(out, &more);
}

/// Appends the characters of `src` from `from` up to `to`.
pub fn append_range(out: &mut Vec<char>, src: &Vec<char>, from: usize, to: usize)
    requires
        from <= to <= src.len(),
    ensures
        final(out)@ == old(out)@ + src@.subrange(from as int, to as int),
{
    let mut i: usize = from;
    while i < to
        invariant
            from <= i <= to <= src.len(),
            out@ == old(out)@ + src@.subrange(from as int, i as int),
        decreases to - i,
    {
        out.push(src[i]);
        i += 1;
        assert(out@ =~= old(out)@ + src@.subrange(from as int, i as int));
    }
}

/// `n` copies of `c`.
pub open spec fn repeat(c: char, n: nat) -> Seq<char> {
    Seq::new(n, |i: int| c)
}

/// Appends `n` copies of `c` to `out`.
pub fn append_repeat(out: &mut Vec<char>, c: char, n: usize)
    ensures
        final(out)@ == old(out)@ + repeat(c, n as nat),
{
    let mut i: usize = 0;
    while i < n
        invariant
            i <= n,
            out@ == old(out)@ + repeat(c, i as nat),
        decreases n - i,
    {
        out.push(c);
        i += 1;
        assert(out@ =~= old(out)@ + repeat(c, i as nat));
    }
}

/// Whether two texts hold the same characters.
pub fn same_text(a: &Vec<char>, b: &Vec<char>) -> (same: bool)
    ensures
        same == (a@ == b@),
{
    if a.len() != b.len() {
        return false;
    }
    let mut i: usize = 0;
    while i < a.len()
        invariant
            i <= a.len(),
            a.len() == b.len(),
            a@.take(i as int) == b@.take(i as int),
        decreases a.len() - i,
    {
        if a[i] != b[i] {
            return false;
        }
        i += 1;
        assert(a@.take(i as int) =~= a@.take(i - 1).push(a@[i - 1]));
        assert(b@.take(i as int) =~= b@.take(i - 1).push(b@[i - 1]));
    }
    assert(a@ =~= a@.take(i as int));
    assert(b@ =~= b@.take(i as int));
    true
}

/// Whether `text` holds a line break.
pub fn has_line_break(text: &Vec<char>) -> (found: bool)
    ensures
        found == text@.contains('\n'),
{
    let mut i: usize = 0;
    while i < text.len()
        invariant
            i <= text.len(),
            forall|k: int| 0 <= k < i ==> text@[k] != '\n',
        decreases text.len() - i,
    {
        if text[i] == '\n' {
            return true;
        }
        i += 1;
    }
    false
}

/// Whether `c` is blank: a space, a tab, a line feed or a carriage return.
pub open spec fn is_blank(c: char) -> bool {
    c == ' ' || c == '\t' || c == '\n' || c == '\r'
}

/// Whether `c` is blank.
pub fn blank(c: char) -> (yes: bool)
    ensures
        yes == is_blank(c),
{
    c == ' ' || c == '\t' || c == '\n' || c == '\r'
}

/// `text` without the blanks at its end.
pub open spec fn trim_end(text: Seq<char>) -> Seq<char>
    decreases text.len(),
{
    if text.len() > 0 && is_blank(text.last()) {
        trim_end(text.drop_last())
    } else {
        text
    }
}

/// `text` without the blanks at its start.
pub open spec fn trim_start(text: Seq<char>) -> Seq<char>
    decreases text.len(),
{
    if text.len() > 0 && is_blank(text.first()) {
        trim_start(text.drop_first())
    } else {
        text
    }
}

/// `text` without the blanks at either end.
pub open spec fn trim(text: Seq<char>) -> Seq<char> {
    trim_start(trim_end(text))
}

/// `text` without the line feeds and carriage returns at its start.
pub open spec fn drop_leading_breaks(text: Seq<char>) -> Seq<char>
    decreases text.len(),
{
    if text.len() > 0 && (text.first() == '\n' || text.first() == '\r') {
        drop_leading_breaks(text.drop_first())
    } else {
        text
    }
}

/// Where the blanks at the end of `text[..end]` begin.
pub fn trim_end_at(text: &Vec<char>, end: usize) -> (at: usize)
    requires
        end <= text.len(),
    ensures
        at <= end,
        text@.take(at as int) == trim_end(text@.take(end as int)),
{
    let mut at: usize = end;
    while at > 0 && blank(text[at - 1])
        invariant
            at <= end <= text.len(),
            trim_end(text@.take(end as int)) == trim_end(text@.take(at as int)),
        decreases at,
    {
        assert(text@.take(at as int).last() == text@[at - 1]);
        assert(text@.take(at as int).drop_last() =~= text@.take(at - 1));
        at -= 1;
    }
    proof {
        if at > 0 {
            assert(text@.take(at as int).last() == text@[at - 1]);
        }
    }
    at
}

/// Where the blanks at the start of `text[from..end]` stop.
pub fn trim_start_at(text: &Vec<char>, from: usize, end: usize) -> (at: usize)
    requires
        from <= end <= text.len(),
    ensures
        from <= at <= end,
        text@.subrange(at as int, end as int) == trim_start(text@.subrange(from as int, end as int)),
{
    let mut at: usize = from;
    while at < end && blank(text[at])
        invariant
            from <= at <= end <= text.len(),
            trim_start(text@.subrange(from as int, end as int)) == trim_start(
                text@.subrange(at as int, end as int),
            ),
        decreases end - at,
    {
        assert(text@.subrange(at as int, end as int).first() == text@[at as int]);
        assert(text@.subrange(at as int, end as int).drop_first() =~= text@.subrange(
            at + 1,
            end as int,
        ));
        at += 1;
    }
    proof {
        if at < end {
            assert(text@.subrange(at as int, end as int).first() == text@[at as int]);
        }
    }
    at
}

/// Where the line feeds and carriage returns at the start of
/// `text[from..end]` stop.
pub fn leading_breaks_end(text: &Vec<char>, from: usize, end: usize) -> (at: usize)
    requires
        from <= end <= text.len(),
    ensures
        from <= at <= end,
        text@.subrange(at as int, end as int) == drop_leading_breaks(
            text@.subrange(from as int, end as int),
        ),
{
    let mut at: usize = from;
    while at < end && (text[at] == '\n' || text[at] == '\r')
        invariant
            from <= at <= end <= text.len(),
            drop_leading_breaks(text@.subrange(from as int, end as int)) == drop_leading_breaks(
                text@.subrange(at as int, end as int),
            ),
        decreases end - at,
    {
        assert(text@.subrange(at as int, end as int).first() == text@[at as int]);
        assert(text@.subrange(at as int, end as int).drop_first() =~= text@.subrange(
            at + 1,
            end as int,
        ));
        at += 1;
    }
    proof {
        if at < end {
            assert(text@.subrange(at as int, end as int).first() == text@[at as int]);
        }
    }
    at
}

/// Whether `word` stands in `text` at position `i`.
pub open spec fn occurs_at(text: Seq<char>, word: Seq<char>, i: int) -> bool {
    0 <= i && i + word.len() <= text.len() && text.subrange(i, i + word.len()) == word
}

/// Whether `word` stands in `text` at position `i`.
pub fn stands_at(text: &Vec<char>, word: &Vec<char>, i: usize) -> (yes: bool)
    ensures
        yes == occurs_at(text@, word@, i as int),
{
    if i > text.len() || text.len() - i < word.len() {
        return false;
    }
    let mut k: usize = 0;
    while k < word.len()
        invariant
            k <= word.len(),
            i + word.len() <= text.len(),
            text@.subrange(i as int, i + k) == word@.take(k as int),
        decreases word.len() - k,
    {
        if text[i + k] != word[k] {
            assert(text@.subrange(i as int, i + word.len())[k as int] != word@[k as int]);
            return false;
        }
        k += 1;
        assert(text@.subrange(i as int, i + k) =~= text@.subrange(i as int, i + k - 1).push(
            text@[i + k - 1],
        ));
        assert(word@.take(k as int) =~= word@.take(k - 1).push(word@[k - 1]));
    }
    assert(word@.take(k as int) =~= word@);
    true
}

} // verus!
