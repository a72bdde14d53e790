//! The diff reporter: unified diffs of two texts, line by line, and of two
//! listings of a directory tree.

use vstd::prelude::*;
use crate::listing::DirectoryListing;
use crate::text::append;
use crate::text::append_str;
use crate::text::chars_of;
use crate::text::same_text;
use crate::text::string_of;

verus! {

/// Where the first line feed at or after `i` stands; the length of the text
/// where there is none.
pub open spec fn break_from(text: Seq<char>, i: int) -> int
    decreases text.len() - i,
{
    if i < 0 || i >= text.len() {
        text.len() as int
    } else if text[i] == '\n' {
        i
    } else {
        break_from(text, i + 1)
    }
}

/// The lines of `text` from `i` on. Each line keeps the line feed that ends
/// it; the last line has none where the text does not end in one.
pub open spec fn lines_from(text: Seq<char>, i: int) -> Seq<Seq<char>>
    decreases text.len() - i,
{
    if i < 0 || i >= text.len() {
        Seq::empty()
    } else {
        let stop = break_from(text, i);
        if i <= stop < text.len() {
            seq![text.subrange(i, stop + 1)] + lines_from(text, stop + 1)
        } else {
            seq![text.subrange(i, text.len() as int)]
        }
    }
}

/// The lines of `text`.
pub open spec fn lines(text: Seq<char>) -> Seq<Seq<char>> {
    lines_from(text, 0)
}

/// The texts of a run of lines.
pub open spec fn line_texts(lines: Seq<Vec<char>>) -> Seq<Seq<char>> {
    lines.map_values(|line: Vec<char>| line@)
}

/// The first line feed at or after `i` is at or after `i`, within the text,
/// and no line feed stands before it.
pub proof fn break_from_bounds(text: Seq<char>, i: int)
    requires
        0 <= i <= text.len(),
    ensures
        i <= break_from(text, i) <= text.len(),
        break_from(text, i) < text.len() ==> text[break_from(text, i)] == '\n',
        forall|k: int| i <= k < break_from(text, i) ==> text[k] != '\n',
    decreases text.len() - i,
{
    if i < text.len() && text[i] != '\n' {
        break_from_bounds(text, i + 1);
    }
}

/// Splits `text` into its lines.
pub fn split_lines(text: &Vec<char>) -> (out: Vec<Vec<char>>)
    ensures
        line_texts(out@) == lines(text@),
{
    let mut out: Vec<Vec<char>> = Vec::new();
    let mut start: usize = 0;
    assert(line_texts(out@) =~= Seq::<Seq<char>>::empty());
    while start < text.len()
        invariant
            start <= text.len(),
            line_texts(out@) + lines_from(text@, start as int) == lines(text@),
        decreases text.len() - start,
    {
        let mut stop: usize = start;
        while stop < text.len() && text[stop] != '\n'
            invariant
                start <= stop <= text.len(),
                break_from(text@, start as int) == break_from(text@, stop as int),
            decreases text.len() - stop,
        {
            stop += 1;
        }
        let ghost before = line_texts(out@);
        let mut line: Vec<char> = Vec::new();
        if stop < text.len() {
            crate::text::append_range(&mut line, text, start, stop + 1);
            assert(line@ =~= text@.subrange(start as int, stop + 1));
            let ghost rest = lines_from(text@, stop + 1);
            out.push(line);
            assert(line_texts(out@) =~= before + seq![text@.subrange(start as int, stop + 1)]);
            assert(before + (seq![text@.subrange(start as int, stop + 1)] + rest) =~= (before
                + seq![text@.subrange(start as int, stop + 1)]) + rest);
            start = stop + 1;
        } else {
            crate::text::append_range(&mut line, text, start, stop);
            assert(line@ =~= text@.subrange(start as int, text.len() as int));
            out.push(line);
            assert(line_texts(out@) =~= before + seq![
                text@.subrange(start as int, text.len() as int),
            ]);
            start = stop;
        }
    }
    assert(line_texts(out@) + Seq::<Seq<char>>::empty() =~= line_texts(out@));
    out
}

/// The digit for a number below ten.
pub open spec fn digit(n: nat) -> char {
    if n == 0 {
        '0'
    } else if n == 1 {
        '1'
    } else if n == 2 {
        '2'
    } else if n == 3 {
        '3'
    } else if n == 4 {
        '4'
    } else if n == 5 {
        '5'
    } else if n == 6 {
        '6'
    } else if n == 7 {
        '7'
    } else if n == 8 {
        '8'
    } else {
        '9'
    }
}

/// A number in decimal digits.
pub open spec fn decimal(n: nat) -> Seq<char>
    decreases n,
{
    if n < 10 {
        seq![digit(n)]
    } else {
        decimal(n / 10) + seq![digit(n % 10)]
    }
}

/// The digit for a number below ten.
fn digit_of(n: usize) -> (c: char)
    requires
        n < 10,
    ensures
        c == digit(n as nat),
{
    if n == 0 {
        '0'
    } else if n == 1 {
        '1'
    } else if n == 2 {
        '2'
    } else if n == 3 {
        '3'
    } else if n == 4 {
        '4'
    } else if n == 5 {
        '5'
    } else if n == 6 {
        '6'
    } else if n == 7 {
        '7'
    } else if n == 8 {
        '8'
    } else {
        '9'
    }
}

/// Appends `n` in decimal digits.
pub fn append_decimal(out: &mut Vec<char>, n: usize)
    ensures
        final(out)@ == old(out)@ + decimal(n as nat),
    decreases n,
{
    if n < 10 {
        out.push(digit_of(n));
        assert(out@ =~= old(out)@ + seq![digit(n as nat)]);
    } else {
        append_decimal(out, n / 10);
        out.push(digit_of(n % 10));
        assert(out@ =~= old(out)@ + (decimal((n / 10) as nat) + seq![digit((n % 10) as nat)]));
    }
}

/// One step of an edit script: a line that both texts have, a line that only
/// the old text has, a line that only the new text has.
#[derive(Clone, Copy, Debug, PartialEq, Eq, Structural)]
pub enum Edit {
    Keep,
    Delete,
    Insert,
}

/// How many lines the two texts share from line `i` on, line by line.
pub open spec fn common_prefix_from(a: Seq<Seq<char>>, b: Seq<Seq<char>>, i: int) -> nat
    decreases a.len() - i,
{
    if 0 <= i < a.len() && i < b.len() && a[i] == b[i] {
        1 + common_prefix_from(a, b, i + 1)
    } else {
        0
    }
}

/// How many lines the two texts share at their start.
pub open spec fn common_prefix(a: Seq<Seq<char>>, b: Seq<Seq<char>>) -> nat {
    common_prefix_from(a, b, 0)
}

/// How many more lines the two texts share at their end, `k` being shared
/// already and `room` the most that may be.
pub open spec fn common_suffix_from(a: Seq<Seq<char>>, b: Seq<Seq<char>>, k: int, room: int) -> nat
    decreases room - k,
{
    if 0 <= k < room && k < a.len() && k < b.len() && a[a.len() - 1 - k] == b[b.len() - 1 - k] {
        1 + common_suffix_from(a, b, k + 1, room)
    } else {
        0
    }
}

/// The smaller of two numbers.
pub open spec fn smaller(x: int, y: int) -> int {
    if x <= y {
        x
    } else {
        y
    }
}

/// How many lines the two texts share at their end, beyond those they share
/// at their start.
pub open spec fn common_suffix(a: Seq<Seq<char>>, b: Seq<Seq<char>>) -> nat {
    common_suffix_from(a, b, 0, smaller(a.len() as int, b.len() as int) - common_prefix(a, b))
}

/// The length of the longest run of lines that `x` from `i` on and `y` from
/// `j` on have in common, in order.
pub open spec fn lcs(x: Seq<Seq<char>>, y: Seq<Seq<char>>, i: int, j: int) -> nat
    decreases (x.len() - i) + (y.len() - j),
{
    if i < 0 || j < 0 || i >= x.len() || j >= y.len() {
        0
    } else if x[i] == y[j] {
        1 + lcs(x, y, i + 1, j + 1)
    } else if lcs(x, y, i + 1, j) >= lcs(x, y, i, j + 1) {
        lcs(x, y, i + 1, j)
    } else {
        lcs(x, y, i, j + 1)
    }
}

/// The edit script that turns `x` from `i` on into `y` from `j` on: a line
/// that both have next is kept; otherwise the old line goes first unless
/// more lines can be kept by taking the new line first.
pub open spec fn edits(x: Seq<Seq<char>>, y: Seq<Seq<char>>, i: int, j: int) -> Seq<Edit>
    decreases (x.len() - i) + (y.len() - j),
{
    if i < 0 || j < 0 || i > x.len() || j > y.len() || (i == x.len() && j == y.len()) {
        Seq::empty()
    } else if i >= x.len() {
        seq![Edit::Insert] + edits(x, y, i, j + 1)
    } else if j >= y.len() {
        seq![Edit::Delete] + edits(x, y, i + 1, j)
    } else if x[i] == y[j] {
        seq![Edit::Keep] + edits(x, y, i + 1, j + 1)
    } else if lcs(x, y, i + 1, j) >= lcs(x, y, i, j + 1) {
        seq![Edit::Delete] + edits(x, y, i + 1, j)
    } else {
        seq![Edit::Insert] + edits(x, y, i, j + 1)
    }
}

/// `n` kept lines.
pub open spec fn keeps(n: nat) -> Seq<Edit> {
    Seq::new(n, |i: int| Edit::Keep)
}

/// The edit script that turns the lines `a` into the lines `b`: the lines
/// shared at the start and at the end are kept, and what lies between is
/// edited so that as many lines as can be are kept.
pub open spec fn script(a: Seq<Seq<char>>, b: Seq<Seq<char>>) -> Seq<Edit> {
    let p = common_prefix(a, b) as int;
    let s = common_suffix(a, b) as int;
    keeps(p as nat) + edits(a.subrange(p, a.len() - s), b.subrange(p, b.len() - s), 0, 0) + keeps(
        s as nat,
    )
}

/// No more lines are shared than either side has left.
pub proof fn lcs_bound(x: Seq<Seq<char>>, y: Seq<Seq<char>>, i: int, j: int)
    requires
        0 <= i <= x.len(),
        0 <= j <= y.len(),
    ensures
        lcs(x, y, i, j) <= x.len() - i,
        lcs(x, y, i, j) <= y.len() - j,
    decreases (x.len() - i) + (y.len() - j),
{
    if i < x.len() && j < y.len() {
        lcs_bound(x, y, i + 1, j + 1);
        lcs_bound(x, y, i + 1, j);
        lcs_bound(x, y, i, j + 1);
    }
}

/// The shared lines at the start are within both texts.
pub proof fn common_prefix_bound(a: Seq<Seq<char>>, b: Seq<Seq<char>>, i: int)
    requires
        0 <= i <= a.len(),
        i <= b.len(),
    ensures
        i + common_prefix_from(a, b, i) <= a.len(),
        i + common_prefix_from(a, b, i) <= b.len(),
    decreases a.len() - i,
{
    if i < a.len() && i < b.len() && a[i] == b[i] {
        common_prefix_bound(a, b, i + 1);
    }
}

/// The shared lines at the end are no more than the room for them.
pub proof fn common_suffix_bound(a: Seq<Seq<char>>, b: Seq<Seq<char>>, k: int, room: int)
    requires
        0 <= k <= room,
    ensures
        k + common_suffix_from(a, b, k, room) <= room,
    decreases room - k,
{
    if k < room && k < a.len() && k < b.len() && a[a.len() - 1 - k] == b[b.len() - 1 - k] {
        common_suffix_bound(a, b, k + 1, room);
    }
}

/// How many lines two texts share at their start.
pub fn shared_start(a: &Vec<Vec<char>>, b: &Vec<Vec<char>>) -> (p: usize)
    ensures
        p == common_prefix(line_texts(a@), line_texts(b@)),
        p <= a.len(),
        p <= b.len(),
{
    let ghost xs = line_texts(a@);
    let ghost ys = line_texts(b@);
    let mut p: usize = 0;
    while p < a.len() && p < b.len() && same_text(&a[p], &b[p])
        invariant
            p <= a.len(),
            p <= b.len(),
            xs == line_texts(a@),
            ys == line_texts(b@),
            common_prefix(xs, ys) == p + common_prefix_from(xs, ys, p as int),
        decreases a.len() - p,
    {
        assert(xs[p as int] == a@[p as int]@);
        assert(ys[p as int] == b@[p as int]@);
        p += 1;
    }
    proof {
        if p < a.len() && p < b.len() {
            assert(xs[p as int] == a@[p as int]@);
            assert(ys[p as int] == b@[p as int]@);
        }
    }
    p
}

/// How many lines two texts share at their end, beyond the `p` that they
/// share at their start.
pub fn shared_end(a: &Vec<Vec<char>>, b: &Vec<Vec<char>>, p: usize) -> (s: usize)
    requires
        p == common_prefix(line_texts(a@), line_texts(b@)),
        p <= a.len(),
        p <= b.len(),
    ensures
        s == common_suffix(line_texts(a@), line_texts(b@)),
        p + s <= a.len(),
        p + s <= b.len(),
{
    let ghost xs = line_texts(a@);
    let ghost ys = line_texts(b@);
    let room = if a.len() <= b.len() {
        a.len() - p
    } else {
        b.len() - p
    };
    let mut s: usize = 0;
    while s < room && same_text(&a[a.len() - 1 - s], &b[b.len() - 1 - s])
        invariant
            s <= room,
            room == smaller(a.len() as int, b.len() as int) - p,
            p <= a.len(),
            p <= b.len(),
            xs == line_texts(a@),
            ys == line_texts(b@),
            common_suffix(xs, ys) == s + common_suffix_from(xs, ys, s as int, room as int),
        decreases room - s,
    {
        assert(xs[a.len() - 1 - s] == a@[a.len() - 1 - s]@);
        assert(ys[b.len() - 1 - s] == b@[b.len() - 1 - s]@);
        s += 1;
    }
    proof {
        if s < room {
            assert(xs[a.len() - 1 - s] == a@[a.len() - 1 - s]@);
            assert(ys[b.len() - 1 - s] == b@[b.len() - 1 - s]@);
        }
    }
    s
}

/// Whether `rows` holds the lengths of the longest common runs for the
/// lines of `x` from line `from` on: the last row is for the last line of
/// `x`, and each row has an entry for every line of `y`.
pub open spec fn rows_hold(
    rows: Seq<Vec<usize>>,
    x: Seq<Seq<char>>,
    y: Seq<Seq<char>>,
    from: int,
) -> bool {
    &&& rows.len() == x.len() - from
    &&& forall|r: int| 0 <= r < rows.len() ==> (#[trigger] rows[r]).len() == y.len()
    &&& forall|r: int, j: int|
        0 <= r < rows.len() && 0 <= j < y.len() ==> #[trigger] rows[r][j] == lcs(
            x,
            y,
            x.len() - 1 - r,
            j,
        )
}

/// The entry of `row` at `j`, and nothing beyond its end.
fn entry(row: &Vec<usize>, j: usize) -> (value: usize)
    ensures
        value == if j < row.len() {
            row[j as int]
        } else {
            0
        },
{
    if j < row.len() {
        row[j]
    } else {
        0
    }
}

/// The row of the table for line `i` of `x`, from the row for the line
/// after it.
fn lcs_row(x: &Vec<Vec<char>>, y: &Vec<Vec<char>>, i: usize, below: &Vec<usize>) -> (row: Vec<
    usize,
>)
    requires
        i < x.len(),
        i + 1 < x.len() ==> below.len() == y.len(),
        i + 1 == x.len() ==> below.len() == 0,
        forall|j: int|
            0 <= j < below.len() ==> #[trigger] below[j] == lcs(
                line_texts(x@),
                line_texts(y@),
                i + 1,
                j,
            ),
    ensures
        row.len() == y.len(),
        forall|j: int|
            0 <= j < y.len() ==> #[trigger] row[j] == lcs(line_texts(x@), line_texts(y@), i as int, j),
{
    let ghost xs = line_texts(x@);
    let ghost ys = line_texts(y@);
    let m = y.len();
    let mut row: Vec<usize> = Vec::new();
    let mut filled: usize = 0;
    while filled < m
        invariant
            filled <= m,
            row.len() == filled,
        decreases m - filled,
    {
        row.push(0);
        filled += 1;
    }
    let mut j: usize = m;
    while j > 0
        invariant
            j <= m,
            m == y.len(),
            i < x.len(),
            row.len() == m,
            xs == line_texts(x@),
            ys == line_texts(y@),
            i + 1 < x.len() ==> below.len() == y.len(),
            i + 1 == x.len() ==> below.len() == 0,
            forall|k: int| 0 <= k < below.len() ==> #[trigger] below[k] == lcs(xs, ys, i + 1, k),
            forall|k: int| j <= k < m ==> #[trigger] row[k] == lcs(xs, ys, i as int, k),
        decreases j,
    {
        j -= 1;
        let down = entry(below, j);
        let right = entry(&row, j + 1);
        let diagonal = entry(below, j + 1);
        proof {
            lcs_bound(xs, ys, i + 1, j + 1);
            assert(xs[i as int] == x@[i as int]@);
            assert(ys[j as int] == y@[j as int]@);
            assert(down == lcs(xs, ys, i + 1, j as int));
            assert(right == lcs(xs, ys, i as int, j + 1));
            assert(diagonal == lcs(xs, ys, i + 1, j + 1));
        }
        let value = if same_text(&x[i], &y[j]) {
            diagonal + 1
        } else if down >= right {
            down
        } else {
            right
        };
        row.set(j, value);
    }
    row
}

/// The table of the lengths of the longest common runs, a row for each line
/// of `x`, the row of the last line first.
fn lcs_table(x: &Vec<Vec<char>>, y: &Vec<Vec<char>>) -> (rows: Vec<Vec<usize>>)
    ensures
        rows_hold(rows@, line_texts(x@), line_texts(y@), 0),
{
    let ghost xs = line_texts(x@);
    let ghost ys = line_texts(y@);
    let n = x.len();
    let mut rows: Vec<Vec<usize>> = Vec::new();
    let mut i: usize = n;
    while i > 0
        invariant
            i <= n,
            n == x.len(),
            xs == line_texts(x@),
            ys == line_texts(y@),
            rows_hold(rows@, xs, ys, i as int),
        decreases i,
    {
        i -= 1;
        let row = if rows.len() == 0 {
            let none: Vec<usize> = Vec::new();
            lcs_row(x, y, i, &none)
        } else {
            let last = rows.len() - 1;
            assert(rows@[last as int].len() == y.len());
            assert forall|j: int| 0 <= j < rows@[last as int].len() implies #[trigger] rows@[last as int][j]
                == lcs(xs, ys, i + 1, j) by {
                assert(rows@[last as int][j] == lcs(xs, ys, x.len() - 1 - last, j));
            }
            lcs_row(x, y, i, &rows[last])
        };
        let ghost before = rows@;
        rows.push(row);
        assert forall|r: int| 0 <= r < rows@.len() implies (#[trigger] rows@[r]).len()
            == y.len() by {
            if r < before.len() {
                assert(rows@[r] == before[r]);
            }
        }
        assert forall|r: int, j: int| 0 <= r < rows@.len() && 0 <= j < y.len() implies #[trigger] rows@[r][j]
            == lcs(xs, ys, x.len() - 1 - r, j) by {
            if r < before.len() {
                assert(rows@[r] == before[r]);
                assert(before[r][j] == lcs(xs, ys, x.len() - 1 - r, j));
            }
        }
    }
    rows
}

/// The entry of the table for line `i` of `x` and line `j` of `y`, and
/// nothing beyond either end.
fn lookup(rows: &Vec<Vec<usize>>, x: &Vec<Vec<char>>, y: &Vec<Vec<char>>, i: usize, j: usize) -> (value:
    usize)
    requires
        rows_hold(rows@, line_texts(x@), line_texts(y@), 0),
        i <= x.len(),
        j <= y.len(),
    ensures
        value == lcs(line_texts(x@), line_texts(y@), i as int, j as int),
{
    if i >= x.len() || j >= y.len() {
        0
    } else {
        let r = x.len() - 1 - i;
        assert(rows@[r as int].len() == y.len());
        assert(rows@[r as int][j as int] == lcs(
            line_texts(x@),
            line_texts(y@),
            x.len() - 1 - r,
            j as int,
        ));
        rows[r][j]
    }
}

/// The edit script that turns `x` into `y` with as many lines kept as can
/// be.
pub fn middle_edits(x: &Vec<Vec<char>>, y: &Vec<Vec<char>>) -> (out: Vec<Edit>)
    ensures
        out@ == edits(line_texts(x@), line_texts(y@), 0, 0),
{
    let ghost xs = line_texts(x@);
    let ghost ys = line_texts(y@);
    let rows = lcs_table(x, y);
    let mut out: Vec<Edit> = Vec::new();
    let mut i: usize = 0;
    let mut j: usize = 0;
    while i < x.len() || j < y.len()
        invariant
            i <= x.len(),
            j <= y.len(),
            xs == line_texts(x@),
            ys == line_texts(y@),
            rows_hold(rows@, xs, ys, 0),
            out@ + edits(xs, ys, i as int, j as int) == edits(xs, ys, 0, 0),
        decreases (x.len() - i) + (y.len() - j),
    {
        let ghost before = out@;
        if i >= x.len() {
            out.push(Edit::Insert);
            assert(before + (seq![Edit::Insert] + edits(xs, ys, i as int, j + 1)) =~= (before
                + seq![Edit::Insert]) + edits(xs, ys, i as int, j + 1));
            j += 1;
        } else if j >= y.len() {
            out.push(Edit::Delete);
            assert(before + (seq![Edit::Delete] + edits(xs, ys, i + 1, j as int)) =~= (before
                + seq![Edit::Delete]) + edits(xs, ys, i + 1, j as int));
            i += 1;
        } else {
            assert(xs[i as int] == x@[i as int]@);
            assert(ys[j as int] == y@[j as int]@);
            if same_text(&x[i], &y[j]) {
                out.push(Edit::Keep);
                assert(before + (seq![Edit::Keep] + edits(xs, ys, i + 1, j + 1)) =~= (before
                    + seq![Edit::Keep]) + edits(xs, ys, i + 1, j + 1));
                i += 1;
                j += 1;
            } else {
                let down = lookup(&rows, x, y, i + 1, j);
                let right = lookup(&rows, x, y, i, j + 1);
                if down >= right {
                    out.push(Edit::Delete);
                    assert(before + (seq![Edit::Delete] + edits(xs, ys, i + 1, j as int)) =~= (
                    before + seq![Edit::Delete]) + edits(xs, ys, i + 1, j as int));
                    i += 1;
                } else {
                    out.push(Edit::Insert);
                    assert(before + (seq![Edit::Insert] + edits(xs, ys, i as int, j + 1)) =~= (
                    before + seq![Edit::Insert]) + edits(xs, ys, i as int, j + 1));
                    j += 1;
                }
            }
        }
    }
    assert(out@ + Seq::<Edit>::empty() =~= out@);
    out
}

/// Copies the lines from `from` up to `to`.
fn copy_lines(lines: &Vec<Vec<char>>, from: usize, to: usize) -> (out: Vec<Vec<char>>)
    requires
        from <= to <= lines.len(),
    ensures
        line_texts(out@) == line_texts(lines@).subrange(from as int, to as int),
{
    let mut out: Vec<Vec<char>> = Vec::new();
    let mut i: usize = from;
    assert(line_texts(out@) =~= line_texts(lines@).subrange(from as int, from as int));
    while i < to
        invariant
            from <= i <= to <= lines.len(),
            line_texts(out@) == line_texts(lines@).subrange(from as int, i as int),
        decreases to - i,
    {
        let mut line: Vec<char> = Vec::new();
        append(&mut line, &lines[i]);
        assert(line@ =~= lines@[i as int]@);
        let ghost before = line_texts(out@);
        out.push(line);
        assert(line_texts(out@) =~= before.push(lines@[i as int]@));
        assert(line_texts(lines@)[i as int] == lines@[i as int]@);
        i += 1;
        assert(line_texts(lines@).subrange(from as int, i as int) =~= before.push(
            line_texts(lines@)[i - 1],
        ));
    }
    out
}

/// The edit script that turns the lines `a` into the lines `b`.
pub fn edit_script(a: &Vec<Vec<char>>, b: &Vec<Vec<char>>) -> (out: Vec<Edit>)
    ensures
        out@ == script(line_texts(a@), line_texts(b@)),
{
    let p = shared_start(a, b);
    let s = shared_end(a, b, p);
    let x = copy_lines(a, p, a.len() - s);
    let y = copy_lines(b, p, b.len() - s);
    let middle = middle_edits(&x, &y);
    let mut out: Vec<Edit> = Vec::new();
    let mut k: usize = 0;
    while k < p
        invariant
            k <= p,
            out@ == keeps(k as nat),
        decreases p - k,
    {
        out.push(Edit::Keep);
        k += 1;
        assert(out@ =~= keeps(k as nat));
    }
    let mut k: usize = 0;
    while k < middle.len()
        invariant
            k <= middle.len(),
            out@ == keeps(p as nat) + middle@.take(k as int),
        decreases middle.len() - k,
    {
        out.push(middle[k]);
        k += 1;
        assert(out@ =~= keeps(p as nat) + middle@.take(k as int));
    }
    assert(middle@.take(k as int) =~= middle@);
    let mut k: usize = 0;
    while k < s
        invariant
            k <= s,
            out@ == keeps(p as nat) + middle@ + keeps(k as nat),
        decreases s - k,
    {
        out.push(Edit::Keep);
        k += 1;
        assert(out@ =~= keeps(p as nat) + middle@ + keeps(k as nat));
    }
    out
}

/// Whether step `c` of the script is a change.
pub open spec fn changed(script: Seq<Edit>, c: int) -> bool {
    0 <= c < script.len() && script[c] != Edit::Keep
}

/// Whether step `k` is printed: a change, or one of the three lines before
/// or after a change.
pub open spec fn in_hunk(script: Seq<Edit>, k: int) -> bool {
    changed(script, k - 3) || changed(script, k - 2) || changed(script, k - 1) || changed(
        script,
        k,
    ) || changed(script, k + 1) || changed(script, k + 2) || changed(script, k + 3)
}

/// Where the run of printed steps that holds `k` ends.
pub open spec fn hunk_end(script: Seq<Edit>, k: int) -> int
    decreases script.len() - k,
{
    if 0 <= k < script.len() && in_hunk(script, k) {
        hunk_end(script, k + 1)
    } else {
        k
    }
}

/// How many lines of the old text the steps from `from` up to `to` cover.
pub open spec fn olds(script: Seq<Edit>, from: int, to: int) -> nat
    decreases to - from,
{
    if 0 <= from < to <= script.len() {
        (if script[from] == Edit::Insert {
            0nat
        } else {
            1nat
        }) + olds(script, from + 1, to)
    } else {
        0
    }
}

/// How many lines of the new text the steps from `from` up to `to` cover.
pub open spec fn news(script: Seq<Edit>, from: int, to: int) -> nat
    decreases to - from,
{
    if 0 <= from < to <= script.len() {
        (if script[from] == Edit::Delete {
            0nat
        } else {
            1nat
        }) + news(script, from + 1, to)
    } else {
        0
    }
}

/// A range of lines in a hunk header: the number of the first line, a comma
/// and the count; the first line alone where the count is one; the line
/// before where the count is zero.
pub open spec fn span_text(start: nat, count: nat) -> Seq<char> {
    if count == 1 {
        decimal(start + 1)
    } else if count == 0 {
        decimal(start) + seq![',', '0']
    } else {
        decimal(start + 1) + seq![','] + decimal(count)
    }
}

/// The header of a hunk that covers `old_count` lines of the old text after
/// its first `old_start`, and `new_count` lines of the new text after its
/// first `new_start`.
pub open spec fn hunk_header(old_start: nat, old_count: nat, new_start: nat, new_count: nat)
    -> Seq<char> {
    seq!['@', '@', ' ', '-'] + span_text(old_start, old_count) + seq![' ', '+'] + span_text(
        new_start,
        new_count,
    ) + seq![' ', '@', '@', '\n']
}

/// The note after a line that does not end in a line feed.
pub open spec fn no_newline_note() -> Seq<char> {
    seq!['\n', '\\', ' ', 'N', 'o', ' ', 'n', 'e', 'w', 'l', 'i', 'n', 'e', ' ', 'a', 't', ' ', 'e', 'n', 'd', ' ', 'o', 'f', ' ', 'f', 'i', 'l', 'e', '\n']
}

/// A line of a hunk: its mark, the line, and the note where the line does
/// not end in a line feed.
pub open spec fn marked_line(mark: char, line: Seq<char>) -> Seq<char> {
    if line.len() > 0 && line.last() == '\n' {
        seq![mark] + line
    } else {
        seq![mark] + line + no_newline_note()
    }
}

/// Line `i` of `lines`; the empty line where there is no such line.
pub open spec fn line_or_empty(lines: Seq<Seq<char>>, i: int) -> Seq<char> {
    if 0 <= i < lines.len() {
        lines[i]
    } else {
        Seq::empty()
    }
}

/// The lines of a hunk for the steps from `k` up to `end`, `ai` lines of the
/// old text and `bi` lines of the new text having gone before.
pub open spec fn hunk_body(
    script: Seq<Edit>,
    a: Seq<Seq<char>>,
    b: Seq<Seq<char>>,
    k: int,
    end: int,
    ai: int,
    bi: int,
) -> Seq<char>
    decreases end - k,
{
    if 0 <= k < end <= script.len() {
        match script[k] {
            Edit::Keep => marked_line(' ', line_or_empty(a, ai)) + hunk_body(
                script,
                a,
                b,
                k + 1,
                end,
                ai + 1,
                bi + 1,
            ),
            Edit::Delete => marked_line('-', line_or_empty(a, ai)) + hunk_body(
                script,
                a,
                b,
                k + 1,
                end,
                ai + 1,
                bi,
            ),
            Edit::Insert => marked_line('+', line_or_empty(b, bi)) + hunk_body(
                script,
                a,
                b,
                k + 1,
                end,
                ai,
                bi + 1,
            ),
        }
    } else {
        Seq::empty()
    }
}

/// The hunks for the steps from `k` on, `ai` lines of the old text and `bi`
/// lines of the new text having gone before: every run of printed steps
/// under a header of its own.
pub open spec fn hunks(
    script: Seq<Edit>,
    a: Seq<Seq<char>>,
    b: Seq<Seq<char>>,
    k: int,
    ai: int,
    bi: int,
) -> Seq<char>
    decreases script.len() - k,
{
    if k < 0 || k >= script.len() || ai < 0 || bi < 0 {
        Seq::empty()
    } else if !in_hunk(script, k) {
        hunks(script, a, b, k + 1, ai + 1, bi + 1)
    } else {
        let end = hunk_end(script, k);
        let old_count = olds(script, k, end);
        let new_count = news(script, k, end);
        if k < end <= script.len() {
            hunk_header(ai as nat, old_count, bi as nat, new_count) + hunk_body(
                script,
                a,
                b,
                k,
                end,
                ai,
                bi,
            ) + hunks(script, a, b, end, ai + old_count, bi + new_count)
        } else {
            Seq::empty()
        }
    }
}

/// The two lines that head a diff.
pub open spec fn file_header(old_name: Seq<char>, new_name: Seq<char>) -> Seq<char> {
    seq!['-', '-', '-', ' '] + old_name + seq!['\n', '+', '+', '+', ' '] + new_name + seq!['\n']
}

/// The unified diff of two runs of lines: nothing where no line differs,
/// else the header and the hunks.
pub open spec fn diff_of_lines(
    old_name: Seq<char>,
    new_name: Seq<char>,
    a: Seq<Seq<char>>,
    b: Seq<Seq<char>>,
) -> Seq<char> {
    let body = hunks(script(a, b), a, b, 0, 0, 0);
    if body.len() == 0 {
        Seq::empty()
    } else {
        file_header(old_name, new_name) + body
    }
}

/// The run of printed steps that holds `k` ends after `k` and within the
/// script.
pub proof fn hunk_end_bounds(script: Seq<Edit>, k: int)
    requires
        0 <= k <= script.len(),
    ensures
        k <= hunk_end(script, k) <= script.len(),
        0 <= k < script.len() && in_hunk(script, k) ==> k < hunk_end(script, k),
    decreases script.len() - k,
{
    if k < script.len() && in_hunk(script, k) {
        hunk_end_bounds(script, k + 1);
    }
}

/// Whether step `c` of the script is a change.
fn is_change(script: &Vec<Edit>, c: usize) -> (yes: bool)
    ensures
        yes == changed(script@, c as int),
{
    if c < script.len() {
        match script[c] {
            Edit::Keep => false,
            _ => true,
        }
    } else {
        false
    }
}

/// Whether step `k` is printed.
fn is_in_hunk(script: &Vec<Edit>, k: usize) -> (yes: bool)
    requires
        k < script.len(),
    ensures
        yes == in_hunk(script@, k as int),
{
    let n = script.len();
    (k >= 3 && is_change(script, k - 3)) || (k >= 2 && is_change(script, k - 2)) || (k >= 1
        && is_change(script, k - 1)) || is_change(script, k) || (n - k > 1 && is_change(
        script,
        k + 1,
    )) || (n - k > 2 && is_change(script, k + 2)) || (n - k > 3 && is_change(script, k + 3))
}

/// Appends a range of lines as a hunk header has it.
fn append_span(out: &mut Vec<char>, start: usize, count: usize)
    requires
        start < usize::MAX,
    ensures
        final(out)@ == old(out)@ + span_text(start as nat, count as nat),
{
    if count == 1 {
        append_decimal(out, start + 1);
    } else if count == 0 {
        append_decimal(out, start);
        out.push(',');
        out.push('0');
        assert(out@ =~= old(out)@ + (decimal(start as nat) + seq![',', '0']));
    } else {
        append_decimal(out, start + 1);
        out.push(',');
        append_decimal(out, count);
        assert(out@ =~= old(out)@ + (decimal((start + 1) as nat) + seq![','] + decimal(
            count as nat,
        )));
    }
}

/// Appends a line of a hunk.
fn append_marked(out: &mut Vec<char>, mark: char, lines: &Vec<Vec<char>>, i: usize)
    ensures
        final(out)@ == old(out)@ + marked_line(mark, line_or_empty(line_texts(lines@), i as int)),
{
    out.push(mark);
    let mut ended = false;
    if i < lines.len() {
        assert(line_texts(lines@)[i as int] == lines@[i as int]@);
        let line = &lines[i];
        append(out, line);
        ended = line.len() > 0 && line[line.len() - 1] == '\n';
    }
    if !ended {
        append_str(out, "\n\\ No newline at end of file\n");
        proof {
            reveal_strlit("\n\\ No newline at end of file\n");
            assert("\n\\ No newline at end of file\n"@ =~= no_newline_note());
        }
    }
    assert(out@ =~= old(out)@ + marked_line(mark, line_or_empty(line_texts(lines@), i as int)));
}

/// The hunks of an edit script over the lines `a` and `b`.
pub fn render_hunks(script: &Vec<Edit>, a: &Vec<Vec<char>>, b: &Vec<Vec<char>>) -> (out: Vec<char>)
    ensures
        out@ == hunks(script@, line_texts(a@), line_texts(b@), 0, 0, 0),
{
    let ghost xs = line_texts(a@);
    let ghost ys = line_texts(b@);
    let ghost whole = hunks(script@, xs, ys, 0, 0, 0);
    let n = script.len();
    let mut out: Vec<char> = Vec::new();
    let mut k: usize = 0;
    let mut ai: usize = 0;
    let mut bi: usize = 0;
    assert(out@ + whole =~= whole);
    while k < n
        invariant
            k <= n,
            n == script.len(),
            ai <= k,
            bi <= k,
            xs == line_texts(a@),
            ys == line_texts(b@),
            out@ + hunks(script@, xs, ys, k as int, ai as int, bi as int) == whole,
        decreases n - k,
    {
        if !is_in_hunk(script, k) {
            k += 1;
            ai += 1;
            bi += 1;
        } else {
            let mut end: usize = k;
            while end < n && is_in_hunk(script, end)
                invariant
                    k <= end <= n,
                    n == script.len(),
                    hunk_end(script@, k as int) == hunk_end(script@, end as int),
                decreases n - end,
            {
                end += 1;
            }
            proof {
                hunk_end_bounds(script@, k as int);
            }
            let mut old_count: usize = 0;
            let mut new_count: usize = 0;
            let mut t: usize = end;
            while t > k
                invariant
                    k <= t <= end <= n,
                    n == script.len(),
                    old_count == olds(script@, t as int, end as int),
                    new_count == news(script@, t as int, end as int),
                    old_count <= end - t,
                    new_count <= end - t,
                decreases t,
            {
                t -= 1;
                match script[t] {
                    Edit::Keep => {
                        old_count += 1;
                        new_count += 1;
                    },
                    Edit::Delete => {
                        old_count += 1;
                    },
                    Edit::Insert => {
                        new_count += 1;
                    },
                }
            }
            let ghost start_out = out@;
            let ghost rest = hunks(
                script@,
                xs,
                ys,
                end as int,
                ai + old_count,
                bi + new_count,
            );
            let ghost head = hunk_header(
                ai as nat,
                old_count as nat,
                bi as nat,
                new_count as nat,
            );
            let ghost lines_of_hunk = hunk_body(
                script@,
                xs,
                ys,
                k as int,
                end as int,
                ai as int,
                bi as int,
            );
            append_str(&mut out, "@@ -");
            append_span(&mut out, ai, old_count);
            append_str(&mut out, " +");
            append_span(&mut out, bi, new_count);
            append_str(&mut out, " @@\n");
            proof {
                reveal_strlit("@@ -");
                reveal_strlit(" +");
                reveal_strlit(" @@\n");
                assert("@@ -"@ =~= seq!['@', '@', ' ', '-']);
                assert(" +"@ =~= seq![' ', '+']);
                assert(" @@\n"@ =~= seq![' ', '@', '@', '\n']);
                assert(out@ =~= start_out + head);
            }
            let mut t: usize = k;
            let mut at_old: usize = ai;
            let mut at_new: usize = bi;
            while t < end
                invariant
                    k <= t <= end <= n,
                    n == script.len(),
                    xs == line_texts(a@),
                    ys == line_texts(b@),
                    at_old <= t,
                    at_new <= t,
                    at_old + olds(script@, t as int, end as int) == ai + old_count,
                    at_new + news(script@, t as int, end as int) == bi + new_count,
                    out@ + hunk_body(
                        script@,
                        xs,
                        ys,
                        t as int,
                        end as int,
                        at_old as int,
                        at_new as int,
                    ) == start_out + head + lines_of_hunk,
                decreases end - t,
            {
                let ghost before = out@;
                let ghost line_rest_keep = hunk_body(
                    script@,
                    xs,
                    ys,
                    t + 1,
                    end as int,
                    at_old + 1,
                    at_new + 1,
                );
                let ghost line_rest_delete = hunk_body(
                    script@,
                    xs,
                    ys,
                    t + 1,
                    end as int,
                    at_old + 1,
                    at_new as int,
                );
                let ghost line_rest_insert = hunk_body(
                    script@,
                    xs,
                    ys,
                    t + 1,
                    end as int,
                    at_old as int,
                    at_new + 1,
                );
                match script[t] {
                    Edit::Keep => {
                        append_marked(&mut out, ' ', a, at_old);
                        let ghost piece = marked_line(' ', line_or_empty(xs, at_old as int));
                        assert(before + (piece + line_rest_keep) =~= (before + piece)
                            + line_rest_keep);
                        at_old += 1;
                        at_new += 1;
                    },
                    Edit::Delete => {
                        append_marked(&mut out, '-', a, at_old);
                        let ghost piece = marked_line('-', line_or_empty(xs, at_old as int));
                        assert(before + (piece + line_rest_delete) =~= (before + piece)
                            + line_rest_delete);
                        at_old += 1;
                    },
                    Edit::Insert => {
                        append_marked(&mut out, '+', b, at_new);
                        let ghost piece = marked_line('+', line_or_empty(ys, at_new as int));
                        assert(before + (piece + line_rest_insert) =~= (before + piece)
                            + line_rest_insert);
                        at_new += 1;
                    },
                }
                t += 1;
            }
            assert(out@ + Seq::<char>::empty() =~= out@);
            assert(out@ == start_out + head + lines_of_hunk);
            assert(start_out + (head + lines_of_hunk + rest) =~= (start_out + head
                + lines_of_hunk) + rest);
            k = end;
            ai = at_old;
            bi = at_new;
        }
    }
    assert(out@ + Seq::<char>::empty() =~= out@);
    out
}

/// The unified diff of two runs of lines under the two names.
pub fn diff_lines(
    old_name: &Vec<char>,
    new_name: &Vec<char>,
    a: &Vec<Vec<char>>,
    b: &Vec<Vec<char>>,
) -> (out: Vec<char>)
    ensures
        out@ == diff_of_lines(old_name@, new_name@, line_texts(a@), line_texts(b@)),
{
    let edit_steps = edit_script(a, b);
    let body = render_hunks(&edit_steps, a, b);
    let mut out: Vec<char> = Vec::new();
    if body.len() == 0 {
        return out;
    }
    append_str(&mut out, "--- ");
    append(&mut out, old_name);
    append_str(&mut out, "\n+++ ");
    append(&mut out, new_name);
    out.push('\n');
    proof {
        reveal_strlit("--- ");
        reveal_strlit("\n+++ ");
        assert("--- "@ =~= seq!['-', '-', '-', ' ']);
        assert("\n+++ "@ =~= seq!['\n', '+', '+', '+', ' ']);
        assert(out@ =~= file_header(old_name@, new_name@));
    }
    append(&mut out, &body);
    out
}

/// The unified diff of two texts, line by line, under the two names: the
/// empty text where the texts have the same lines; else two header lines,
/// `---` with the old name and `+++` with the new, and the hunks, each
/// under its `@@` line, with three lines of context around the changes.
pub fn named_diff(old_name: &str, new_name: &str, before: &str, after: &str) -> (out: String)
    ensures
        out@ == diff_of_lines(old_name@, new_name@, lines(before@), lines(after@)),
{
    let a = split_lines(&chars_of(before));
    let b = split_lines(&chars_of(after));
    let out = diff_lines(&chars_of(old_name), &chars_of(new_name), &a, &b);
    string_of(&out)
}

/// The name of the old text in a diff without names.
pub open spec fn original() -> Seq<char> {
    seq!['O', 'r', 'i', 'g', 'i', 'n', 'a', 'l']
}

/// The name of the new text in a diff without names.
pub open spec fn updated() -> Seq<char> {
    seq!['U', 'p', 'd', 'a', 't', 'e', 'd']
}

/// The unified diff of two texts, the old one named `Original`, the new one
/// `Updated`.
pub fn unified_diff(before: &str, after: &str) -> (out: String)
    ensures
        out@ == diff_of_lines(original(), updated(), lines(before@), lines(after@)),
{
    proof {
        reveal_strlit("Original");
        reveal_strlit("Updated");
        assert("Original"@ =~= original());
        assert("Updated"@ =~= updated());
    }
    named_diff("Original", "Updated", before, after)
}

/// The unified diff of two versions of the file at `path`, the old one named
/// `Original: ` and the path, the new one `Updated: ` and the path.
pub fn file_diff(path: &str, before: &str, after: &str) -> (out: String)
    ensures
        out@ == diff_of_lines(
            original() + seq![':', ' '] + path@,
            updated() + seq![':', ' '] + path@,
            lines(before@),
            lines(after@),
        ),
{
    let mut old_name: Vec<char> = Vec::new();
    append_str(&mut old_name, "Original: ");
    append_str(&mut old_name, path);
    let mut new_name: Vec<char> = Vec::new();
    append_str(&mut new_name, "Updated: ");
    append_str(&mut new_name, path);
    proof {
        reveal_strlit("Original: ");
        reveal_strlit("Updated: ");
        assert("Original: "@ =~= original() + seq![':', ' ']);
        assert("Updated: "@ =~= updated() + seq![':', ' ']);
    }
    let a = split_lines(&chars_of(before));
    let b = split_lines(&chars_of(after));
    let out = diff_lines(&old_name, &new_name, &a, &b);
    string_of(&out)
}

/// How many `/` separate the components of `path`.
pub open spec fn separators(path: Seq<char>) -> nat
    decreases path.len(),
{
    if path.len() == 0 {
        0
    } else if path.last() == '/' {
        separators(path.drop_last()) + 1
    } else {
        separators(path.drop_last())
    }
}

/// The line of a path in a listing of a tree: two spaces for each of its
/// components, and the path.
pub open spec fn entry_line(path: Seq<char>) -> Seq<char> {
    crate::text::repeat(' ', 2 * (separators(path) + 1)) + path + seq!['\n']
}

/// The lines of a listing of a tree, a line for each path, in the order of
/// the paths.
pub open spec fn listing_lines(paths: Seq<Seq<char>>) -> Seq<Seq<char>> {
    Seq::new(paths.len(), |i: int| entry_line(paths[i]))
}

/// The texts of a run of paths.
pub open spec fn path_texts(paths: Seq<String>) -> Seq<Seq<char>> {
    paths.map_values(|path: String| path@)
}

/// The name of the old tree in a diff of two trees.
pub open spec fn original_tree() -> Seq<char> {
    original() + seq![' ', 'f', 'i', 'l', 'e', ' ', 't', 'r', 'e', 'e']
}

/// The name of the new tree in a diff of two trees.
pub open spec fn updated_tree() -> Seq<char> {
    updated() + seq![' ', 'f', 'i', 'l', 'e', ' ', 't', 'r', 'e', 'e']
}

/// The line of a path in a listing of a tree.
fn entry_of(path: &str) -> (line: Vec<char>)
    ensures
        line@ == entry_line(path@),
{
    let chars = chars_of(path);
    let mut line: Vec<char> = Vec::new();
    line.push(' ');
    line.push(' ');
    let mut i: usize = 0;
    assert(chars@.take(0).len() == 0);
    assert(line@ =~= crate::text::repeat(' ', 2));
    while i < chars.len()
        invariant
            i <= chars.len(),
            line@ == crate::text::repeat(' ', 2 * (separators(chars@.take(i as int)) + 1)),
        decreases chars.len() - i,
    {
        let ghost before = separators(chars@.take(i as int));
        assert(chars@.take(i + 1).last() == chars@[i as int]);
        assert(chars@.take(i + 1).drop_last() =~= chars@.take(i as int));
        if chars[i] == '/' {
            line.push(' ');
            line.push(' ');
            assert(line@ =~= crate::text::repeat(' ', 2 * (before + 2)));
        }
        i += 1;
    }
    assert(chars@.take(i as int) =~= chars@);
    append(&mut line, &chars);
    line.push('\n');
    line
}

/// The lines of a listing of a tree.
fn listing_of(paths: &Vec<String>) -> (out: Vec<Vec<char>>)
    ensures
        line_texts(out@) == listing_lines(path_texts(paths@)),
{
    let mut out: Vec<Vec<char>> = Vec::new();
    let mut i: usize = 0;
    while i < paths.len()
        invariant
            i <= paths.len(),
            out.len() == i,
            forall|k: int| 0 <= k < i ==> (#[trigger] out@[k])@ == entry_line(paths@[k]@),
        decreases paths.len() - i,
    {
        let line = entry_of(paths[i].as_str());
        out.push(line);
        i += 1;
    }
    assert(line_texts(out@) =~= listing_lines(path_texts(paths@)));
    out
}

/// The unified diff of two listings of a directory tree: each path stands
/// on a line of its own, indented by two spaces for each of its components,
/// in the ascending order of the listings, and the lines are compared as
/// those of two texts named `Original file tree` and `Updated file tree`.
pub fn tree_diff(before: &DirectoryListing, after: &DirectoryListing) -> (out: String)
    ensures
        out@ == diff_of_lines(
            original_tree(),
            updated_tree(),
            listing_lines(before@),
            listing_lines(after@),
        ),
{
    let a = listing_of(&before.to_paths());
    let b = listing_of(&after.to_paths());
    proof {
        reveal_strlit("Original file tree");
        reveal_strlit("Updated file tree");
        assert("Original file tree"@ =~= original_tree());
        assert("Updated file tree"@ =~= updated_tree());
    }
    let out = diff_lines(&chars_of("Original file tree"), &chars_of("Updated file tree"), &a, &b);
    string_of(&out)
}

/// Past the end of a first text, the lines of two texts joined are the lines
/// of the second.
pub proof fn lines_after_join(u: Seq<char>, v: Seq<char>, j: int)
    requires
        0 <= j <= v.len(),
    ensures
        lines_from(u + v, u.len() + j) == lines_from(v, j),
    decreases v.len() - j,
{
    let w = u + v;
    if j < v.len() {
        break_after_join(u, v, j);
        break_from_bounds(v, j);
        let stop = break_from(v, j);
        if stop < v.len() {
            assert(w.subrange(u.len() + j, u.len() + stop + 1) =~= v.subrange(j, stop + 1));
            lines_after_join(u, v, stop + 1);
        } else {
            assert(w.subrange(u.len() + j, w.len() as int) =~= v.subrange(j, v.len() as int));
        }
    }
}

/// Past the end of a first text, the line feeds of two texts joined are
/// those of the second.
pub proof fn break_after_join(u: Seq<char>, v: Seq<char>, j: int)
    requires
        0 <= j <= v.len(),
    ensures
        break_from(u + v, u.len() + j) == u.len() + break_from(v, j),
    decreases v.len() - j,
{
    if j < v.len() {
        assert((u + v)[u.len() + j] == v[j]);
        if v[j] != '\n' {
            break_after_join(u, v, j + 1);
        }
    }
}

/// Within a first text that ends in a line feed, the line feeds of two
/// texts joined are those of the first.
pub proof fn break_before_join(u: Seq<char>, v: Seq<char>, i: int)
    requires
        0 <= i < u.len(),
        u.last() == '\n',
    ensures
        break_from(u + v, i) == break_from(u, i),
        break_from(u, i) < u.len(),
    decreases u.len() - i,
{
    assert((u + v)[i] == u[i]);
    if u[i] != '\n' {
        assert(i < u.len() - 1);
        break_before_join(u, v, i + 1);
    }
}

/// The lines of two texts joined where the first ends in a line feed: the
/// lines of the first from `i` on, and then the lines of the second.
pub proof fn lines_before_join(u: Seq<char>, v: Seq<char>, i: int)
    requires
        0 <= i <= u.len(),
        u.len() > 0 ==> u.last() == '\n',
    ensures
        lines_from(u + v, i) == lines_from(u, i) + lines_from(v, 0),
    decreases u.len() - i,
{
    let w = u + v;
    if i < u.len() {
        break_before_join(u, v, i);
        break_from_bounds(u, i);
        let stop = break_from(u, i);
        assert(w.subrange(i, stop + 1) =~= u.subrange(i, stop + 1));
        lines_before_join(u, v, stop + 1);
        assert(seq![u.subrange(i, stop + 1)] + (lines_from(u, stop + 1) + lines_from(v, 0)) =~= (
        seq![u.subrange(i, stop + 1)] + lines_from(u, stop + 1)) + lines_from(v, 0));
    } else {
        lines_after_join(u, v, 0);
        assert(lines_from(u, i) + lines_from(v, 0) =~= lines_from(v, 0));
    }
}

/// The lines of two texts joined at the end of a line are the lines of the
/// first and then the lines of the second.
pub proof fn lines_of_join(u: Seq<char>, v: Seq<char>)
    requires
        u.len() > 0 ==> u.last() == '\n',
    ensures
        lines(u + v) == lines(u) + lines(v),
{
    lines_before_join(u, v, 0);
}

/// Two runs of lines that agree on their first `n` lines share at least
/// those at their start.
pub proof fn shared_start_covers(a: Seq<Seq<char>>, b: Seq<Seq<char>>, n: int, i: int)
    requires
        0 <= i <= n <= a.len(),
        n <= b.len(),
        forall|k: int| 0 <= k < n ==> a[k] == b[k],
    ensures
        i + common_prefix_from(a, b, i) >= n,
    decreases n - i,
{
    if i < n {
        shared_start_covers(a, b, n, i + 1);
    }
}

/// The line that stands `t` lines before the last.
pub open spec fn from_end(lines: Seq<Seq<char>>, t: int) -> Seq<char> {
    lines[lines.len() - 1 - t]
}

/// The step that stands `t` steps before the last.
pub open spec fn step_from_end(script: Seq<Edit>, t: int) -> Edit {
    script[script.len() - 1 - t]
}

/// Two runs of lines that agree on their last `m` lines share at least
/// those at their end, where there is room for them.
pub proof fn shared_end_covers(a: Seq<Seq<char>>, b: Seq<Seq<char>>, m: int, room: int, k: int)
    requires
        0 <= k <= m <= room,
        m <= a.len(),
        m <= b.len(),
        forall|t: int| 0 <= t < m ==> #[trigger] from_end(a, t) == from_end(b, t),
    ensures
        k + common_suffix_from(a, b, k, room) >= m,
    decreases m - k,
{
    if k < m {
        assert(from_end(a, k) == from_end(b, k));
        shared_end_covers(a, b, m, room, k + 1);
    }
}

/// A diff marks no line as changed among the lines that the two texts share
/// at their start: where the texts agree on their first `n` lines, the
/// first `n` steps of the script keep.
pub proof fn script_keeps_shared_start(a: Seq<Seq<char>>, b: Seq<Seq<char>>, n: int)
    requires
        0 <= n <= a.len(),
        n <= b.len(),
        forall|k: int| 0 <= k < n ==> a[k] == b[k],
    ensures
        script(a, b).len() >= n,
        forall|k: int| 0 <= k < n ==> script(a, b)[k] == Edit::Keep,
{
    shared_start_covers(a, b, n, 0);
    let p = common_prefix(a, b) as int;
    assert forall|k: int| 0 <= k < n implies script(a, b)[k] == Edit::Keep by {
        assert(k < p);
        assert(keeps(p as nat)[k] == Edit::Keep);
    }
}

/// A diff marks no line as changed among the lines that the two texts share
/// at their end: where the texts agree on their last `m` lines, and these do
/// not reach into the lines shared at the start, the last `m` steps of the
/// script keep.
pub proof fn script_keeps_shared_end(a: Seq<Seq<char>>, b: Seq<Seq<char>>, m: int)
    requires
        0 <= m,
        common_prefix(a, b) + m <= a.len(),
        common_prefix(a, b) + m <= b.len(),
        forall|t: int| 0 <= t < m ==> #[trigger] from_end(a, t) == from_end(b, t),
    ensures
        script(a, b).len() >= m,
        forall|t: int| 0 <= t < m ==> #[trigger] step_from_end(script(a, b), t) == Edit::Keep,
{
    let p = common_prefix(a, b) as int;
    let room = smaller(a.len() as int, b.len() as int) - p;
    shared_end_covers(a, b, m, room, 0);
    common_suffix_bound(a, b, 0, room);
    let s = common_suffix(a, b) as int;
    let whole = script(a, b);
    assert forall|t: int| 0 <= t < m implies #[trigger] step_from_end(whole, t) == Edit::Keep by {
        assert(t < s);
        assert(keeps(s as nat)[s - 1 - t] == Edit::Keep);
    }
}

/// A text shares all its lines with itself.
pub proof fn shared_start_of_same(a: Seq<Seq<char>>, i: int)
    requires
        0 <= i <= a.len(),
    ensures
        common_prefix_from(a, a, i) == a.len() - i,
    decreases a.len() - i,
{
    if i < a.len() {
        shared_start_of_same(a, i + 1);
    }
}

/// Steps that all keep make no hunk.
pub proof fn keeps_make_no_hunk(
    n: nat,
    a: Seq<Seq<char>>,
    b: Seq<Seq<char>>,
    k: int,
    ai: int,
    bi: int,
)
    requires
        0 <= k,
    ensures
        hunks(keeps(n), a, b, k, ai, bi) == Seq::<char>::empty(),
    decreases n - k,
{
    if k < n && ai >= 0 && bi >= 0 {
        assert(!in_hunk(keeps(n), k));
        keeps_make_no_hunk(n, a, b, k + 1, ai + 1, bi + 1);
    }
}

/// The diff of a text with itself is empty.
pub proof fn diff_of_same_is_empty(old_name: Seq<char>, new_name: Seq<char>, a: Seq<Seq<char>>)
    ensures
        script(a, a) == keeps(a.len()),
        diff_of_lines(old_name, new_name, a, a) == Seq::<char>::empty(),
{
    shared_start_of_same(a, 0);
    let p = common_prefix(a, a) as int;
    assert(p == a.len());
    assert(common_suffix(a, a) == 0);
    let middle = a.subrange(p, a.len() - 0);
    assert(middle.len() == 0);
    assert(edits(middle, middle, 0, 0) =~= Seq::<Edit>::empty());
    assert(script(a, a) =~= keeps(a.len()));
    keeps_make_no_hunk(a.len(), a, a, 0, 0, 0);
}

/// How many lines of the old text a script covers.
pub open spec fn old_count(script: Seq<Edit>) -> nat
    decreases script.len(),
{
    if script.len() == 0 {
        0
    } else if script[0] == Edit::Insert {
        old_count(script.drop_first())
    } else {
        1 + old_count(script.drop_first())
    }
}

/// How many lines of the new text a script covers.
pub open spec fn new_count(script: Seq<Edit>) -> nat
    decreases script.len(),
{
    if script.len() == 0 {
        0
    } else if script[0] == Edit::Delete {
        new_count(script.drop_first())
    } else {
        1 + new_count(script.drop_first())
    }
}

/// The lines that a script reads from the old text `a`, from its line `ai`
/// on: those it keeps and those it deletes.
pub open spec fn read_from(script: Seq<Edit>, a: Seq<Seq<char>>, ai: int) -> Seq<Seq<char>>
    decreases script.len(),
{
    if script.len() == 0 {
        Seq::empty()
    } else if script[0] == Edit::Insert {
        read_from(script.drop_first(), a, ai)
    } else {
        seq![a[ai]] + read_from(script.drop_first(), a, ai + 1)
    }
}

/// The lines that a script writes, reading the old text `a` from its line
/// `ai` on and the new text `b` from its line `bi` on: the lines of `a` that
/// it keeps and the lines of `b` that it inserts.
pub open spec fn written_from(
    script: Seq<Edit>,
    a: Seq<Seq<char>>,
    b: Seq<Seq<char>>,
    ai: int,
    bi: int,
) -> Seq<Seq<char>>
    decreases script.len(),
{
    if script.len() == 0 {
        Seq::empty()
    } else {
        match script[0] {
            Edit::Keep => seq![a[ai]] + written_from(script.drop_first(), a, b, ai + 1, bi + 1),
            Edit::Delete => written_from(script.drop_first(), a, b, ai + 1, bi),
            Edit::Insert => seq![b[bi]] + written_from(script.drop_first(), a, b, ai, bi + 1),
        }
    }
}

/// What two scripts, one after the other, read and write is what the first
/// reads and writes and then what the second does, from where the first has
/// stopped.
pub proof fn scripts_in_a_row(
    first: Seq<Edit>,
    second: Seq<Edit>,
    a: Seq<Seq<char>>,
    b: Seq<Seq<char>>,
    ai: int,
    bi: int,
)
    ensures
        old_count(first + second) == old_count(first) + old_count(second),
        new_count(first + second) == new_count(first) + new_count(second),
        read_from(first + second, a, ai) == read_from(first, a, ai) + read_from(
            second,
            a,
            ai + old_count(first),
        ),
        written_from(first + second, a, b, ai, bi) == written_from(first, a, b, ai, bi)
            + written_from(second, a, b, ai + old_count(first), bi + new_count(first)),
    decreases first.len(),
{
    if first.len() == 0 {
        assert(first + second =~= second);
        assert(read_from(first, a, ai) + read_from(second, a, ai) =~= read_from(second, a, ai));
        assert(written_from(first, a, b, ai, bi) + written_from(second, a, b, ai, bi)
            =~= written_from(second, a, b, ai, bi));
    } else {
        let rest = first.drop_first();
        assert((first + second).drop_first() =~= rest + second);
        assert((first + second)[0] == first[0]);
        match first[0] {
            Edit::Keep => {
                scripts_in_a_row(rest, second, a, b, ai + 1, bi + 1);
                assert(seq![a[ai]] + (read_from(rest, a, ai + 1) + read_from(
                    second,
                    a,
                    ai + 1 + old_count(rest),
                )) =~= (seq![a[ai]] + read_from(rest, a, ai + 1)) + read_from(
                    second,
                    a,
                    ai + 1 + old_count(rest),
                ));
                assert(seq![a[ai]] + (written_from(rest, a, b, ai + 1, bi + 1) + written_from(
                    second,
                    a,
                    b,
                    ai + 1 + old_count(rest),
                    bi + 1 + new_count(rest),
                )) =~= (seq![a[ai]] + written_from(rest, a, b, ai + 1, bi + 1)) + written_from(
                    second,
                    a,
                    b,
                    ai + 1 + old_count(rest),
                    bi + 1 + new_count(rest),
                ));
            },
            Edit::Delete => {
                scripts_in_a_row(rest, second, a, b, ai + 1, bi);
                assert(seq![a[ai]] + (read_from(rest, a, ai + 1) + read_from(
                    second,
                    a,
                    ai + 1 + old_count(rest),
                )) =~= (seq![a[ai]] + read_from(rest, a, ai + 1)) + read_from(
                    second,
                    a,
                    ai + 1 + old_count(rest),
                ));
            },
            Edit::Insert => {
                scripts_in_a_row(rest, second, a, b, ai, bi + 1);
                assert(seq![b[bi]] + (written_from(rest, a, b, ai, bi + 1) + written_from(
                    second,
                    a,
                    b,
                    ai + old_count(rest),
                    bi + 1 + new_count(rest),
                )) =~= (seq![b[bi]] + written_from(rest, a, b, ai, bi + 1)) + written_from(
                    second,
                    a,
                    b,
                    ai + old_count(rest),
                    bi + 1 + new_count(rest),
                ));
            },
        }
    }
}

/// Steps that all keep read and write the lines of the old text that they
/// pass.
pub proof fn keeps_pass_lines(n: nat, a: Seq<Seq<char>>, b: Seq<Seq<char>>, ai: int, bi: int)
    requires
        0 <= ai,
        ai + n <= a.len(),
    ensures
        old_count(keeps(n)) == n,
        new_count(keeps(n)) == n,
        read_from(keeps(n), a, ai) == a.subrange(ai, ai + n),
        written_from(keeps(n), a, b, ai, bi) == a.subrange(ai, ai + n),
    decreases n,
{
    if n == 0 {
        assert(a.subrange(ai, ai + n) =~= Seq::<Seq<char>>::empty());
    } else {
        assert(keeps(n).drop_first() =~= keeps((n - 1) as nat));
        keeps_pass_lines((n - 1) as nat, a, b, ai + 1, bi + 1);
        assert(seq![a[ai]] + a.subrange(ai + 1, ai + n) =~= a.subrange(ai, ai + n));
    }
}

/// The edits between two runs of lines read the old run and write the new
/// one, where the runs are the lines of `a` and `b` after their first `p`.
pub proof fn edits_turn_old_into_new(
    a: Seq<Seq<char>>,
    b: Seq<Seq<char>>,
    x: Seq<Seq<char>>,
    y: Seq<Seq<char>>,
    p: int,
    i: int,
    j: int,
)
    requires
        0 <= p,
        0 <= i <= x.len(),
        0 <= j <= y.len(),
        p + x.len() <= a.len(),
        p + y.len() <= b.len(),
        forall|t: int| 0 <= t < x.len() ==> #[trigger] x[t] == a[p + t],
        forall|t: int| 0 <= t < y.len() ==> #[trigger] y[t] == b[p + t],
    ensures
        old_count(edits(x, y, i, j)) == x.len() - i,
        new_count(edits(x, y, i, j)) == y.len() - j,
        read_from(edits(x, y, i, j), a, p + i) == x.skip(i),
        written_from(edits(x, y, i, j), a, b, p + i, p + j) == y.skip(j),
    decreases (x.len() - i) + (y.len() - j),
{
    let steps = edits(x, y, i, j);
    if i == x.len() && j == y.len() {
        assert(x.skip(i) =~= Seq::<Seq<char>>::empty());
        assert(y.skip(j) =~= Seq::<Seq<char>>::empty());
    } else if i == x.len() {
        edits_turn_old_into_new(a, b, x, y, p, i, j + 1);
        assert(steps.drop_first() =~= edits(x, y, i, j + 1));
        assert(y[j] == b[p + j]);
        assert(seq![y[j]] + y.skip(j + 1) =~= y.skip(j));
    } else if j == y.len() {
        edits_turn_old_into_new(a, b, x, y, p, i + 1, j);
        assert(steps.drop_first() =~= edits(x, y, i + 1, j));
        assert(x[i] == a[p + i]);
        assert(seq![x[i]] + x.skip(i + 1) =~= x.skip(i));
    } else if x[i] == y[j] {
        edits_turn_old_into_new(a, b, x, y, p, i + 1, j + 1);
        assert(steps.drop_first() =~= edits(x, y, i + 1, j + 1));
        assert(x[i] == a[p + i]);
        assert(seq![x[i]] + x.skip(i + 1) =~= x.skip(i));
        assert(seq![y[j]] + y.skip(j + 1) =~= y.skip(j));
    } else if lcs(x, y, i + 1, j) >= lcs(x, y, i, j + 1) {
        edits_turn_old_into_new(a, b, x, y, p, i + 1, j);
        assert(steps.drop_first() =~= edits(x, y, i + 1, j));
        assert(x[i] == a[p + i]);
        assert(seq![x[i]] + x.skip(i + 1) =~= x.skip(i));
    } else {
        edits_turn_old_into_new(a, b, x, y, p, i, j + 1);
        assert(steps.drop_first() =~= edits(x, y, i, j + 1));
        assert(y[j] == b[p + j]);
        assert(seq![y[j]] + y.skip(j + 1) =~= y.skip(j));
    }
}

/// The lines shared at the start are the same in both texts.
pub proof fn shared_start_agrees(a: Seq<Seq<char>>, b: Seq<Seq<char>>, i: int, k: int)
    requires
        0 <= i <= k < i + common_prefix_from(a, b, i),
    ensures
        a[k] == b[k],
    decreases k - i,
{
    if i < k {
        shared_start_agrees(a, b, i + 1, k);
    }
}

/// The lines shared at the end are the same in both texts.
pub proof fn shared_end_agrees(a: Seq<Seq<char>>, b: Seq<Seq<char>>, k: int, room: int, t: int)
    requires
        0 <= k <= t < k + common_suffix_from(a, b, k, room),
    ensures
        from_end(a, t) == from_end(b, t),
    decreases t - k,
{
    if k < t {
        shared_end_agrees(a, b, k + 1, room, t);
    }
}

/// A diff tells the change: the script of two texts reads every line of the
/// old text, in order, and what it writes, the lines it keeps and the lines
/// it inserts, is the new text.
pub proof fn script_turns_old_into_new(a: Seq<Seq<char>>, b: Seq<Seq<char>>)
    ensures
        old_count(script(a, b)) == a.len(),
        new_count(script(a, b)) == b.len(),
        read_from(script(a, b), a, 0) == a,
        written_from(script(a, b), a, b, 0, 0) == b,
{
    let p = common_prefix(a, b) as int;
    let s = common_suffix(a, b) as int;
    common_prefix_bound(a, b, 0);
    let room = smaller(a.len() as int, b.len() as int) - p;
    common_suffix_bound(a, b, 0, room);
    let x = a.subrange(p, a.len() - s);
    let y = b.subrange(p, b.len() - s);
    let head = keeps(p as nat);
    let middle = edits(x, y, 0, 0);
    let tail = keeps(s as nat);
    keeps_pass_lines(p as nat, a, b, 0, 0);
    edits_turn_old_into_new(a, b, x, y, p, 0, 0);
    keeps_pass_lines(s as nat, a, b, a.len() - s, b.len() - s);
    scripts_in_a_row(head, middle, a, b, 0, 0);
    scripts_in_a_row(head + middle, tail, a, b, 0, 0);
    assert(x.skip(0) =~= x);
    assert(y.skip(0) =~= y);
    assert(a.subrange(0, p) + x + a.subrange(a.len() - s, a.len() as int) =~= a);
    assert(a.subrange(0, p) =~= b.subrange(0, p)) by {
        assert forall|k: int| 0 <= k < p implies a[k] == b[k] by {
            shared_start_agrees(a, b, 0, k);
        }
    }
    let a_end = a.subrange(a.len() - s, a.len() as int);
    let b_end = b.subrange(b.len() - s, b.len() as int);
    assert(a_end =~= b_end) by {
        assert forall|t: int| 0 <= t < s implies #[trigger] a_end[t] == b_end[t] by {
            shared_end_agrees(a, b, 0, room, s - 1 - t);
            assert(from_end(a, s - 1 - t) == a_end[t]);
            assert(from_end(b, s - 1 - t) == b_end[t]);
        }
    }
    assert(b.subrange(0, p) + y + b.subrange(b.len() - s, b.len() as int) =~= b);
}

} // verus!
