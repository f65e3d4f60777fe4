//! Breaking text into lines that fit the columns of a font.
//!
//! A line ends at the first explicit newline, if that comes before the line
//! is full. Otherwise, if the rest of the text does not fit, the line ends at
//! the last space that still leaves it within the column count, and that
//! space is replaced by the line break. Only where the window holds no space
//! at all, because a single word is longer than a line, the word is cut
//! after the last column.
//!
//! A space is the character U+0020 and a newline is U+000A. No other
//! character is a place to break, and every character counts as one column.
use crate::text::push_range;
use vstd::prelude::*;

verus! {

/// The first index in `[from, to)` that holds a newline, or `to`.
pub open spec fn first_newline(s: Seq<char>, from: int, to: int) -> int
    decreases to - from,
{
    if from >= to {
        to
    } else if s[from] == '\n' {
        from
    } else {
        first_newline(s, from + 1, to)
    }
}

/// The last index in `[from, to)` that holds a space, or `from - 1`.
pub open spec fn last_space(s: Seq<char>, from: int, to: int) -> int
    decreases to - from,
{
    if to <= from {
        from - 1
    } else if s[to - 1] == ' ' {
        to - 1
    } else {
        last_space(s, from, to - 1)
    }
}

/// Where a line ends and where the next one starts.
pub ghost struct LineBreak {
    /// The line is `s[start..end]`.
    pub end: int,
    /// The next line starts here: at `end + 1` where the break replaces a
    /// newline or a space, at `end` where a word is cut.
    pub next: int,
}

/// One past the last index at which the line that starts at `start` may
/// break: the line itself has at most `cols` characters, and the character
/// after them may be the newline or space that ends it.
pub open spec fn window_end(s: Seq<char>, start: int, cols: int) -> int {
    if s.len() - start > cols {
        start + cols + 1
    } else {
        s.len() as int
    }
}

/// The break that ends the line starting at `start`, or `None` where the
/// rest of the text is the last line.
pub open spec fn line_break(s: Seq<char>, start: int, cols: int) -> Option<LineBreak> {
    let limit = window_end(s, start, cols);
    let newline = first_newline(s, start, limit);
    let space = last_space(s, start, limit);
    if newline < limit {
        Some(LineBreak { end: newline, next: newline + 1 })
    } else if s.len() - start <= cols {
        None
    } else if space >= start {
        Some(LineBreak { end: space, next: space + 1 })
    } else {
        Some(LineBreak { end: start + cols, next: start + cols })
    }
}

/// `s[start..]` with its line breaks in place.
pub open spec fn wrap_from(s: Seq<char>, start: int, cols: int) -> Seq<char>
    decreases s.len() - start,
    when cols > 0 && 0 <= start <= s.len()
    via wrap_from_decreases
{
    match line_break(s, start, cols) {
        None => s.subrange(start, s.len() as int),
        Some(b) => s.subrange(start, b.end) + seq!['\n'] + wrap_from(s, b.next, cols),
    }
}

/// `s` broken into lines of at most `cols` characters, the lines joined by
/// newlines.
pub open spec fn wrap(s: Seq<char>, cols: int) -> Seq<char> {
    wrap_from(s, 0, cols)
}

/// `t[i..j]` holds no newline.
pub open spec fn no_newline(t: Seq<char>, i: int, j: int) -> bool {
    forall|k: int| i <= k < j ==> t[k] != '\n'
}

/// No line of `t` has more than `cols` characters.
pub open spec fn lines_fit(t: Seq<char>, cols: int) -> bool {
    forall|i: int, j: int| 0 <= i <= j <= t.len() && #[trigger] no_newline(t, i, j) ==> j - i <= cols
}

/// A character that prints: neither a space nor a newline.
pub open spec fn prints() -> spec_fn(char) -> bool {
    |c: char| c != ' ' && c != '\n'
}

/// The characters of `t` that print, in their order.
pub open spec fn ink(t: Seq<char>) -> Seq<char> {
    t.filter(prints())
}

/// What `first_newline` finds.
pub proof fn lemma_first_newline(s: Seq<char>, from: int, to: int)
    requires
        from <= to,
    ensures
        from <= first_newline(s, from, to) <= to,
        first_newline(s, from, to) < to ==> s[first_newline(s, from, to)] == '\n',
        no_newline(s, from, first_newline(s, from, to)),
    decreases to - from,
{
    if from < to && s[from] != '\n' {
        lemma_first_newline(s, from + 1, to);
    }
}

/// What `last_space` finds.
pub proof fn lemma_last_space(s: Seq<char>, from: int, to: int)
    requires
        from <= to,
    ensures
        from - 1 <= last_space(s, from, to) < to || from == to,
        from == to ==> last_space(s, from, to) == from - 1,
        last_space(s, from, to) >= from ==> s[last_space(s, from, to)] == ' ',
        forall|k: int| last_space(s, from, to) < k < to ==> s[k] != ' ',
    decreases to - from,
{
    if from < to && s[to - 1] != ' ' {
        lemma_last_space(s, from, to - 1);
    }
}

/// Every line makes progress, stays inside the text, holds no newline and
/// has at most `cols` characters.
pub proof fn lemma_line_break(s: Seq<char>, start: int, cols: int)
    requires
        cols > 0,
        0 <= start <= s.len(),
    ensures
        match line_break(s, start, cols) {
            None => s.len() - start <= cols && no_newline(s, start, s.len() as int),
            Some(b) => {
                &&& start <= b.end <= b.next <= s.len()
                &&& start < b.next
                &&& b.end - start <= cols
                &&& no_newline(s, start, b.end)
                &&& b.next == b.end || (b.next == b.end + 1 && (s[b.end] == '\n' || s[b.end]
                    == ' '))
            },
        },
{
    let limit = window_end(s, start, cols);
    lemma_first_newline(s, start, limit);
    lemma_last_space(s, start, limit);
}

#[via_fn]
proof fn wrap_from_decreases(s: Seq<char>, start: int, cols: int) {
    lemma_line_break(s, start, cols);
}

/// No line that wrapping emits exceeds the column count.
proof fn lemma_wrap_from_fits(s: Seq<char>, start: int, cols: int)
    requires
        cols > 0,
        0 <= start <= s.len(),
    ensures
        lines_fit(wrap_from(s, start, cols), cols),
    decreases s.len() - start,
{
    lemma_line_break(s, start, cols);
    let t = wrap_from(s, start, cols);
    match line_break(s, start, cols) {
        None => {},
        Some(b) => {
            let line = s.subrange(start, b.end);
            let rest = wrap_from(s, b.next, cols);
            lemma_wrap_from_fits(s, b.next, cols);
            assert(t == line + seq!['\n'] + rest);
            assert(t[line.len() as int] == '\n');
            assert forall|i: int, j: int| 0 <= i <= j <= t.len() && #[trigger] no_newline(
                t,
                i,
                j,
            ) implies j - i <= cols by {
                if j > line.len() {
                    assert(i > line.len());
                    let shift = line.len() + 1;
                    assert forall|k: int| i - shift <= k < j - shift implies rest[k] != '\n' by {
                        assert(t[k + shift] == rest[k]);
                    }
                    assert(no_newline(rest, i - shift, j - shift));
                }
            }
        },
    }
}

/// No line of wrapped text exceeds the column count.
pub proof fn lemma_wrap_fits(s: Seq<char>, cols: int)
    requires
        cols > 0,
    ensures
        lines_fit(wrap(s, cols), cols),
{
    lemma_wrap_from_fits(s, 0, cols);
}

/// Text that fits on one line and holds no newline is left as it is.
pub proof fn lemma_wrap_short(s: Seq<char>, cols: int)
    requires
        cols > 0,
        s.len() <= cols,
        no_newline(s, 0, s.len() as int),
    ensures
        wrap(s, cols) == s,
{
    lemma_first_newline(s, 0, s.len() as int);
    assert(s.subrange(0, s.len() as int) =~= s);
}

/// A word is cut only where the line and the character after it hold
/// neither a space nor a newline: where one word is longer than a line.
pub proof fn lemma_cut_only_in_long_word(s: Seq<char>, start: int, cols: int)
    requires
        cols > 0,
        0 <= start <= s.len(),
        line_break(s, start, cols) matches Some(b) && b.next == b.end,
    ensures
        start + cols < s.len(),
        forall|k: int| start <= k <= start + cols ==> s[k] != ' ' && s[k] != '\n',
{
    let limit = window_end(s, start, cols);
    lemma_first_newline(s, start, limit);
    lemma_last_space(s, start, limit);
}

/// Whether a newline is found before `mid` decides where the first newline
/// of a longer range is.
proof fn lemma_first_newline_split(s: Seq<char>, from: int, mid: int, to: int)
    requires
        from <= mid <= to,
    ensures
        first_newline(s, from, to) == if first_newline(s, from, mid) < mid {
            first_newline(s, from, mid)
        } else {
            first_newline(s, mid, to)
        },
    decreases mid - from,
{
    if from < mid && s[from] != '\n' {
        lemma_first_newline_split(s, from + 1, mid, to);
    }
}

/// Where `t` is `s` moved by `shift`, newlines are found at moved places.
proof fn lemma_first_newline_shift(s: Seq<char>, t: Seq<char>, shift: int, from: int, to: int)
    requires
        forall|k: int| from <= k < to ==> s[k + shift] == t[k],
    ensures
        first_newline(s, from + shift, to + shift) == first_newline(t, from, to) + shift,
    decreases to - from,
{
    if from < to {
        assert(s[from + shift] == t[from]);
        if t[from] != '\n' {
            lemma_first_newline_shift(s, t, shift, from + 1, to);
        }
    }
}

/// Where `t` is `s` moved by `shift`, spaces are found at moved places.
proof fn lemma_last_space_shift(s: Seq<char>, t: Seq<char>, shift: int, from: int, to: int)
    requires
        forall|k: int| from <= k < to ==> s[k + shift] == t[k],
    ensures
        last_space(s, from + shift, to + shift) == last_space(t, from, to) + shift,
    decreases to - from,
{
    if from < to {
        assert(s[to - 1 + shift] == t[to - 1]);
        if t[to - 1] != ' ' {
            lemma_last_space_shift(s, t, shift, from, to - 1);
        }
    }
}

/// Wrapping depends on nothing before the place where it starts: where
/// `t` is the end of `s`, the lines of `t` are the lines of that end.
proof fn lemma_wrap_from_shift(s: Seq<char>, t: Seq<char>, shift: int, start: int, cols: int)
    requires
        cols > 0,
        shift >= 0,
        0 <= start <= t.len(),
        s.len() == t.len() + shift,
        forall|k: int| 0 <= k < t.len() ==> s[k + shift] == t[k],
    ensures
        wrap_from(s, start + shift, cols) == wrap_from(t, start, cols),
    decreases t.len() - start,
{
    let limit = window_end(t, start, cols);
    assert(window_end(s, start + shift, cols) == limit + shift);
    lemma_first_newline_shift(s, t, shift, start, limit);
    lemma_last_space_shift(s, t, shift, start, limit);
    lemma_line_break(t, start, cols);
    match line_break(t, start, cols) {
        None => {
            assert(line_break(s, start + shift, cols) is None);
            assert(s.subrange(start + shift, s.len() as int) =~= t.subrange(start, t.len() as int));
        },
        Some(b) => {
            assert(line_break(s, start + shift, cols) == Some(
                LineBreak { end: b.end + shift, next: b.next + shift },
            ));
            lemma_wrap_from_shift(s, t, shift, b.next, cols);
            assert(s.subrange(start + shift, b.end + shift) =~= t.subrange(start, b.end));
        },
    }
}

/// The lines of a text up to one of its newlines are the lines of the text
/// before that newline, whatever comes after it.
proof fn lemma_wrap_from_paragraph(s: Seq<char>, a: Seq<char>, start: int, cols: int)
    requires
        cols > 0,
        0 <= start <= a.len() < s.len(),
        s[a.len() as int] == '\n',
        forall|k: int| 0 <= k < a.len() ==> s[k] == a[k],
    ensures
        wrap_from(s, start, cols) == wrap_from(a, start, cols) + seq!['\n'] + wrap_from(
            s,
            a.len() as int + 1,
            cols,
        ),
    decreases a.len() - start,
{
    let n = a.len() as int;
    let tail = wrap_from(s, n + 1, cols);
    lemma_line_break(a, start, cols);
    lemma_line_break(s, start, cols);
    if n - start > cols {
        let limit = start + cols + 1;
        lemma_first_newline_shift(s, a, 0, start, limit);
        lemma_last_space_shift(s, a, 0, start, limit);
        let b = line_break(a, start, cols)->0;
        assert(line_break(s, start, cols) == Some(b));
        lemma_wrap_from_paragraph(s, a, b.next, cols);
        assert(s.subrange(start, b.end) =~= a.subrange(start, b.end));
        assert(wrap_from(s, start, cols) =~= wrap_from(a, start, cols) + seq!['\n'] + tail);
    } else {
        let limit = window_end(s, start, cols);
        assert(n < limit);
        lemma_first_newline_split(s, start, n, limit);
        lemma_first_newline_shift(s, a, 0, start, n);
        lemma_first_newline(a, start, n);
        let newline = first_newline(a, start, n);
        if newline < n {
            let b = LineBreak { end: newline, next: newline + 1 };
            assert(line_break(a, start, cols) == Some(b));
            assert(line_break(s, start, cols) == Some(b));
            lemma_wrap_from_paragraph(s, a, newline + 1, cols);
            assert(s.subrange(start, newline) =~= a.subrange(start, newline));
            assert(wrap_from(s, start, cols) =~= wrap_from(a, start, cols) + seq!['\n'] + tail);
        } else {
            assert(first_newline(s, n, limit) == n);
            assert(line_break(a, start, cols) is None);
            assert(line_break(s, start, cols) == Some(LineBreak { end: n, next: n + 1 }));
            assert(s.subrange(start, n) =~= a.subrange(start, n));
        }
    }
}

/// An explicit newline always ends a line: a text with a newline in it is
/// wrapped as the text before the newline and the text after it, each on
/// its own.
pub proof fn lemma_wrap_newline(a: Seq<char>, b: Seq<char>, cols: int)
    requires
        cols > 0,
    ensures
        wrap(a + seq!['\n'] + b, cols) == wrap(a, cols) + seq!['\n'] + wrap(b, cols),
{
    let s = a + seq!['\n'] + b;
    lemma_wrap_from_paragraph(s, a, 0, cols);
    lemma_wrap_from_shift(s, b, a.len() as int + 1, 0, cols);
}

/// A text of one space or one newline, or of nothing, prints nothing.
proof fn lemma_break_has_no_ink(t: Seq<char>)
    requires
        t.len() == 0 || (t.len() == 1 && (t[0] == ' ' || t[0] == '\n')),
    ensures
        ink(t) == Seq::<char>::empty(),
{
    reveal_with_fuel(Seq::filter, 2);
    if t.len() == 1 {
        assert(t.drop_last().len() == 0);
    }
    assert(ink(t) =~= Seq::<char>::empty());
}

/// Wrapping from `start` keeps every printing character of `s[start..]`,
/// in order, and adds none.
proof fn lemma_wrap_from_keeps_ink(s: Seq<char>, start: int, cols: int)
    requires
        cols > 0,
        0 <= start <= s.len(),
    ensures
        ink(wrap_from(s, start, cols)) == ink(s.subrange(start, s.len() as int)),
    decreases s.len() - start,
{
    lemma_line_break(s, start, cols);
    match line_break(s, start, cols) {
        None => {},
        Some(b) => {
            let len = s.len() as int;
            let line = s.subrange(start, b.end);
            let gap = s.subrange(b.end, b.next);
            let rest = wrap_from(s, b.next, cols);
            lemma_wrap_from_keeps_ink(s, b.next, cols);
            lemma_break_has_no_ink(gap);
            lemma_break_has_no_ink(seq!['\n']);
            Seq::filter_distributes_over_add(line, seq!['\n'], prints());
            Seq::filter_distributes_over_add(line + seq!['\n'], rest, prints());
            Seq::filter_distributes_over_add(line, gap, prints());
            Seq::filter_distributes_over_add(line + gap, s.subrange(b.next, len), prints());
            assert(s.subrange(start, len) =~= line + gap + s.subrange(b.next, len));
            assert(ink(wrap_from(s, start, cols)) =~= ink(line) + ink(rest));
            assert(ink(s.subrange(start, len)) =~= ink(line) + ink(s.subrange(b.next, len)));
        },
    }
}

/// Wrapping changes line breaks and nothing else: the characters that
/// print are those of the text, in the same order.
pub proof fn lemma_wrap_keeps_ink(s: Seq<char>, cols: int)
    requires
        cols > 0,
    ensures
        ink(wrap(s, cols)) == ink(s),
{
    lemma_wrap_from_keeps_ink(s, 0, cols);
    assert(s.subrange(0, s.len() as int) =~= s);
}

/// The index of the first newline in `text[from..to]`, or `to`.
fn find_newline(text: &Vec<char>, from: usize, to: usize) -> (index: usize)
    requires
        from <= to <= text.len(),
    ensures
        index == first_newline(text@, from as int, to as int),
{
    let mut i: usize = from;
    while i < to
        invariant
            from <= i <= to <= text.len(),
            first_newline(text@, from as int, to as int) == first_newline(text@, i as int, to as int),
        decreases to - i,
    {
        if text[i] == '\n' {
            return i;
        }
        i += 1;
    }
    i
}

/// The index of the last space in `text[from..to]`, if there is one.
fn find_last_space(text: &Vec<char>, from: usize, to: usize) -> (index: Option<usize>)
    requires
        from <= to <= text.len(),
    ensures
        match index {
            Some(i) => from <= i < to && i == last_space(text@, from as int, to as int),
            None => last_space(text@, from as int, to as int) == from - 1,
        },
{
    let mut i: usize = to;
    while i > from
        invariant
            from <= i <= to <= text.len(),
            last_space(text@, from as int, to as int) == last_space(text@, from as int, i as int),
        decreases i - from,
    {
        if text[i - 1] == ' ' {
            return Some(i - 1);
        }
        i -= 1;
    }
    None
}

/// Breaks `text` into lines of at most `columns` characters.
pub fn wrap_text(text: &Vec<char>, columns: u8) -> (out: Vec<char>)
    requires
        columns > 0,
    ensures
        out@ == wrap(text@, columns as int),
        lines_fit(out@, columns as int),
{
    let cols: usize = columns as usize;
    let len: usize = text.len();
    let mut out: Vec<char> = Vec::new();
    let mut start: usize = 0;
    assert(out@ + wrap_from(text@, 0, cols as int) =~= wrap(text@, cols as int));
    while start < len
        invariant
            0 < cols == columns,
            len == text.len(),
            start <= len,
            out@ + wrap_from(text@, start as int, cols as int) == wrap(text@, cols as int),
        decreases len - start,
    {
        proof {
            lemma_line_break(text@, start as int, cols as int);
        }
        let ghost before = out@;
        let ghost rest = wrap_from(text@, start as int, cols as int);
        let limit: usize = if len - start > cols {
            start + cols + 1
        } else {
            len
        };
        let newline = find_newline(text, start, limit);
        if newline < limit {
            push_range(&mut out, text, start, newline);
            out.push('\n');
            proof {
                assert(out@ + wrap_from(text@, newline + 1, cols as int) =~= before + rest);
            }
            start = newline + 1;
        } else if len - start <= cols {
            push_range(&mut out, text, start, len);
            proof {
                lemma_first_newline(text@, len as int, len as int);
                assert(wrap_from(text@, len as int, cols as int) =~= Seq::<char>::empty());
                assert(out@ + wrap_from(text@, len as int, cols as int) =~= before + rest);
            }
            start = len;
        } else {
            match find_last_space(text, start, limit) {
                Some(space) => {
                    push_range(&mut out, text, start, space);
                    out.push('\n');
                    proof {
                        assert(out@ + wrap_from(text@, space + 1, cols as int) =~= before + rest);
                    }
                    start = space + 1;
                },
                None => {
                    push_range(&mut out, text, start, start + cols);
                    out.push('\n');
                    proof {
                        assert(out@ + wrap_from(text@, start + cols, cols as int) =~= before
                            + rest);
                    }
                    start = start + cols;
                },
            }
        }
    }
    proof {
        lemma_first_newline(text@, len as int, len as int);
        assert(wrap_from(text@, len as int, cols as int) =~= Seq::<char>::empty());
        assert(out@ =~= out@ + Seq::<char>::empty());
        lemma_wrap_fits(text@, cols as int);
    }
    out
}

} // verus!
