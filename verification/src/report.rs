//! Runtime errors and the report shown for them: the source lines the error
//! spans, with the span underlined when it lies on one line, then the message.

use vstd::prelude::*;
use crate::span::Span;
use crate::printer::{lines, spaces, strip_cr};
use crate::text::{decimal, decimal_chars, push_str_chars, push_decimal, push_all, chars_to_string};

verus! {

/// An error that occurs while running a program, e.g. division by zero or an
/// operation on values of the wrong types, with the span of code it concerns.
#[derive(Clone, Debug)]
pub struct RuntimeError {
    pub message: String,
    pub span: Span,
}

/// `n` carets.
pub open spec fn carets(n: nat) -> Seq<char> {
    Seq::new(n, |i: int| '^')
}

/// Line `line` (counting from 1) of the source, or nothing if there is no such line.
pub open spec fn source_line(src: Seq<char>, line: usize) -> Seq<char> {
    if 1 <= line && line - 1 < lines(src).len() { lines(src)[line - 1] } else { seq![] }
}

/// A number right-aligned in a field of `w` characters.
pub open spec fn right_aligned(d: Seq<char>, w: nat) -> Seq<char> {
    if d.len() < w { spaces((w - d.len()) as nat) + d } else { d }
}

/// The numbered lines with indices `from` up to (not including) `to`, each as
/// `N | text` with the number right-aligned in `w` characters.
pub open spec fn numbered_lines(ls: Seq<Seq<char>>, from: int, to: int, w: nat) -> Seq<char>
    decreases to - from,
{
    if to <= from {
        seq![]
    } else {
        numbered_lines(ls, from, to - 1, w) + right_aligned(decimal(to as nat), w) + " | "@ + ls[to - 1] + seq!['\n']
    }
}

/// The report for a runtime error in `src`. An error on one line shows that
/// line after `[line N]: ` with the span underlined below it; an error over
/// several lines shows them numbered. The message follows after a blank line.
pub open spec fn error_report(message: Seq<char>, span: Span, src: Seq<char>) -> Seq<char> {
    let start = span.start;
    let end = span.end;
    if start.line == end.line {
        let frag = "[line "@ + decimal(start.line as nat) + "]: "@;
        frag + source_line(src, start.line) + seq!['\n'] + spaces(frag.len()) + spaces((start.col - 1) as nat)
            + carets((end.col - start.col) as nat) + seq!['\n', '\n'] + message + seq!['\n']
    } else {
        let ls = lines(src);
        let to = if end.line < ls.len() { end.line as int } else { ls.len() as int };
        "[lines "@ + decimal(start.line as nat) + "-"@ + decimal(end.line as nat) + "]:"@ + seq!['\n']
            + numbered_lines(ls, start.line - 1, to, decimal(end.line as nat).len()) + seq!['\n'] + message
            + seq!['\n']
    }
}

/// The spans a report can be made for: lines count from 1, a one-line span
/// starts at column 1 or later and does not end before it starts, and a span
/// over several lines does not end before it starts.
pub open spec fn reportable(span: Span) -> bool {
    &&& span.start.line >= 1
    &&& span.start.line == span.end.line ==> 1 <= span.start.col <= span.end.col
    &&& span.start.line <= span.end.line
}

/// The lines of a text, as `lines` states them.
pub fn split_lines(s: &Vec<char>) -> (r: Vec<Vec<char>>)
    ensures
        r@.len() == lines(s@).len(),
        forall|k: int| 0 <= k < r@.len() ==> #[trigger] r@[k]@ == lines(s@)[k],
{
    let mut out: Vec<Vec<char>> = Vec::new();
    let mut cur: Vec<char> = Vec::new();
    let ghost mut done: Seq<Seq<char>> = seq![];
    let mut i: usize = 0;
    assert(s@.subrange(0, s@.len() as int) == s@);
    while i < s.len()
        invariant
            i <= s@.len(),
            out@.len() == done.len(),
            forall|k: int| 0 <= k < out@.len() ==> #[trigger] out@[k]@ == done[k],
            lines(s@) == done + crate::printer::line_split(s@.subrange(i as int, s@.len() as int), cur@),
        decreases s@.len() - i,
    {
        let ghost rest = s@.subrange(i as int, s@.len() as int);
        assert(rest[0] == s@[i as int]);
        assert(rest.subrange(1, rest.len() as int) == s@.subrange(i + 1, s@.len() as int));
        let c = s[i];
        if c == '\n' {
            let ghost cur_before = cur@;
            if cur.len() > 0 && cur[cur.len() - 1] == '\r' {
                cur.pop();
            }
            assert(cur@ == strip_cr(cur_before));
            proof {
                let tail = crate::printer::line_split(s@.subrange(i + 1, s@.len() as int), seq![]);
                assert(crate::printer::line_split(rest, cur_before) == seq![cur@] + tail);
                assert(done + (seq![cur@] + tail) == done.push(cur@) + tail);
                done = done.push(cur@);
            }
            out.push(cur);
            cur = Vec::new();
        } else {
            cur.push(c);
        }
        i = i + 1;
    }
    if cur.len() > 0 {
        proof {
            assert(lines(s@) == done.push(cur@));
            done = done.push(cur@);
        }
        out.push(cur);
    } else {
        assert(lines(s@) == done);
    }
    out
}

fn push_spaces(out: &mut Vec<char>, n: usize)
    ensures
        final(out)@ == old(out)@ + spaces(n as nat),
{
    let mut k: usize = 0;
    while k < n
        invariant
            k <= n,
            out@ == old(out)@ + spaces(k as nat),
        decreases n - k,
    {
        out.push(' ');
        k = k + 1;
        assert(out@ =~= old(out)@ + spaces(k as nat));
    }
}

fn push_carets(out: &mut Vec<char>, n: usize)
    ensures
        final(out)@ == old(out)@ + carets(n as nat),
{
    let mut k: usize = 0;
    while k < n
        invariant
            k <= n,
            out@ == old(out)@ + carets(k as nat),
        decreases n - k,
    {
        out.push('^');
        k = k + 1;
        assert(out@ =~= old(out)@ + carets(k as nat));
    }
}

/// The text reported for a runtime error in the program text `source`.
pub fn error_report_text(e: &RuntimeError, source: &str) -> (r: String)
    requires
        reportable(e.span),
    ensures
        r@ == error_report(e.message@, e.span, source@),
{
    let mut src: Vec<char> = Vec::new();
    push_str_chars(&mut src, source);
    assert(src@ =~= source@);
    let ls = split_lines(&src);
    let start = e.span.start;
    let end = e.span.end;
    let mut out: Vec<char> = Vec::new();
    if start.line == end.line {
        let mut frag: Vec<char> = Vec::new();
        push_str_chars(&mut frag, "[line ");
        push_decimal(&mut frag, start.line);
        push_str_chars(&mut frag, "]: ");
        assert(frag@ =~= "[line "@ + decimal(start.line as nat) + "]: "@);
        push_all(&mut out, &frag);
        if start.line - 1 < ls.len() {
            push_all(&mut out, &ls[start.line - 1]);
        }
        out.push('\n');
        push_spaces(&mut out, frag.len());
        push_spaces(&mut out, start.col - 1);
        push_carets(&mut out, end.col - start.col);
        out.push('\n');
        out.push('\n');
        push_str_chars(&mut out, e.message.as_str());
        out.push('\n');
        assert(out@ =~= error_report(e.message@, e.span, source@));
    } else {
        let ghost lsv = lines(source@);
        push_str_chars(&mut out, "[lines ");
        push_decimal(&mut out, start.line);
        push_str_chars(&mut out, "-");
        push_decimal(&mut out, end.line);
        push_str_chars(&mut out, "]:");
        out.push('\n');
        let ghost head = out@;
        let w_digits = decimal_chars(end.line);
        let w = w_digits.len();
        let to: usize = if end.line < ls.len() { end.line } else { ls.len() };
        let from: usize = start.line - 1;
        let mut k: usize = from;
        while k < to
            invariant
                from <= k,
                k <= to || k == from,
                to <= ls@.len(),
                ls@.len() == lsv.len(),
                forall|j: int| 0 <= j < ls@.len() ==> #[trigger] ls@[j]@ == lsv[j],
                w == decimal(end.line as nat).len(),
                out@ == head + numbered_lines(lsv, from as int, k as int, w as nat),
            decreases to - k,
        {
            let ghost before = out@;
            let num = decimal_chars(k + 1);
            if num.len() < w {
                push_spaces(&mut out, w - num.len());
            }
            push_all(&mut out, &num);
            push_str_chars(&mut out, " | ");
            push_all(&mut out, &ls[k]);
            out.push('\n');
            assert(out@ =~= before + right_aligned(decimal((k + 1) as nat), w as nat) + " | "@ + lsv[k as int]
                + seq!['\n']);
            k = k + 1;
        }
        out.push('\n');
        push_str_chars(&mut out, e.message.as_str());
        out.push('\n');
        assert(out@ =~= error_report(e.message@, e.span, source@));
    }
    chars_to_string(&out)
}

} // verus!
