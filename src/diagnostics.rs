use vstd::prelude::*;

use crate::span::SourceSpan;
use crate::text::{
    append_str, chars_of, decimal, lines_of, push_decimal, split_lines, string_of, views,
};

verus! {

/// Line `line_no` (1-based) of `lines`, or nothing when there is no such line.
pub open spec fn line_at(lines: Seq<Seq<char>>, line_no: usize) -> Seq<char> {
    if 1 <= line_no <= lines.len() {
        lines[line_no - 1]
    } else {
        Seq::empty()
    }
}

/// `n` copies of `c`.
pub open spec fn repeat(c: char, n: nat) -> Seq<char> {
    Seq::new(n, |_i: int| c)
}

/// `a - b`, or zero where that is negative.
pub open spec fn sat_sub(a: usize, b: usize) -> nat {
    if a >= b {
        (a - b) as nat
    } else {
        0
    }
}

/// The marker under a span: a space for each column before it, then a caret
/// for each column it covers, at least one.
pub open spec fn caret_spec(span: SourceSpan) -> Seq<char> {
    let start = sat_sub(span.start.col, 1);
    let w = sat_sub(span.end.col, span.start.col);
    let width = if w >= 1 { w } else { 1 };
    repeat(' ', start) + repeat('^', width)
}

/// Line `line_no` of `lines`, as characters.
pub fn line_at_exec(lines: &Vec<Vec<char>>, line_no: usize) -> (r: Vec<char>)
    ensures
        r@ == line_at(views(lines@), line_no),
{
    if 1 <= line_no && line_no <= lines.len() {
        let src = &lines[line_no - 1];
        let mut out: Vec<char> = Vec::new();
        let mut i: usize = 0;
        while i < src.len()
            invariant
                i <= src@.len(),
                out@ == src@.subrange(0, i as int),
            decreases src@.len() - i,
        {
            out.push(src[i]);
            i += 1;
            assert(out@ =~= src@.subrange(0, i as int));
        }
        assert(out@ =~= src@);
        out
    } else {
        Vec::new()
    }
}

/// Line `line_no` (1-based) of `source`; empty when there is no such line.
pub fn get_line(source: &str, line_no: usize) -> (r: String)
    ensures
        r@ == line_at(lines_of(source@), line_no),
{
    let src = chars_of(source);
    let lines = split_lines(&src);
    let line = line_at_exec(&lines, line_no);
    string_of(&line)
}

fn push_repeat(out: &mut Vec<char>, c: char, n: usize)
    ensures
        final(out)@ == old(out)@ + repeat(c, n as nat),
{
    let mut i: usize = 0;
    while i < n
        invariant
            i <= n,
            out@ == old(out)@ + repeat(c, i as nat),
        decreases n - i,
    {
        out.push(c);
        i += 1;
        assert(out@ =~= old(out)@ + repeat(c, i as nat));
    }
}

/// The marker under `span`, as characters.
pub fn caret_chars(span: SourceSpan) -> (r: Vec<char>)
    ensures
        r@ == caret_spec(span),
{
    let start = span.start.col.saturating_sub(1);
    let w = span.end.col.saturating_sub(span.start.col);
    let width = if w >= 1 {
        w
    } else {
        1
    };
    let mut out: Vec<char> = Vec::new();
    push_repeat(&mut out, ' ', start);
    push_repeat(&mut out, '^', width);
    assert(out@ =~= caret_spec(span));
    out
}

/// The marker under `span`, such as `"    ^^^"`.
pub fn caret_line(span: SourceSpan) -> (r: String)
    ensures
        r@ == caret_spec(span),
{
    let v = caret_chars(span);
    string_of(&v)
}


/// `code` where colour is on, nothing where it is off.
pub open spec fn paint(color: bool, code: Seq<char>) -> Seq<char> {
    if color {
        code
    } else {
        Seq::empty()
    }
}

/// The escape codes that a diagnostic uses, or empty strings where colour is
/// off.
#[derive(Debug, Clone, Copy)]
pub struct ColorCodes {
    pub bold_red: &'static str,
    pub red: &'static str,
    pub bold_blue: &'static str,
    pub bold_yellow: &'static str,
    pub dim: &'static str,
    pub reset: &'static str,
}

/// The escape codes for diagnostics; all empty when `color` is off.
pub fn color_codes(color: bool) -> (r: ColorCodes)
    ensures
        r.bold_red@ == paint(color, "\x1b[1;31m"@),
        r.red@ == paint(color, "\x1b[31m"@),
        r.bold_blue@ == paint(color, "\x1b[1;34m"@),
        r.bold_yellow@ == paint(color, "\x1b[1;33m"@),
        r.dim@ == paint(color, "\x1b[2m"@),
        r.reset@ == paint(color, "\x1b[0m"@),
{
    if color {
        ColorCodes {
            bold_red: "\x1b[1;31m",
            red: "\x1b[31m",
            bold_blue: "\x1b[1;34m",
            bold_yellow: "\x1b[1;33m",
            dim: "\x1b[2m",
            reset: "\x1b[0m",
        }
    } else {
        proof {
            reveal_strlit("");
        }
        ColorCodes { bold_red: "", red: "", bold_blue: "", bold_yellow: "", dim: "", reset: "" }
    }
}

/// The text of a diagnostic block: a headline with the summary, the place,
/// the source line with the marker under it, and the suggestions.
pub open spec fn render_spec(
    summary: Seq<char>,
    filename: Seq<char>,
    line_no: usize,
    col: usize,
    code_line: Seq<char>,
    caret: Seq<char>,
    suggestions: Seq<char>,
    color: bool,
) -> Seq<char> {
    let reset = paint(color, "\x1b[0m"@);
    "\n"@ + paint(color, "\x1b[1;31m"@) + "❌ 错误："@ + summary + reset + "\n  "@ + paint(
        color,
        "\x1b[1;34m"@,
    ) + "--> "@ + filename + ":"@ + decimal(line_no as nat) + ":"@ + decimal(col as nat) + reset
        + "\n   |\n "@ + paint(color, "\x1b[2m"@) + decimal(line_no as nat) + reset + " | "@
        + code_line + "\n   | "@ + paint(color, "\x1b[31m"@) + caret + reset + "\n"@ + paint(
        color,
        "\x1b[1;33m"@,
    ) + "💡 修复建议："@ + reset + "\n"@ + suggestions + "\n"@
}

fn push_paint(out: &mut Vec<char>, color: bool, code: &str)
    ensures
        final(out)@ == old(out)@ + paint(color, code@),
{
    if color {
        append_str(out, code);
    } else {
        assert(out@ =~= old(out)@ + paint(color, code@));
    }
}

/// Renders a diagnostic block, coloured when `color` is on.
pub fn render_error(
    summary: &str,
    filename: &str,
    line_no: usize,
    col: usize,
    code_line: &str,
    caret: &str,
    suggestions: &str,
    color: bool,
) -> (r: String)
    ensures
        r@ == render_spec(summary@, filename@, line_no, col, code_line@, caret@, suggestions@, color),
{
    let mut out: Vec<char> = Vec::new();
    append_str(&mut out, "\n");
    push_paint(&mut out, color, "\x1b[1;31m");
    append_str(&mut out, "❌ 错误：");
    append_str(&mut out, summary);
    push_paint(&mut out, color, "\x1b[0m");
    append_str(&mut out, "\n  ");
    push_paint(&mut out, color, "\x1b[1;34m");
    append_str(&mut out, "--> ");
    append_str(&mut out, filename);
    append_str(&mut out, ":");
    push_decimal(&mut out, line_no as u64);
    append_str(&mut out, ":");
    push_decimal(&mut out, col as u64);
    push_paint(&mut out, color, "\x1b[0m");
    append_str(&mut out, "\n   |\n ");
    push_paint(&mut out, color, "\x1b[2m");
    push_decimal(&mut out, line_no as u64);
    push_paint(&mut out, color, "\x1b[0m");
    append_str(&mut out, " | ");
    append_str(&mut out, code_line);
    append_str(&mut out, "\n   | ");
    push_paint(&mut out, color, "\x1b[31m");
    append_str(&mut out, caret);
    push_paint(&mut out, color, "\x1b[0m");
    append_str(&mut out, "\n");
    push_paint(&mut out, color, "\x1b[1;33m");
    append_str(&mut out, "💡 修复建议：");
    push_paint(&mut out, color, "\x1b[0m");
    append_str(&mut out, "\n");
    append_str(&mut out, suggestions);
    append_str(&mut out, "\n");
    assert(out@ =~= render_spec(
        summary@,
        filename@,
        line_no,
        col,
        code_line@,
        caret@,
        suggestions@,
        color,
    ));
    string_of(&out)
}

} // verus!
