use vstd::prelude::*;

use crate::ast::{Expr, ExprM, Program, Stmt, StmtM};
use crate::span::{SourcePos, SourceSpan};
use crate::text::{
    append_str, chars_of, decimal, int_of, is_ascii_whitespace, is_ascii_ws, lines_of, parse_int,
    push_decimal, slice_of, split_chars, split_lines, split_on, string_of, trim, trimmed, views,
};

verus! {

/// Why a program could not be parsed.
#[derive(Debug)]
pub enum SyntaxError {
    /// The line is neither blank, a comment, a print nor an assignment.
    UnparseableLine { line: usize, text: String },
    /// The argument of `print(...)` is not a string literal.
    PrintArgument { line: usize },
    /// Something other than white space follows the name on the left of `=`.
    InvalidLhs { line: usize, lhs: String },
    /// An operand of an expression is no literal and no identifier.
    BadExpression { line: usize, text: String },
}

/// The mathematical value of a [`SyntaxError`].
pub enum SyntaxErrorM {
    UnparseableLine { line: usize, text: Seq<char> },
    PrintArgument { line: usize },
    InvalidLhs { line: usize, lhs: Seq<char> },
    BadExpression { line: usize, text: Seq<char> },
}

impl View for SyntaxError {
    type V = SyntaxErrorM;

    open spec fn view(&self) -> SyntaxErrorM {
        match *self {
            SyntaxError::UnparseableLine { line, text } => SyntaxErrorM::UnparseableLine {
                line,
                text: text@,
            },
            SyntaxError::PrintArgument { line } => SyntaxErrorM::PrintArgument { line },
            SyntaxError::InvalidLhs { line, lhs } => SyntaxErrorM::InvalidLhs { line, lhs: lhs@ },
            SyntaxError::BadExpression { line, text } => SyntaxErrorM::BadExpression {
                line,
                text: text@,
            },
        }
    }
}

/// The span of one line, from `start` to `end`.
pub open spec fn line_span(line: usize, start: usize, end: usize) -> SourceSpan {
    SourceSpan { start: SourcePos { line, col: start }, end: SourcePos { line, col: end } }
}

pub open spec fn is_ident_start(c: char) -> bool {
    ('a' <= c && c <= 'z') || ('A' <= c && c <= 'Z') || c == '_'
}

pub open spec fn is_ident_char(c: char) -> bool {
    is_ident_start(c) || ('0' <= c && c <= '9')
}

/// An identifier: a letter or `_`, then letters, digits and `_`.
pub open spec fn is_ident_spec(s: Seq<char>) -> bool {
    &&& s.len() > 0
    &&& is_ident_start(s[0])
    &&& forall|i: int| 1 <= i < s.len() ==> is_ident_char(#[trigger] s[i])
}

/// A string literal: at least two characters, a double quote at each end.
pub open spec fn is_quoted(s: Seq<char>) -> bool {
    s.len() >= 2 && s[0] == '"' && s.last() == '"'
}

/// The text between the quotes of a string literal.
pub open spec fn unquote(s: Seq<char>) -> Seq<char> {
    s.subrange(1, s.len() - 1)
}

/// The operand `s` (already trimmed) of an expression on line `line`.
pub open spec fn atom_spec(s: Seq<char>, line: usize) -> Result<ExprM, SyntaxErrorM> {
    let sp = line_span(line, 1, s.len() as usize);
    if is_quoted(s) {
        Ok(ExprM::StringLit(unquote(s), sp))
    } else if int_of(s) is Some {
        Ok(ExprM::IntLit(int_of(s)->0, sp))
    } else if is_ident_spec(s) {
        Ok(ExprM::Ident(s, sp))
    } else {
        Err(SyntaxErrorM::BadExpression { line, text: s })
    }
}


/// The left-to-right sum of the operands `parts`, each trimmed: the first
/// operand that does not parse is the error.
pub open spec fn fold_spec(parts: Seq<Seq<char>>, line: usize) -> Result<ExprM, SyntaxErrorM>
    decreases parts.len(),
{
    if parts.len() <= 1 {
        atom_spec(trim(parts[0]), line)
    } else {
        match fold_spec(parts.subrange(0, parts.len() - 1), line) {
            Err(e) => Err(e),
            Ok(l) => match atom_spec(trim(parts.last()), line) {
                Err(e) => Err(e),
                Ok(r) => Ok(ExprM::BinaryAdd(Box::new(l), Box::new(r), l.span())),
            },
        }
    }
}

/// The expression `s` on line `line`: operands separated by `+`, added from
/// the left.
pub open spec fn expr_spec(s: Seq<char>, line: usize) -> Result<ExprM, SyntaxErrorM> {
    fold_spec(split_on(s, '+'), line)
}

proof fn lemma_fold_err(parts: Seq<Seq<char>>, k: int, line: usize)
    requires
        1 <= k <= parts.len(),
        fold_spec(parts.subrange(0, k), line) is Err,
    ensures
        fold_spec(parts, line) == fold_spec(parts.subrange(0, k), line),
    decreases parts.len(),
{
    if k < parts.len() {
        let p2 = parts.subrange(0, parts.len() - 1);
        assert(p2.subrange(0, k) =~= parts.subrange(0, k));
        lemma_fold_err(p2, k, line);
    } else {
        assert(parts.subrange(0, k) =~= parts);
    }
}

impl Expr {
    /// The span recorded on this expression.
    pub fn span(&self) -> (r: SourceSpan)
        ensures
            r == self@.span(),
    {
        match self {
            Expr::StringLit(_, sp) => *sp,
            Expr::IntLit(_, sp) => *sp,
            Expr::Ident(_, sp) => *sp,
            Expr::BinaryAdd(_, _, sp) => *sp,
        }
    }
}

/// Whether `s` is an identifier.
pub fn is_ident(s: &Vec<char>) -> (r: bool)
    ensures
        r == is_ident_spec(s@),
{
    if s.len() == 0 {
        return false;
    }
    let c = s[0];
    if !(('a' <= c && c <= 'z') || ('A' <= c && c <= 'Z') || c == '_') {
        return false;
    }
    let mut i: usize = 1;
    while i < s.len()
        invariant
            1 <= i <= s@.len(),
            forall|k: int| 1 <= k < i ==> is_ident_char(#[trigger] s@[k]),
        decreases s@.len() - i,
    {
        if !ident_char(s[i]) {
            return false;
        }
        i += 1;
    }
    true
}

/// Parses one operand `s` (already trimmed) of an expression on line `line_no`.
pub fn parse_atom(s: &Vec<char>, line_no: usize) -> (r: Result<Expr, SyntaxError>)
    ensures
        r matches Ok(e) ==> atom_spec(s@, line_no) == Ok::<ExprM, SyntaxErrorM>(e@),
        r matches Err(e) ==> atom_spec(s@, line_no) == Err::<ExprM, SyntaxErrorM>(e@),
{
    let n = s.len();
    let sp = SourceSpan::single_line(line_no, 1, n);
    if n >= 2 && s[0] == '"' && s[n - 1] == '"' {
        let body = slice_of(s, 1, n - 1);
        return Ok(Expr::StringLit(string_of(&body), sp));
    }
    if let Some(v) = parse_int(s) {
        return Ok(Expr::IntLit(v, sp));
    }
    if is_ident(s) {
        return Ok(Expr::Ident(string_of(s), sp));
    }
    Err(SyntaxError::BadExpression { line: line_no, text: string_of(s) })
}

/// Parses the expression `s` (already trimmed) on line `line_no`.
pub fn parse_expr(s: &Vec<char>, line_no: usize) -> (r: Result<Expr, SyntaxError>)
    ensures
        r matches Ok(e) ==> expr_spec(s@, line_no) == Ok::<ExprM, SyntaxErrorM>(e@),
        r matches Err(e) ==> expr_spec(s@, line_no) == Err::<ExprM, SyntaxErrorM>(e@),
{
    let parts = split_chars(s, '+');
    let ghost ps = views(parts@);
    let first = trimmed(&parts[0]);
    assert(ps.subrange(0, 1)[0] == ps[0]);
    let mut expr = match parse_atom(&first, line_no) {
        Ok(e) => e,
        Err(e) => {
            proof {
                lemma_fold_err(ps, 1, line_no);
            }
            return Err(e);
        },
    };
    let mut k: usize = 1;
    while k < parts.len()
        invariant
            1 <= k <= parts@.len(),
            ps == views(parts@),
            ps == split_on(s@, '+'),
            fold_spec(ps.subrange(0, k as int), line_no) == Ok::<ExprM, SyntaxErrorM>(expr@),
        decreases parts@.len() - k,
    {
        let piece = trimmed(&parts[k]);
        assert(ps.subrange(0, k + 1).subrange(0, k as int) =~= ps.subrange(0, k as int));
        assert(ps.subrange(0, k + 1).last() == ps[k as int]);
        let rhs = match parse_atom(&piece, line_no) {
            Ok(e) => e,
            Err(e) => {
                proof {
                    assert(ps[k as int] == parts@[k as int]@);
                    assert(fold_spec(ps.subrange(0, k + 1), line_no) == Err::<ExprM, SyntaxErrorM>(
                        e@,
                    ));
                    lemma_fold_err(ps, k + 1, line_no);
                }
                return Err(e);
            },
        };
        let span = expr.span();
        expr = Expr::BinaryAdd(Box::new(expr), Box::new(rhs), span);
        k += 1;
    }
    assert(ps.subrange(0, parts@.len() as int) =~= ps);
    Ok(expr)
}


/// The first index from `i` on of a character of `s` that is not ASCII white
/// space, or the length of `s`.
pub open spec fn skip_ascii_ws(s: Seq<char>, i: int) -> int
    decreases s.len() - i,
{
    if 0 <= i < s.len() && is_ascii_ws(s[i]) {
        skip_ascii_ws(s, i + 1)
    } else {
        i
    }
}

/// The first index from `i` on of a character of `s` that cannot stand in an
/// identifier, or the length of `s`.
pub open spec fn skip_ident(s: Seq<char>, i: int) -> int
    decreases s.len() - i,
{
    if 0 <= i < s.len() && is_ident_char(s[i]) {
        skip_ident(s, i + 1)
    } else {
        i
    }
}

/// The first index from `i` on where `c` stands in `s`, or the length of `s`.
pub open spec fn index_from(s: Seq<char>, c: char, i: int) -> int
    decreases s.len() - i,
{
    if 0 <= i < s.len() {
        if s[i] == c {
            i
        } else {
            index_from(s, c, i + 1)
        }
    } else {
        s.len() as int
    }
}

pub open spec fn print_head() -> Seq<char> {
    seq!['p', 'r', 'i', 'n', 't', '(']
}

/// Whether the trimmed line `t` has the shape `print(...)`.
pub open spec fn is_print_shape(t: Seq<char>) -> bool {
    t.len() >= 7 && t.subrange(0, 6) == print_head() && t.last() == ')'
}

/// The trimmed line `t`, on line `line`, as a print statement: `Ok(None)` when
/// it does not have that shape.
pub open spec fn print_spec(t: Seq<char>, line: usize) -> Result<Option<StmtM>, SyntaxErrorM> {
    if !is_print_shape(t) {
        Ok(None)
    } else {
        let inner = trim(t.subrange(6, t.len() - 1));
        if !is_quoted(inner) {
            Err(SyntaxErrorM::PrintArgument { line })
        } else {
            Ok(Some(StmtM::Print { content: unquote(inner), span: line_span(line, 1, t.len() as usize) }))
        }
    }
}

/// The line `raw`, on line `line`, as an assignment: `Ok(None)` when it has
/// no `=`, or no identifier where the name should start.
pub open spec fn assign_spec(raw: Seq<char>, line: usize) -> Result<Option<StmtM>, SyntaxErrorM> {
    let k = index_from(raw, '=', 0);
    let lhs = raw.subrange(0, k);
    let rhs = raw.subrange(k + 1, raw.len() as int);
    let i0 = skip_ascii_ws(lhs, 0);
    let decl = i0 < lhs.len() && lhs[i0] == '$';
    let i = if decl { skip_ascii_ws(lhs, i0 + 1) } else { i0 };
    let j = skip_ident(lhs, i + 1);
    if k >= raw.len() || i >= lhs.len() || !is_ident_start(lhs[i]) {
        Ok(None)
    } else if trim(lhs.subrange(j, lhs.len() as int)).len() != 0 {
        Err(SyntaxErrorM::InvalidLhs { line, lhs: trim(lhs) })
    } else {
        match expr_spec(trim(rhs), line) {
            Err(e) => Err(e),
            Ok(e) => Ok(
                Some(
                    StmtM::Assign {
                        name: lhs.subrange(i, j),
                        decl_mut: decl,
                        expr: e,
                        span: line_span(line, 1, raw.len() as usize),
                        name_span: line_span(line, (i + 1) as usize, (j + 1) as usize),
                    },
                ),
            ),
        }
    }
}

fn skip_ascii_ws_exec(s: &Vec<char>, i: usize) -> (r: usize)
    requires
        i <= s@.len(),
    ensures
        r == skip_ascii_ws(s@, i as int),
        i <= r <= s@.len(),
{
    let mut k = i;
    while k < s.len() && is_ascii_whitespace(s[k])
        invariant
            i <= k <= s@.len(),
            skip_ascii_ws(s@, k as int) == skip_ascii_ws(s@, i as int),
        decreases s@.len() - k,
    {
        k += 1;
    }
    k
}

fn ident_char(c: char) -> (r: bool)
    ensures
        r == is_ident_char(c),
{
    ('a' <= c && c <= 'z') || ('A' <= c && c <= 'Z') || c == '_' || ('0' <= c && c <= '9')
}

fn skip_ident_exec(s: &Vec<char>, i: usize) -> (r: usize)
    requires
        i <= s@.len(),
    ensures
        r == skip_ident(s@, i as int),
        i <= r <= s@.len(),
{
    let mut k = i;
    while k < s.len() && ident_char(s[k])
        invariant
            i <= k <= s@.len(),
            skip_ident(s@, k as int) == skip_ident(s@, i as int),
        decreases s@.len() - k,
    {
        k += 1;
    }
    k
}

fn index_of(s: &Vec<char>, c: char) -> (r: usize)
    ensures
        r == index_from(s@, c, 0),
        r <= s@.len(),
{
    let mut k: usize = 0;
    while k < s.len() && s[k] != c
        invariant
            k <= s@.len(),
            index_from(s@, c, k as int) == index_from(s@, c, 0),
        decreases s@.len() - k,
    {
        k += 1;
    }
    k
}

/// Parses the trimmed line `line` as a print statement; `Ok(None)` when it is
/// not one.
pub fn parse_print(line: &Vec<char>, line_no: usize) -> (r: Result<Option<Stmt>, SyntaxError>)
    ensures
        r matches Ok(None) ==> print_spec(line@, line_no) == Ok::<Option<StmtM>, SyntaxErrorM>(
            None,
        ),
        r matches Ok(Some(st)) ==> print_spec(line@, line_no) == Ok::<
            Option<StmtM>,
            SyntaxErrorM,
        >(Some(st@)),
        r matches Err(e) ==> print_spec(line@, line_no) == Err::<Option<StmtM>, SyntaxErrorM>(e@),
{
    let n = line.len();
    let shaped = n >= 7 && line[0] == 'p' && line[1] == 'r' && line[2] == 'i' && line[3] == 'n'
        && line[4] == 't' && line[5] == '(' && line[n - 1] == ')';
    if n >= 7 {
        assert(shaped <==> is_print_shape(line@)) by {
            if line@.subrange(0, 6) == print_head() {
                assert(line@.subrange(0, 6)[0] == 'p');
                assert(line@.subrange(0, 6)[1] == 'r');
                assert(line@.subrange(0, 6)[2] == 'i');
                assert(line@.subrange(0, 6)[3] == 'n');
                assert(line@.subrange(0, 6)[4] == 't');
                assert(line@.subrange(0, 6)[5] == '(');
            }
            if shaped {
                assert(line@.subrange(0, 6) =~= print_head());
            }
        };
    }
    if !shaped {
        return Ok(None);
    }
    let inner_raw = slice_of(line, 6, n - 1);
    let inner = trimmed(&inner_raw);
    let m = inner.len();
    if !(m >= 2 && inner[0] == '"' && inner[m - 1] == '"') {
        return Err(SyntaxError::PrintArgument { line: line_no });
    }
    let body = slice_of(&inner, 1, m - 1);
    Ok(Some(Stmt::Print { content: string_of(&body), span: SourceSpan::single_line(line_no, 1, n) }))
}

/// Parses the line `raw` as an assignment; `Ok(None)` when it is not one.
pub fn parse_assign(raw: &Vec<char>, line_no: usize) -> (r: Result<Option<Stmt>, SyntaxError>)
    ensures
        r matches Ok(None) ==> assign_spec(raw@, line_no) == Ok::<Option<StmtM>, SyntaxErrorM>(
            None,
        ),
        r matches Ok(Some(st)) ==> assign_spec(raw@, line_no) == Ok::<
            Option<StmtM>,
            SyntaxErrorM,
        >(Some(st@)),
        r matches Err(e) ==> assign_spec(raw@, line_no) == Err::<Option<StmtM>, SyntaxErrorM>(e@),
{
    let k = index_of(raw, '=');
    if k >= raw.len() {
        return Ok(None);
    }
    let lhs = slice_of(raw, 0, k);
    let rhs = slice_of(raw, k + 1, raw.len());
    let i0 = skip_ascii_ws_exec(&lhs, 0);
    let decl = i0 < lhs.len() && lhs[i0] == '$';
    let i = if decl {
        skip_ascii_ws_exec(&lhs, i0 + 1)
    } else {
        i0
    };
    if i >= lhs.len() {
        return Ok(None);
    }
    let c = lhs[i];
    if !(('a' <= c && c <= 'z') || ('A' <= c && c <= 'Z') || c == '_') {
        return Ok(None);
    }
    let j = skip_ident_exec(&lhs, i + 1);
    let rest = slice_of(&lhs, j, lhs.len());
    let rest_t = trimmed(&rest);
    if rest_t.len() != 0 {
        let lhs_t = trimmed(&lhs);
        return Err(SyntaxError::InvalidLhs { line: line_no, lhs: string_of(&lhs_t) });
    }
    let rhs_t = trimmed(&rhs);
    let expr = match parse_expr(&rhs_t, line_no) {
        Ok(e) => e,
        Err(e) => return Err(e),
    };
    let name = slice_of(&lhs, i, j);
    Ok(
        Some(
            Stmt::Assign {
                name: string_of(&name),
                decl_mut: decl,
                expr,
                span: SourceSpan::single_line(line_no, 1, raw.len()),
                name_span: SourceSpan::single_line(line_no, i + 1, j + 1),
            },
        ),
    )
}


/// What one line contributes to a program.
pub enum LineM {
    Skip,
    Statement(StmtM),
    Fail(SyntaxErrorM),
}

/// Whether the trimmed line `t` is blank or a comment.
pub open spec fn is_blank_or_comment(t: Seq<char>) -> bool {
    t.len() == 0 || (t.len() >= 2 && t[0] == '/' && t[1] == '/')
}

/// What the line `raw`, numbered `line`, contributes: nothing when blank or a
/// comment, else a print statement, else an assignment, else an error.
pub open spec fn line_spec(raw: Seq<char>, line: usize) -> LineM {
    let t = trim(raw);
    if is_blank_or_comment(t) {
        LineM::Skip
    } else {
        match print_spec(t, line) {
            Err(e) => LineM::Fail(e),
            Ok(Some(st)) => LineM::Statement(st),
            Ok(None) => match assign_spec(raw, line) {
                Err(e) => LineM::Fail(e),
                Ok(Some(st)) => LineM::Statement(st),
                Ok(None) => LineM::Fail(SyntaxErrorM::UnparseableLine { line, text: raw }),
            },
        }
    }
}

/// The statements of the first `n` of `lines`, or the first error among them.
pub open spec fn lines_spec(lines: Seq<Seq<char>>, n: nat) -> Result<Seq<StmtM>, SyntaxErrorM>
    decreases n,
{
    if n == 0 {
        Ok(Seq::empty())
    } else {
        match lines_spec(lines, (n - 1) as nat) {
            Err(e) => Err(e),
            Ok(ss) => match line_spec(lines[n - 1], n as usize) {
                LineM::Skip => Ok(ss),
                LineM::Statement(st) => Ok(ss.push(st)),
                LineM::Fail(e) => Err(e),
            },
        }
    }
}

/// The program that the source text `src` holds, or its first syntax error.
pub open spec fn parse_spec(src: Seq<char>) -> Result<Seq<StmtM>, SyntaxErrorM> {
    lines_spec(lines_of(src), lines_of(src).len())
}

proof fn lemma_lines_err(lines: Seq<Seq<char>>, k: nat, n: nat)
    requires
        k <= n,
        lines_spec(lines, k) is Err,
    ensures
        lines_spec(lines, n) == lines_spec(lines, k),
    decreases n,
{
    if k < n {
        lemma_lines_err(lines, k, (n - 1) as nat);
    }
}

/// Parses the source text of a program, one line at a time; the first line
/// that cannot be parsed ends the parse with its error.
pub fn parse(source: &str) -> (r: Result<Program, SyntaxError>)
    ensures
        r matches Ok(p) ==> parse_spec(source@) == Ok::<Seq<StmtM>, SyntaxErrorM>(p@),
        r matches Err(e) ==> parse_spec(source@) == Err::<Seq<StmtM>, SyntaxErrorM>(e@),
{
    let src = chars_of(source);
    let lines = split_lines(&src);
    let ghost ls = views(lines@);
    let mut statements: Vec<Stmt> = Vec::new();
    let mut i: usize = 0;
    assert(crate::ast::stmts_view(statements@) =~= Seq::<StmtM>::empty());
    while i < lines.len()
        invariant
            i <= lines@.len(),
            ls == views(lines@),
            ls == lines_of(source@),
            lines_spec(ls, i as nat) == Ok::<Seq<StmtM>, SyntaxErrorM>(
                crate::ast::stmts_view(statements@),
            ),
        decreases lines@.len() - i,
    {
        let raw = &lines[i];
        let line_no = i + 1;
        assert(ls[i as int] == raw@);
        let t = trimmed(raw);
        if t.len() == 0 || (t.len() >= 2 && t[0] == '/' && t[1] == '/') {
            i += 1;
            continue;
        }
        let ghost before = crate::ast::stmts_view(statements@);
        match parse_print(&t, line_no) {
            Err(e) => {
                proof {
                    lemma_lines_err(ls, (i + 1) as nat, ls.len());
                }
                return Err(e);
            },
            Ok(Some(st)) => {
                statements.push(st);
                assert(crate::ast::stmts_view(statements@) =~= before.push(st@));
                i += 1;
                continue;
            },
            Ok(None) => {},
        }
        match parse_assign(raw, line_no) {
            Err(e) => {
                proof {
                    lemma_lines_err(ls, (i + 1) as nat, ls.len());
                }
                return Err(e);
            },
            Ok(Some(st)) => {
                statements.push(st);
                assert(crate::ast::stmts_view(statements@) =~= before.push(st@));
                i += 1;
                continue;
            },
            Ok(None) => {},
        }
        proof {
            lemma_lines_err(ls, (i + 1) as nat, ls.len());
        }
        return Err(SyntaxError::UnparseableLine { line: line_no, text: string_of(raw) });
    }
    Ok(Program { statements })
}


/// The message of a syntax error.
pub open spec fn message_spec(e: SyntaxErrorM) -> Seq<char> {
    match e {
        SyntaxErrorM::UnparseableLine { line, text } => "语法错误：无法解析第 "@ + decimal(line as nat)
            + " 行："@ + text,
        SyntaxErrorM::PrintArgument { line } => "语法错误：print(...) 仅支持字符串字面量，第 "@
            + decimal(line as nat) + " 行"@,
        SyntaxErrorM::InvalidLhs { line, lhs } => "语法错误：无效的左值 `"@ + lhs + "`（第 "@ + decimal(
            line as nat,
        ) + " 行）"@,
        SyntaxErrorM::BadExpression { line, text } => "语法错误：无法解析表达式 `"@ + text + "`（第 "@
            + decimal(line as nat) + " 行）"@,
    }
}

impl SyntaxError {
    /// The message shown for this error.
    pub fn message(&self) -> (r: String)
        ensures
            r@ == message_spec(self@),
    {
        let mut out: Vec<char> = Vec::new();
        match self {
            SyntaxError::UnparseableLine { line, text } => {
                append_str(&mut out, "语法错误：无法解析第 ");
                push_decimal(&mut out, *line as u64);
                append_str(&mut out, " 行：");
                append_str(&mut out, text.as_str());
            },
            SyntaxError::PrintArgument { line } => {
                append_str(&mut out, "语法错误：print(...) 仅支持字符串字面量，第 ");
                push_decimal(&mut out, *line as u64);
                append_str(&mut out, " 行");
            },
            SyntaxError::InvalidLhs { line, lhs } => {
                append_str(&mut out, "语法错误：无效的左值 `");
                append_str(&mut out, lhs.as_str());
                append_str(&mut out, "`（第 ");
                push_decimal(&mut out, *line as u64);
                append_str(&mut out, " 行）");
            },
            SyntaxError::BadExpression { line, text } => {
                append_str(&mut out, "语法错误：无法解析表达式 `");
                append_str(&mut out, text.as_str());
                append_str(&mut out, "`（第 ");
                push_decimal(&mut out, *line as u64);
                append_str(&mut out, " 行）");
            },
        }
        assert(out@ =~= message_spec(self@));
        string_of(&out)
    }
}

} // verus!
