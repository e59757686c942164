use vstd::prelude::*;

use crate::ast::{Expr, ExprM, Program, Stmt, StmtM};
use crate::diagnostics::{
    caret_chars, caret_spec, line_at, line_at_exec, render_error, render_spec,
};
use crate::parser::line_span;
use crate::span::SourceSpan;
use crate::text::{
    append_chars, append_str, chars_eq, chars_of, lines_of, slice_of, split_lines, string_of, views,
};

verus! {

/// Whether a variable may be assigned again after its declaration.
#[derive(Debug, Clone, Copy, PartialEq, Eq, Structural)]
pub enum Mutability {
    Immutable,
    Mutable,
}

/// The symbol table: each variable of the program with its mutability, in
/// the order of first declaration, each name once.
#[derive(Debug)]
pub struct SemanticInfo {
    pub vars: Vec<(String, Mutability)>,
}

/// Whether no two entries share a name.
pub open spec fn unique_names(s: Seq<(String, Mutability)>) -> bool {
    forall|i: int, j: int|
        0 <= i < s.len() && 0 <= j < s.len() && i != j ==> #[trigger] s[i].0@ != #[trigger] s[j].0@
}

/// The entries as a map from name to mutability.
pub open spec fn entries_map(s: Seq<(String, Mutability)>) -> Map<Seq<char>, Mutability> {
    Map::new(
        |k: Seq<char>| exists|i: int| 0 <= i < s.len() && #[trigger] s[i].0@ == k,
        |k: Seq<char>| s[choose|i: int| 0 <= i < s.len() && #[trigger] s[i].0@ == k].1,
    )
}

impl View for SemanticInfo {
    type V = Map<Seq<char>, Mutability>;

    open spec fn view(&self) -> Map<Seq<char>, Mutability> {
        entries_map(self.vars@)
    }
}

impl SemanticInfo {
    /// Each name stands in the table once.
    pub open spec fn wf(&self) -> bool {
        unique_names(self.vars@)
    }
}

/// The symbol table after the first `n` statements: each name keeps the
/// mutability of its first assignment.
pub open spec fn table_prefix(stmts: Seq<StmtM>, n: nat) -> Map<Seq<char>, Mutability>
    decreases n,
{
    if n == 0 || n > stmts.len() {
        Map::empty()
    } else {
        let t = table_prefix(stmts, (n - 1) as nat);
        match stmts[n - 1] {
            StmtM::Print { .. } => t,
            StmtM::Assign { name, decl_mut, .. } => if t.contains_key(name) {
                t
            } else {
                t.insert(
                    name,
                    if decl_mut {
                        Mutability::Mutable
                    } else {
                        Mutability::Immutable
                    },
                )
            },
        }
    }
}

/// The symbol table of a whole program.
pub open spec fn table_spec(stmts: Seq<StmtM>) -> Map<Seq<char>, Mutability> {
    table_prefix(stmts, stmts.len())
}

proof fn lemma_entries_push(s: Seq<(String, Mutability)>, e: (String, Mutability))
    requires
        unique_names(s),
        !entries_map(s).contains_key(e.0@),
    ensures
        unique_names(s.push(e)),
        entries_map(s.push(e)) == entries_map(s).insert(e.0@, e.1),
{
    let t = s.push(e);
    assert forall|i: int| 0 <= i < s.len() implies #[trigger] s[i].0@ != e.0@ by {
        if s[i].0@ == e.0@ {
            assert(entries_map(s).contains_key(e.0@));
        }
    };
    assert forall|i: int, j: int|
        0 <= i < t.len() && 0 <= j < t.len() && i != j implies #[trigger] t[i].0@
        != #[trigger] t[j].0@ by {
        if i < s.len() && j < s.len() {
            assert(t[i] == s[i] && t[j] == s[j]);
        } else if i < s.len() {
            assert(t[i] == s[i]);
        } else {
            assert(t[j] == s[j]);
        }
    };
    assert forall|k: Seq<char>| #[trigger] entries_map(t).contains_key(k) implies entries_map(
        s,
    ).insert(e.0@, e.1).contains_key(k) by {
        let i = choose|i: int| 0 <= i < t.len() && #[trigger] t[i].0@ == k;
        if i < s.len() {
            assert(s[i].0@ == k);
        }
    };
    assert forall|k: Seq<char>| #[trigger] entries_map(s).insert(e.0@, e.1).contains_key(
        k,
    ) implies entries_map(t).contains_key(k) by {
        if k == e.0@ {
            assert(t[s.len() as int].0@ == k);
        } else {
            let i = choose|i: int| 0 <= i < s.len() && #[trigger] s[i].0@ == k;
            assert(t[i].0@ == k);
        }
    };
    assert forall|k: Seq<char>| #[trigger] entries_map(t).contains_key(k) implies entries_map(
        t,
    )[k] == entries_map(s).insert(e.0@, e.1)[k] by {
        let c = choose|i: int| 0 <= i < t.len() && #[trigger] t[i].0@ == k;
        if k == e.0@ {
            if c < s.len() {
                assert(s[c].0@ == e.0@);
            }
        } else {
            let d = choose|i: int| 0 <= i < s.len() && #[trigger] s[i].0@ == k;
            assert(t[d].0@ == k);
            assert(c < s.len());
            assert(t[c] == s[c]);
            assert(t[d] == s[d]);
        }
    };
    assert(entries_map(t) =~= entries_map(s).insert(e.0@, e.1));
}

/// The mutability recorded for `name`, if any.
fn lookup(vars: &Vec<(String, Mutability)>, name: &String) -> (r: Option<Mutability>)
    requires
        unique_names(vars@),
    ensures
        r == (if entries_map(vars@).contains_key(name@) {
            Some(entries_map(vars@)[name@])
        } else {
            None::<Mutability>
        }),
{
    let mut i: usize = 0;
    while i < vars.len()
        invariant
            i <= vars@.len(),
            unique_names(vars@),
            forall|j: int| 0 <= j < i ==> #[trigger] vars@[j].0@ != name@,
        decreases vars@.len() - i,
    {
        if vars[i].0 == *name {
            assert(vars@[i as int].0@ == name@);
            assert(entries_map(vars@).contains_key(name@));
            let ghost c = choose|j: int| 0 <= j < vars@.len() && #[trigger] vars@[j].0@ == name@;
            assert(c == i);
            assert(entries_map(vars@)[name@] == vars@[c].1);
            return Some(vars[i].1);
        }
        i += 1;
    }
    None
}

impl SemanticInfo {
    /// The mutability recorded for `name`, if it is in the table.
    pub fn get(&self, name: &str) -> (r: Option<Mutability>)
        requires
            self.wf(),
        ensures
            r == (if self@.contains_key(name@) {
                Some(self@[name@])
            } else {
                None::<Mutability>
            }),
    {
        let key = <String as vstd::string::StringExecFns>::from_str(name);
        lookup(&self.vars, &key)
    }

    /// The number of variables in the table.
    pub fn len(&self) -> (r: usize)
        requires
            self.wf(),
        ensures
            r == self@.len(),
    {
        proof {
            lemma_entries_len(self.vars@);
        }
        self.vars.len()
    }
}

proof fn lemma_entries_len(s: Seq<(String, Mutability)>)
    requires
        unique_names(s),
    ensures
        entries_map(s).len() == s.len(),
        entries_map(s).dom().finite(),
    decreases s.len(),
{
    if s.len() == 0 {
        assert(entries_map(s) =~= Map::empty());
    } else {
        let p = s.drop_last();
        assert(unique_names(p)) by {
            assert forall|i: int, j: int|
                0 <= i < p.len() && 0 <= j < p.len() && i != j implies #[trigger] p[i].0@
                != #[trigger] p[j].0@ by {
                assert(p[i] == s[i] && p[j] == s[j]);
            };
        };
        lemma_entries_len(p);
        if entries_map(p).contains_key(s.last().0@) {
            let i = choose|i: int| 0 <= i < p.len() && #[trigger] p[i].0@ == s.last().0@;
            assert(s[i] == p[i]);
            assert(s[s.len() - 1].0@ == s.last().0@);
        }
        lemma_entries_push(p, s.last());
        assert(p.push(s.last()) =~= s);
    }
}


/// What a semantic error is about.
#[derive(Debug, Clone, Copy, PartialEq, Eq, Structural)]
pub enum SemanticErrorKind {
    /// A name declared with `$` that was declared before.
    DuplicateDeclaration,
    /// A second assignment to an immutable variable.
    AssignImmutable,
    /// A name read before any assignment to it.
    UndefinedVariable,
}

/// A semantic error, with what a diagnostic shows of it.
#[derive(Debug)]
pub struct SemanticError {
    pub kind: SemanticErrorKind,
    /// The offending name.
    pub name: String,
    /// The name of the source file.
    pub file: String,
    /// 1-based line of the offending occurrence.
    pub line: usize,
    /// 1-based column of the offending occurrence.
    pub col: usize,
    /// The whole source line.
    pub line_text: String,
    /// The marker under the offending occurrence.
    pub caret: String,
}

/// The mathematical value of a [`SemanticError`].
pub struct SemanticErrorM {
    pub kind: SemanticErrorKind,
    pub name: Seq<char>,
    pub file: Seq<char>,
    pub line: usize,
    pub col: usize,
    pub line_text: Seq<char>,
    pub caret: Seq<char>,
}

impl View for SemanticError {
    type V = SemanticErrorM;

    open spec fn view(&self) -> SemanticErrorM {
        SemanticErrorM {
            kind: self.kind,
            name: self.name@,
            file: self.file@,
            line: self.line,
            col: self.col,
            line_text: self.line_text@,
            caret: self.caret@,
        }
    }
}

pub open spec fn errors_view(s: Seq<SemanticError>) -> Seq<SemanticErrorM> {
    s.map_values(|e: SemanticError| e@)
}

/// `a + b`, or the largest `usize` where that is larger.
pub open spec fn sat_add(a: int, b: int) -> usize {
    if a + b > usize::MAX {
        usize::MAX
    } else {
        (a + b) as usize
    }
}

/// The first index from `i` on at which `needle` stands in `hay`.
pub open spec fn find_from(hay: Seq<char>, needle: Seq<char>, i: int) -> Option<int>
    decreases hay.len() + 1 - i,
{
    if i < 0 || i + needle.len() > hay.len() {
        None
    } else if hay.subrange(i, i + needle.len()) == needle {
        Some(i)
    } else {
        find_from(hay, needle, i + 1)
    }
}

/// An error about `name` at `span`, which points at it exactly.
pub open spec fn name_error(
    kind: SemanticErrorKind,
    name: Seq<char>,
    span: SourceSpan,
    lines: Seq<Seq<char>>,
    file: Seq<char>,
) -> SemanticErrorM {
    SemanticErrorM {
        kind,
        name,
        file,
        line: span.start.line,
        col: span.start.col,
        line_text: line_at(lines, span.start.line),
        caret: caret_spec(span),
    }
}

/// The error for reading the undeclared `name` at `span`: where `name`
/// occurs in its line, the column is that of its first occurrence there.
pub open spec fn undefined_error(
    name: Seq<char>,
    span: SourceSpan,
    lines: Seq<Seq<char>>,
    file: Seq<char>,
) -> SemanticErrorM {
    let line = span.start.line;
    let text = line_at(lines, line);
    match find_from(text, name, 0) {
        Some(idx) => SemanticErrorM {
            kind: SemanticErrorKind::UndefinedVariable,
            name,
            file,
            line,
            col: sat_add(idx, 1),
            line_text: text,
            caret: caret_spec(line_span(line, sat_add(idx, 1), sat_add(idx + 1, name.len() as int))),
        },
        None => name_error(SemanticErrorKind::UndefinedVariable, name, span, lines, file),
    }
}

/// The errors for the identifiers of `e` that are not in `declared`, from
/// left to right.
pub open spec fn undefined_errors(
    e: ExprM,
    declared: Set<Seq<char>>,
    lines: Seq<Seq<char>>,
    file: Seq<char>,
) -> Seq<SemanticErrorM>
    decreases e,
{
    match e {
        ExprM::Ident(name, span) => if declared.contains(name) {
            Seq::empty()
        } else {
            seq![undefined_error(name, span, lines, file)]
        },
        ExprM::BinaryAdd(a, b, _) => undefined_errors(*a, declared, lines, file) + undefined_errors(
            *b,
            declared,
            lines,
            file,
        ),
        _ => Seq::empty(),
    }
}

/// The names assigned by the first `n` statements.
pub open spec fn declared_prefix(stmts: Seq<StmtM>, n: nat) -> Set<Seq<char>>
    decreases n,
{
    if n == 0 || n > stmts.len() {
        Set::empty()
    } else {
        let d = declared_prefix(stmts, (n - 1) as nat);
        match stmts[n - 1] {
            StmtM::Print { .. } => d,
            StmtM::Assign { name, .. } => d.insert(name),
        }
    }
}

/// The declaration errors of the first `n` statements, in order: a `$`
/// declaration of a known name, or an assignment to a known immutable name.
pub open spec fn declaration_errors(
    stmts: Seq<StmtM>,
    n: nat,
    lines: Seq<Seq<char>>,
    file: Seq<char>,
) -> Seq<SemanticErrorM>
    decreases n,
{
    if n == 0 || n > stmts.len() {
        Seq::empty()
    } else {
        let prev = declaration_errors(stmts, (n - 1) as nat, lines, file);
        let t = table_prefix(stmts, (n - 1) as nat);
        match stmts[n - 1] {
            StmtM::Print { .. } => prev,
            StmtM::Assign { name, decl_mut, name_span, .. } => if t.contains_key(name) && decl_mut {
                prev.push(
                    name_error(SemanticErrorKind::DuplicateDeclaration, name, name_span, lines, file),
                )
            } else if t.contains_key(name) && t[name] == Mutability::Immutable {
                prev.push(
                    name_error(SemanticErrorKind::AssignImmutable, name, name_span, lines, file),
                )
            } else {
                prev
            },
        }
    }
}

/// The use-before-declaration errors of the first `n` statements, in order.
pub open spec fn use_errors(
    stmts: Seq<StmtM>,
    n: nat,
    lines: Seq<Seq<char>>,
    file: Seq<char>,
) -> Seq<SemanticErrorM>
    decreases n,
{
    if n == 0 || n > stmts.len() {
        Seq::empty()
    } else {
        let prev = use_errors(stmts, (n - 1) as nat, lines, file);
        match stmts[n - 1] {
            StmtM::Print { .. } => prev,
            StmtM::Assign { expr, .. } => prev + undefined_errors(
                expr,
                declared_prefix(stmts, (n - 1) as nat),
                lines,
                file,
            ),
        }
    }
}

/// All semantic errors of a program: the declaration errors, then the
/// use-before-declaration errors.
pub open spec fn semantic_errors(stmts: Seq<StmtM>, source: Seq<char>, file: Seq<char>) -> Seq<
    SemanticErrorM,
> {
    let lines = lines_of(source);
    declaration_errors(stmts, stmts.len(), lines, file) + use_errors(
        stmts,
        stmts.len(),
        lines,
        file,
    )
}

/// The first index at which `needle` stands in `hay`.
fn find_chars(hay: &Vec<char>, needle: &Vec<char>) -> (r: Option<usize>)
    ensures
        r matches Some(i) ==> find_from(hay@, needle@, 0) == Some(i as int),
        r is None ==> find_from(hay@, needle@, 0) is None,
{
    if needle.len() > hay.len() {
        return None;
    }
    let last = hay.len() - needle.len();
    let mut i: usize = 0;
    let n = needle.len();
    loop
        invariant
            n == needle@.len(),
            last + n == hay@.len(),
            hay@.len() <= usize::MAX,
            i <= last,
            find_from(hay@, needle@, i as int) == find_from(hay@, needle@, 0),
        decreases last - i,
    {
        let piece = slice_of(hay, i, i + n);
        if chars_eq(&piece, needle) {
            return Some(i);
        }
        if i == last {
            return None;
        }
        i += 1;
    }
}

/// The error for reading the undeclared `name` at `span`.
fn undefined_error_exec(
    name: &String,
    span: SourceSpan,
    lines: &Vec<Vec<char>>,
    file: &String,
) -> (r: SemanticError)
    ensures
        r@ == undefined_error(name@, span, views(lines@), file@),
{
    let line = span.start.line;
    let text = line_at_exec(lines, line);
    let name_chars = chars_of(name.as_str());
    match find_chars(&text, &name_chars) {
        Some(idx) => {
            let col = idx.saturating_add(1);
            let end = col.saturating_add(name_chars.len());
            assert(end == sat_add(idx + 1, name@.len() as int));
            let caret = caret_chars(SourceSpan::single_line(line, col, end));
            SemanticError {
                kind: SemanticErrorKind::UndefinedVariable,
                name: name.clone(),
                file: file.clone(),
                line,
                col,
                line_text: string_of(&text),
                caret: string_of(&caret),
            }
        },
        None => name_error_exec(SemanticErrorKind::UndefinedVariable, name, span, lines, file),
    }
}

fn name_error_exec(
    kind: SemanticErrorKind,
    name: &String,
    span: SourceSpan,
    lines: &Vec<Vec<char>>,
    file: &String,
) -> (r: SemanticError)
    ensures
        r@ == name_error(kind, name@, span, views(lines@), file@),
{
    let text = line_at_exec(lines, span.start.line);
    let caret = caret_chars(span);
    SemanticError {
        kind,
        name: name.clone(),
        file: file.clone(),
        line: span.start.line,
        col: span.start.col,
        line_text: string_of(&text),
        caret: string_of(&caret),
    }
}

/// Whether `name` is among `names`.
pub(crate) fn contains_name(names: &Vec<String>, name: &String) -> (r: bool)
    ensures
        r == names@.map_values(|s: String| s@).contains(name@),
{
    let ghost ns = names@.map_values(|s: String| s@);
    let mut i: usize = 0;
    while i < names.len()
        invariant
            i <= names@.len(),
            ns == names@.map_values(|s: String| s@),
            forall|j: int| 0 <= j < i ==> #[trigger] ns[j] != name@,
        decreases names@.len() - i,
    {
        if names[i] == *name {
            assert(ns[i as int] == name@);
            return true;
        }
        i += 1;
    }
    false
}

/// Appends to `errors` an error for each identifier of `expr` that is not in
/// `declared`, from left to right.
pub fn collect_undefined_idents(
    expr: &Expr,
    declared: &Vec<String>,
    lines: &Vec<Vec<char>>,
    file: &String,
    errors: &mut Vec<SemanticError>,
)
    ensures
        errors_view(final(errors)@) == errors_view(old(errors)@) + undefined_errors(
            expr@,
            declared@.map_values(|s: String| s@).to_set(),
            views(lines@),
            file@,
        ),
    decreases expr,
{
    let ghost ds = declared@.map_values(|s: String| s@).to_set();
    match expr {
        Expr::Ident(name, span) => {
            if !contains_name(declared, name) {
                let e = undefined_error_exec(name, *span, lines, file);
                errors.push(e);
                assert(errors_view(errors@) =~= errors_view(old(errors)@) + undefined_errors(
                    expr@,
                    ds,
                    views(lines@),
                    file@,
                ));
            } else {
                assert(errors_view(errors@) =~= errors_view(old(errors)@) + undefined_errors(
                    expr@,
                    ds,
                    views(lines@),
                    file@,
                ));
            }
        },
        Expr::BinaryAdd(a, b, _) => {
            collect_undefined_idents(a, declared, lines, file, errors);
            collect_undefined_idents(b, declared, lines, file, errors);
            assert(errors_view(errors@) =~= errors_view(old(errors)@) + undefined_errors(
                expr@,
                ds,
                views(lines@),
                file@,
            ));
        },
        _ => {
            assert(errors_view(errors@) =~= errors_view(old(errors)@) + undefined_errors(
                expr@,
                ds,
                views(lines@),
                file@,
            ));
        },
    }
}


/// The names of a sequence of strings, as a set.
pub open spec fn name_set(s: Seq<String>) -> Set<Seq<char>> {
    s.map_values(|x: String| x@).to_set()
}

pub(crate) proof fn lemma_name_set_push(s: Seq<String>, x: Seq<char>, t: Seq<String>)
    requires
        t.len() == s.len() + 1,
        forall|k: int| 0 <= k < s.len() ==> #[trigger] t[k] == s[k],
        t[s.len() as int]@ == x,
    ensures
        name_set(t) == name_set(s).insert(x),
{
    let ms = s.map_values(|y: String| y@);
    let mt = t.map_values(|y: String| y@);
    assert forall|a: Seq<char>| mt.contains(a) <==> (ms.contains(a) || a == x) by {
        if mt.contains(a) {
            let k = choose|k: int| 0 <= k < mt.len() && mt[k] == a;
            if k < s.len() {
                assert(ms[k] == a);
            }
        }
        if ms.contains(a) {
            let k = choose|k: int| 0 <= k < ms.len() && ms[k] == a;
            assert(mt[k] == a);
        }
        if a == x {
            assert(mt[s.len() as int] == a);
        }
    };
    assert(name_set(t) =~= name_set(s).insert(x));
}

/// Checks the declaration and mutability rules of `program` and builds its
/// symbol table; `file` is the name of the source file and `source` its text,
/// shown in the errors. Either every error is returned, or the table.
pub fn check_semantics(program: &Program, file: &str, source: &str) -> (r: Result<
    SemanticInfo,
    Vec<SemanticError>,
>)
    ensures
        r matches Ok(info) ==> info.wf() && info@ == table_spec(program@) && semantic_errors(
            program@,
            source@,
            file@,
        ).len() == 0,
        r matches Err(es) ==> errors_view(es@) == semantic_errors(program@, source@, file@)
            && es@.len() > 0,
{
    let src = chars_of(source);
    let lines = split_lines(&src);
    let ghost ls = views(lines@);
    let file_s = <String as vstd::string::StringExecFns>::from_str(file);
    let stmts = &program.statements;
    let ghost sm = program@;
    let n = stmts.len();
    let mut vars: Vec<(String, Mutability)> = Vec::new();
    let mut errors: Vec<SemanticError> = Vec::new();
    let mut i: usize = 0;
    assert(entries_map(vars@) =~= Map::empty());
    assert(errors_view(errors@) =~= Seq::empty());
    while i < n
        invariant
            n == stmts@.len() == sm.len(),
            sm == crate::ast::stmts_view(stmts@),
            i <= n,
            ls == views(lines@),
            unique_names(vars@),
            entries_map(vars@) == table_prefix(sm, i as nat),
            errors_view(errors@) == declaration_errors(sm, i as nat, ls, file_s@),
        decreases n - i,
    {
        assert(sm[i as int] == stmts@[i as int]@);
        let ghost before = errors_view(errors@);
        match &stmts[i] {
            Stmt::Print { .. } => {},
            Stmt::Assign { name, decl_mut, name_span, .. } => {
                match lookup(&vars, name) {
                    None => {
                        let m = if *decl_mut {
                            Mutability::Mutable
                        } else {
                            Mutability::Immutable
                        };
                        let ghost old_vars = vars@;
                        let entry = (name.clone(), m);
                        proof {
                            lemma_entries_push(old_vars, entry);
                        }
                        vars.push(entry);
                    },
                    Some(m) => {
                        if *decl_mut {
                            let e = name_error_exec(
                                SemanticErrorKind::DuplicateDeclaration,
                                name,
                                *name_span,
                                &lines,
                                &file_s,
                            );
                            errors.push(e);
                            assert(errors_view(errors@) =~= before.push(e@));
                        } else if m == Mutability::Immutable {
                            let e = name_error_exec(
                                SemanticErrorKind::AssignImmutable,
                                name,
                                *name_span,
                                &lines,
                                &file_s,
                            );
                            errors.push(e);
                            assert(errors_view(errors@) =~= before.push(e@));
                        }
                    },
                }
            },
        }
        i += 1;
    }
    let ghost decl_errs = errors_view(errors@);
    let mut declared: Vec<String> = Vec::new();
    let mut i: usize = 0;
    assert(name_set(declared@) =~= Set::empty());
    assert(decl_errs + use_errors(sm, 0, ls, file_s@) =~= decl_errs);
    while i < n
        invariant
            n == stmts@.len() == sm.len(),
            sm == crate::ast::stmts_view(stmts@),
            i <= n,
            ls == views(lines@),
            name_set(declared@) == declared_prefix(sm, i as nat),
            errors_view(errors@) == decl_errs + use_errors(sm, i as nat, ls, file_s@),
        decreases n - i,
    {
        assert(sm[i as int] == stmts@[i as int]@);
        let ghost before = errors_view(errors@);
        match &stmts[i] {
            Stmt::Print { .. } => {},
            Stmt::Assign { name, expr, .. } => {
                collect_undefined_idents(expr, &declared, &lines, &file_s, &mut errors);
                assert(errors_view(errors@) =~= decl_errs + use_errors(
                    sm,
                    (i + 1) as nat,
                    ls,
                    file_s@,
                ));
                let ghost old_d = declared@;
                if !contains_name(&declared, name) {
                    declared.push(name.clone());
                    proof {
                        lemma_name_set_push(old_d, name@, declared@);
                    }
                } else {
                    assert(name_set(declared@) =~= name_set(old_d).insert(name@));
                }
            },
        }
        i += 1;
    }
    if errors.len() > 0 {
        Err(errors)
    } else {
        assert(errors_view(errors@).len() == 0);
        Ok(SemanticInfo { vars })
    }
}


/// Whether the identifier `name` at `span` occurs in `e`.
pub open spec fn reads_ident(e: ExprM, name: Seq<char>, span: SourceSpan) -> bool
    decreases e,
{
    match e {
        ExprM::Ident(n, sp) => n == name && sp == span,
        ExprM::BinaryAdd(a, b, _) => reads_ident(*a, name, span) || reads_ident(*b, name, span),
        _ => false,
    }
}

/// Whether statement `j` assigns `name`.
pub open spec fn assigns(stmts: Seq<StmtM>, j: int, name: Seq<char>) -> bool {
    stmts[j] matches StmtM::Assign { name: n, .. } && n == name
}

proof fn lemma_undefined_in_expr(
    e: ExprM,
    declared: Set<Seq<char>>,
    lines: Seq<Seq<char>>,
    file: Seq<char>,
    name: Seq<char>,
    span: SourceSpan,
)
    requires
        reads_ident(e, name, span),
        !declared.contains(name),
    ensures
        undefined_errors(e, declared, lines, file).contains(undefined_error(name, span, lines, file)),
    decreases e,
{
    match e {
        ExprM::Ident(n, sp) => {
            assert(undefined_errors(e, declared, lines, file)[0] == undefined_error(
                name,
                span,
                lines,
                file,
            ));
        },
        ExprM::BinaryAdd(a, b, _) => {
            let ea = undefined_errors(*a, declared, lines, file);
            let eb = undefined_errors(*b, declared, lines, file);
            let x = undefined_error(name, span, lines, file);
            if reads_ident(*a, name, span) {
                lemma_undefined_in_expr(*a, declared, lines, file, name, span);
                let k = choose|k: int| 0 <= k < ea.len() && ea[k] == x;
                assert((ea + eb)[k] == x);
            } else {
                lemma_undefined_in_expr(*b, declared, lines, file, name, span);
                let k = choose|k: int| 0 <= k < eb.len() && eb[k] == x;
                assert((ea + eb)[ea.len() + k] == x);
            }
        },
        _ => {},
    }
}

proof fn lemma_use_errors_grow(
    stmts: Seq<StmtM>,
    m: nat,
    n: nat,
    lines: Seq<Seq<char>>,
    file: Seq<char>,
    x: SemanticErrorM,
)
    requires
        m <= n <= stmts.len(),
        use_errors(stmts, m, lines, file).contains(x),
    ensures
        use_errors(stmts, n, lines, file).contains(x),
    decreases n,
{
    if m < n {
        lemma_use_errors_grow(stmts, m, (n - 1) as nat, lines, file, x);
        let prev = use_errors(stmts, (n - 1) as nat, lines, file);
        let k = choose|k: int| 0 <= k < prev.len() && prev[k] == x;
        match stmts[n - 1] {
            StmtM::Print { .. } => {},
            StmtM::Assign { expr, .. } => {
                let more = undefined_errors(
                    expr,
                    declared_prefix(stmts, (n - 1) as nat),
                    lines,
                    file,
                );
                assert((prev + more)[k] == x);
            },
        }
    }
}

proof fn lemma_declared_prefix(stmts: Seq<StmtM>, n: nat, name: Seq<char>)
    requires
        n <= stmts.len(),
    ensures
        declared_prefix(stmts, n).contains(name) <==> exists|j: int|
            0 <= j < n && #[trigger] assigns(stmts, j, name),
    decreases n,
{
    if n > 0 {
        lemma_declared_prefix(stmts, (n - 1) as nat, name);
        if declared_prefix(stmts, n).contains(name) && !declared_prefix(
            stmts,
            (n - 1) as nat,
        ).contains(name) {
            assert(assigns(stmts, n - 1, name));
        }
    }
}

/// A name read before any statement assigns it gives an error of kind
/// undefined variable that names it, on the line of the read, so analysis
/// fails.
pub proof fn lemma_use_before_declaration(
    stmts: Seq<StmtM>,
    source: Seq<char>,
    file: Seq<char>,
    i: int,
    name: Seq<char>,
    span: SourceSpan,
)
    requires
        0 <= i < stmts.len(),
        stmts[i] matches StmtM::Assign { expr, .. } && reads_ident(expr, name, span),
        forall|j: int| 0 <= j < i ==> !#[trigger] assigns(stmts, j, name),
    ensures
        semantic_errors(stmts, source, file).contains(
            undefined_error(name, span, lines_of(source), file),
        ),
        undefined_error(name, span, lines_of(source), file).kind
            == SemanticErrorKind::UndefinedVariable,
        undefined_error(name, span, lines_of(source), file).name == name,
        undefined_error(name, span, lines_of(source), file).line == span.start.line,
        semantic_errors(stmts, source, file).len() > 0,
{
    let lines = lines_of(source);
    let x = undefined_error(name, span, lines, file);
    lemma_declared_prefix(stmts, i as nat, name);
    let d = declared_prefix(stmts, i as nat);
    if let StmtM::Assign { expr, .. } = stmts[i] {
        lemma_undefined_in_expr(expr, d, lines, file, name, span);
        let prev = use_errors(stmts, i as nat, lines, file);
        let more = undefined_errors(expr, d, lines, file);
        let k = choose|k: int| 0 <= k < more.len() && more[k] == x;
        assert(use_errors(stmts, (i + 1) as nat, lines, file) == prev + more);
        assert((prev + more)[prev.len() + k] == x);
    }
    lemma_use_errors_grow(stmts, (i + 1) as nat, stmts.len(), lines, file, x);
    let de = declaration_errors(stmts, stmts.len(), lines, file);
    let ue = use_errors(stmts, stmts.len(), lines, file);
    let k = choose|k: int| 0 <= k < ue.len() && ue[k] == x;
    assert((de + ue)[de.len() + k] == x);
}

proof fn lemma_table_keys(stmts: Seq<StmtM>, n: nat, name: Seq<char>)
    requires
        n <= stmts.len(),
    ensures
        table_prefix(stmts, n).contains_key(name) <==> exists|j: int|
            0 <= j < n && #[trigger] assigns(stmts, j, name),
    decreases n,
{
    if n > 0 {
        lemma_table_keys(stmts, (n - 1) as nat, name);
        if table_prefix(stmts, n).contains_key(name) && !table_prefix(
            stmts,
            (n - 1) as nat,
        ).contains_key(name) {
            assert(assigns(stmts, n - 1, name));
        }
    }
}

proof fn lemma_declaration_errors_grow(
    stmts: Seq<StmtM>,
    m: nat,
    n: nat,
    lines: Seq<Seq<char>>,
    file: Seq<char>,
    x: SemanticErrorM,
)
    requires
        m <= n <= stmts.len(),
        declaration_errors(stmts, m, lines, file).contains(x),
    ensures
        declaration_errors(stmts, n, lines, file).contains(x),
    decreases n,
{
    if m < n {
        lemma_declaration_errors_grow(stmts, m, (n - 1) as nat, lines, file, x);
        let prev = declaration_errors(stmts, (n - 1) as nat, lines, file);
        let k = choose|k: int| 0 <= k < prev.len() && prev[k] == x;
        let cur = declaration_errors(stmts, n, lines, file);
        assert(cur == prev || cur == prev.push(cur.last()));
        assert(cur[k] == x);
    }
}

/// A second declaration of a name with the `$` marker gives a duplicate
/// declaration error at that name, so analysis fails.
pub proof fn lemma_duplicate_declaration(
    stmts: Seq<StmtM>,
    source: Seq<char>,
    file: Seq<char>,
    i: int,
    j: int,
)
    requires
        0 <= j < i < stmts.len(),
        stmts[i] matches StmtM::Assign { decl_mut, .. } && decl_mut,
        assigns(stmts, j, stmts[i]->Assign_name),
    ensures
        semantic_errors(stmts, source, file).contains(
            name_error(
                SemanticErrorKind::DuplicateDeclaration,
                stmts[i]->Assign_name,
                stmts[i]->Assign_name_span,
                lines_of(source),
                file,
            ),
        ),
        semantic_errors(stmts, source, file).len() > 0,
{
    let lines = lines_of(source);
    let name = stmts[i]->Assign_name;
    let x = name_error(
        SemanticErrorKind::DuplicateDeclaration,
        name,
        stmts[i]->Assign_name_span,
        lines,
        file,
    );
    lemma_table_keys(stmts, i as nat, name);
    let prev = declaration_errors(stmts, i as nat, lines, file);
    assert(declaration_errors(stmts, (i + 1) as nat, lines, file) == prev.push(x));
    assert(prev.push(x)[prev.len() as int] == x);
    lemma_declaration_errors_grow(stmts, (i + 1) as nat, stmts.len(), lines, file, x);
    let de = declaration_errors(stmts, stmts.len(), lines, file);
    let ue = use_errors(stmts, stmts.len(), lines, file);
    let k = choose|k: int| 0 <= k < de.len() && de[k] == x;
    assert((de + ue)[k] == x);
}

/// The table gives each name the mutability of its first assignment: no later
/// assignment, with or without the marker, overwrites it.
pub proof fn lemma_first_declaration_wins(stmts: Seq<StmtM>, j: int)
    requires
        0 <= j < stmts.len(),
        stmts[j] is Assign,
        forall|k: int| 0 <= k < j ==> !#[trigger] assigns(stmts, k, stmts[j]->Assign_name),
    ensures
        table_spec(stmts).contains_key(stmts[j]->Assign_name),
        table_spec(stmts)[stmts[j]->Assign_name] == (if stmts[j]->Assign_decl_mut {
            Mutability::Mutable
        } else {
            Mutability::Immutable
        }),
{
    lemma_table_keys(stmts, j as nat, stmts[j]->Assign_name);
    lemma_table_keeps(stmts, (j + 1) as nat, stmts.len(), stmts[j]->Assign_name);
}

proof fn lemma_table_keeps(stmts: Seq<StmtM>, m: nat, n: nat, name: Seq<char>)
    requires
        m <= n <= stmts.len(),
        table_prefix(stmts, m).contains_key(name),
    ensures
        table_prefix(stmts, n).contains_key(name),
        table_prefix(stmts, n)[name] == table_prefix(stmts, m)[name],
    decreases n,
{
    if m < n {
        lemma_table_keeps(stmts, m, (n - 1) as nat, name);
    }
}


/// The headline of an error of kind `kind` about `name`.
pub open spec fn summary_spec(kind: SemanticErrorKind, name: Seq<char>) -> Seq<char> {
    match kind {
        SemanticErrorKind::AssignImmutable => "你试图修改不可变变量 `"@ + name + "`"@,
        SemanticErrorKind::DuplicateDeclaration => "变量 `"@ + name + "` 已在之前声明，不能重复声明"@,
        SemanticErrorKind::UndefinedVariable => "使用了未定义的变量 `"@ + name + "`"@,
    }
}

/// The suggestions shown under an error of kind `kind` about `name`.
pub open spec fn suggestions_spec(kind: SemanticErrorKind, name: Seq<char>) -> Seq<char> {
    match kind {
        SemanticErrorKind::AssignImmutable => "   - 如果你想让它可变，请在首次赋值时加 `$`：\n        $"@
            + name + " = 0   ← 这样声明\n        "@ + name + " = "@ + name
            + " + 1   ← 这样修改\n   - 或者，你是否想创建一个新变量？\n        new_"@ + name + " = "@
            + name + " + 1"@,
        SemanticErrorKind::DuplicateDeclaration => "   - 如需重新赋值，请直接写：\n        "@ + name
            + " = ...\n   - 如需新变量，请改用不同的名称：\n        "@ + name + "_2 = ..."@,
        SemanticErrorKind::UndefinedVariable => "   - 请先声明变量：\n        "@ + name
            + " = ...    // 不可变\n        $"@ + name + " = ...   // 可变"@,
    }
}

impl SemanticError {
    /// The headline of this error.
    pub fn summary(&self) -> (r: String)
        ensures
            r@ == summary_spec(self.kind, self.name@),
    {
        let name = chars_of(self.name.as_str());
        let mut out: Vec<char> = Vec::new();
        match self.kind {
            SemanticErrorKind::AssignImmutable => {
                append_str(&mut out, "你试图修改不可变变量 `");
                append_chars(&mut out, &name);
                append_str(&mut out, "`");
            },
            SemanticErrorKind::DuplicateDeclaration => {
                append_str(&mut out, "变量 `");
                append_chars(&mut out, &name);
                append_str(&mut out, "` 已在之前声明，不能重复声明");
            },
            SemanticErrorKind::UndefinedVariable => {
                append_str(&mut out, "使用了未定义的变量 `");
                append_chars(&mut out, &name);
                append_str(&mut out, "`");
            },
        }
        assert(out@ =~= summary_spec(self.kind, self.name@));
        string_of(&out)
    }

    /// The suggestions shown under this error.
    pub fn suggestions(&self) -> (r: String)
        ensures
            r@ == suggestions_spec(self.kind, self.name@),
    {
        let name = chars_of(self.name.as_str());
        let mut out: Vec<char> = Vec::new();
        match self.kind {
            SemanticErrorKind::AssignImmutable => {
                append_str(&mut out, "   - 如果你想让它可变，请在首次赋值时加 `$`：\n        $");
                append_chars(&mut out, &name);
                append_str(&mut out, " = 0   ← 这样声明\n        ");
                append_chars(&mut out, &name);
                append_str(&mut out, " = ");
                append_chars(&mut out, &name);
                append_str(&mut out, " + 1   ← 这样修改\n   - 或者，你是否想创建一个新变量？\n        new_");
                append_chars(&mut out, &name);
                append_str(&mut out, " = ");
                append_chars(&mut out, &name);
                append_str(&mut out, " + 1");
            },
            SemanticErrorKind::DuplicateDeclaration => {
                append_str(&mut out, "   - 如需重新赋值，请直接写：\n        ");
                append_chars(&mut out, &name);
                append_str(&mut out, " = ...\n   - 如需新变量，请改用不同的名称：\n        ");
                append_chars(&mut out, &name);
                append_str(&mut out, "_2 = ...");
            },
            SemanticErrorKind::UndefinedVariable => {
                append_str(&mut out, "   - 请先声明变量：\n        ");
                append_chars(&mut out, &name);
                append_str(&mut out, " = ...    // 不可变\n        $");
                append_chars(&mut out, &name);
                append_str(&mut out, " = ...   // 可变");
            },
        }
        assert(out@ =~= suggestions_spec(self.kind, self.name@));
        string_of(&out)
    }

    /// The diagnostic block of this error, coloured when `color` is on.
    pub fn render(&self, color: bool) -> (r: String)
        ensures
            r@ == render_spec(
                summary_spec(self.kind, self.name@),
                self.file@,
                self.line,
                self.col,
                self.line_text@,
                self.caret@,
                suggestions_spec(self.kind, self.name@),
                color,
            ),
    {
        let summary = self.summary();
        let suggestions = self.suggestions();
        render_error(
            summary.as_str(),
            self.file.as_str(),
            self.line,
            self.col,
            self.line_text.as_str(),
            self.caret.as_str(),
            suggestions.as_str(),
            color,
        )
    }
}

/// The diagnostic block for an error of kind `kind` about `name` at `span`,
/// in the source text `source` of the file `file`.
pub open spec fn name_diagnostic(
    kind: SemanticErrorKind,
    file: Seq<char>,
    source: Seq<char>,
    name: Seq<char>,
    span: SourceSpan,
    color: bool,
) -> Seq<char> {
    let e = name_error(kind, name, span, lines_of(source), file);
    render_spec(
        summary_spec(kind, name),
        file,
        e.line,
        e.col,
        e.line_text,
        e.caret,
        suggestions_spec(kind, name),
        color,
    )
}

/// The diagnostic block for a second assignment to the immutable `name`.
pub fn friendly_error_assign_immutable(
    file: &str,
    source: &str,
    name: &String,
    name_span: SourceSpan,
    color: bool,
) -> (r: String)
    ensures
        r@ == name_diagnostic(
            SemanticErrorKind::AssignImmutable,
            file@,
            source@,
            name@,
            name_span,
            color,
        ),
{
    let lines = split_lines(&chars_of(source));
    let file_s = <String as vstd::string::StringExecFns>::from_str(file);
    let e = name_error_exec(SemanticErrorKind::AssignImmutable, name, name_span, &lines, &file_s);
    e.render(color)
}

/// The diagnostic block for a second declaration of `name`.
pub fn friendly_error_redeclare(
    file: &str,
    source: &str,
    name: &String,
    name_span: SourceSpan,
    color: bool,
) -> (r: String)
    ensures
        r@ == name_diagnostic(
            SemanticErrorKind::DuplicateDeclaration,
            file@,
            source@,
            name@,
            name_span,
            color,
        ),
{
    let lines = split_lines(&chars_of(source));
    let file_s = <String as vstd::string::StringExecFns>::from_str(file);
    let e = name_error_exec(
        SemanticErrorKind::DuplicateDeclaration,
        name,
        name_span,
        &lines,
        &file_s,
    );
    e.render(color)
}

/// The diagnostic blocks of `es`, separated by line feeds.
pub open spec fn render_all_spec(es: Seq<SemanticErrorM>, color: bool) -> Seq<char>
    decreases es.len(),
{
    if es.len() == 0 {
        Seq::empty()
    } else {
        let e = es.last();
        let block = render_spec(
            summary_spec(e.kind, e.name),
            e.file,
            e.line,
            e.col,
            e.line_text,
            e.caret,
            suggestions_spec(e.kind, e.name),
            color,
        );
        if es.len() == 1 {
            block
        } else {
            render_all_spec(es.subrange(0, es.len() - 1), color) + "\n"@ + block
        }
    }
}

/// The diagnostic blocks of all `errors`, separated by line feeds.
pub fn render_errors(errors: &Vec<SemanticError>, color: bool) -> (r: String)
    ensures
        r@ == render_all_spec(errors_view(errors@), color),
{
    let ghost ev = errors_view(errors@);
    let mut out: Vec<char> = Vec::new();
    let mut i: usize = 0;
    assert(out@ =~= render_all_spec(ev.subrange(0, 0), color));
    while i < errors.len()
        invariant
            i <= errors@.len(),
            ev == errors_view(errors@),
            out@ == render_all_spec(ev.subrange(0, i as int), color),
        decreases errors@.len() - i,
    {
        if i > 0 {
            append_str(&mut out, "\n");
        }
        let block = errors[i].render(color);
        let bv = chars_of(block.as_str());
        append_chars(&mut out, &bv);
        assert(ev.subrange(0, i + 1).subrange(0, i as int) =~= ev.subrange(0, i as int));
        assert(ev.subrange(0, i + 1).last() == errors@[i as int]@);
        i += 1;
        assert(out@ =~= render_all_spec(ev.subrange(0, i as int), color));
    }
    assert(ev.subrange(0, errors@.len() as int) =~= ev);
    string_of(&out)
}

} // verus!
