use vstd::prelude::*;

use crate::ast::{Expr, ExprM, Program, Stmt, StmtM};
use crate::semantics::{
    contains_name, declared_prefix, entries_map, lemma_name_set_push, name_set, table_prefix,
    table_spec, unique_names, Mutability, SemanticInfo,
};
use crate::text::{append_chars, append_str, chars_of, int_text, push_int, string_of};

verus! {

/// How an assignment is written in the generated code.
#[derive(Debug, Clone, Copy, PartialEq, Eq, Structural)]
pub enum Binding {
    /// A new shared mutable cell holding the value.
    CellInit,
    /// A plain, immutable binding.
    Let,
    /// A new value stored into the existing cell.
    CellSet,
    /// A plain binding again, marked by a comment: a second assignment to an
    /// immutable variable, which analysis rejects.
    Rebind,
}

/// The binding for an assignment, from whether the name is written for the
/// first time, its mutability in the table, and whether this assignment
/// carries the `$` marker.
pub open spec fn binding_spec(first: bool, m: Mutability, decl_mut: bool) -> Binding {
    if first {
        if m == Mutability::Mutable && decl_mut {
            Binding::CellInit
        } else {
            Binding::Let
        }
    } else if m == Mutability::Mutable {
        Binding::CellSet
    } else {
        Binding::Rebind
    }
}

/// The mutability of `name` in `vars`; immutable when it is not there.
pub open spec fn mutability_of(vars: Map<Seq<char>, Mutability>, name: Seq<char>) -> Mutability {
    if vars.contains_key(name) {
        vars[name]
    } else {
        Mutability::Immutable
    }
}

/// The binding chosen for statement `i`, an assignment.
pub open spec fn binding_at(stmts: Seq<StmtM>, vars: Map<Seq<char>, Mutability>, i: int) -> Binding {
    match stmts[i] {
        StmtM::Assign { name, decl_mut, .. } => binding_spec(
            !declared_prefix(stmts, i as nat).contains(name),
            mutability_of(vars, name),
            decl_mut,
        ),
        _ => Binding::Let,
    }
}

/// The character `c` as it stands inside a string literal of the target.
pub open spec fn escape_char(c: char) -> Seq<char> {
    if c == '\\' {
        seq!['\\', '\\']
    } else if c == '"' {
        seq!['\\', '"']
    } else {
        seq![c]
    }
}

/// `s` with each backslash and double quote escaped by a backslash.
pub open spec fn escape_spec(s: Seq<char>) -> Seq<char>
    decreases s.len(),
{
    if s.len() == 0 {
        Seq::empty()
    } else {
        escape_spec(s.subrange(0, s.len() - 1)) + escape_char(s.last())
    }
}

/// The target code of the expression `e`.
pub open spec fn expr_code(e: ExprM, vars: Map<Seq<char>, Mutability>) -> Seq<char>
    decreases e,
{
    match e {
        ExprM::StringLit(s, _) => "\""@ + escape_spec(s) + "\""@,
        ExprM::IntLit(v, _) => int_text(v as int),
        ExprM::Ident(name, _) => if mutability_of(vars, name) == Mutability::Mutable {
            "*"@ + name + ".borrow()"@
        } else {
            name
        },
        ExprM::BinaryAdd(a, b, _) => "("@ + expr_code(*a, vars) + " + "@ + expr_code(*b, vars)
            + ")"@,
    }
}

/// The target code of the assignment `name = code` with binding `b`.
pub open spec fn binding_code(b: Binding, name: Seq<char>, code: Seq<char>) -> Seq<char> {
    match b {
        Binding::CellInit => "    let "@ + name + " = Rc::new(RefCell::new("@ + code + "));\n"@,
        Binding::Let => "    let "@ + name + " = "@ + code + ";\n"@,
        Binding::CellSet => "    *"@ + name + ".borrow_mut() = "@ + code + ";\n"@,
        Binding::Rebind => "    let "@ + name + " = "@ + code
            + "; // (note) immutable redeclaration fallback\n"@,
    }
}

/// The target code of statement `i`.
pub open spec fn stmt_code(stmts: Seq<StmtM>, vars: Map<Seq<char>, Mutability>, i: int) -> Seq<
    char,
> {
    match stmts[i] {
        StmtM::Print { content, .. } => "    println!(\""@ + escape_spec(content) + "\");\n"@,
        StmtM::Assign { name, expr, .. } => binding_code(
            binding_at(stmts, vars, i),
            name,
            expr_code(expr, vars),
        ),
    }
}

/// The target code of the first `n` statements.
pub open spec fn body_code(stmts: Seq<StmtM>, vars: Map<Seq<char>, Mutability>, n: nat) -> Seq<
    char,
>
    decreases n,
{
    if n == 0 || n > stmts.len() {
        Seq::empty()
    } else {
        body_code(stmts, vars, (n - 1) as nat) + stmt_code(stmts, vars, n - 1)
    }
}

/// Whether some variable of `vars` is mutable.
pub open spec fn needs_cells(vars: Map<Seq<char>, Mutability>) -> bool {
    exists|k: Seq<char>| vars.contains_key(k) && #[trigger] vars[k] == Mutability::Mutable
}

/// The imports that cells need.
pub open spec fn cell_imports() -> Seq<char> {
    "use std::rc::Rc;\n"@ + "use std::cell::RefCell;\n\n"@
}

/// The whole generated program.
pub open spec fn program_code(stmts: Seq<StmtM>, vars: Map<Seq<char>, Mutability>) -> Seq<char> {
    (if needs_cells(vars) {
        cell_imports()
    } else {
        Seq::empty()
    }) + "fn main() {\n"@ + body_code(stmts, vars, stmts.len()) + "}\n"@
}

/// Appends `s` to `out` with backslashes and double quotes escaped.
fn push_escaped(out: &mut Vec<char>, s: &String)
    ensures
        final(out)@ == old(out)@ + escape_spec(s@),
{
    let v = chars_of(s.as_str());
    let mut i: usize = 0;
    while i < v.len()
        invariant
            i <= v@.len(),
            v@ == s@,
            out@ == old(out)@ + escape_spec(v@.subrange(0, i as int)),
        decreases v@.len() - i,
    {
        let c = v[i];
        assert(v@.subrange(0, i + 1).subrange(0, i as int) =~= v@.subrange(0, i as int));
        if c == '\\' {
            out.push('\\');
            out.push('\\');
        } else if c == '"' {
            out.push('\\');
            out.push('"');
        } else {
            out.push(c);
        }
        i += 1;
        assert(out@ =~= old(out)@ + escape_spec(v@.subrange(0, i as int)));
    }
    assert(v@.subrange(0, v@.len() as int) =~= v@);
}

/// `s` with each backslash and double quote escaped by a backslash.
pub fn escape(s: &String) -> (r: String)
    ensures
        r@ == escape_spec(s@),
{
    let mut out: Vec<char> = Vec::new();
    push_escaped(&mut out, s);
    assert(out@ =~= escape_spec(s@));
    string_of(&out)
}

fn mutability_exec(info: &SemanticInfo, name: &String) -> (r: Mutability)
    requires
        info.wf(),
    ensures
        r == mutability_of(info@, name@),
{
    match info.get(name.as_str()) {
        Some(m) => m,
        None => Mutability::Immutable,
    }
}

fn push_expr(out: &mut Vec<char>, expr: &Expr, info: &SemanticInfo)
    requires
        info.wf(),
    ensures
        final(out)@ == old(out)@ + expr_code(expr@, info@),
    decreases expr,
{
    match expr {
        Expr::StringLit(s, _) => {
            append_str(out, "\"");
            push_escaped(out, s);
            append_str(out, "\"");
        },
        Expr::IntLit(v, _) => {
            push_int(out, *v);
        },
        Expr::Ident(name, _) => {
            let name_v = chars_of(name.as_str());
            if mutability_exec(info, name) == Mutability::Mutable {
                append_str(out, "*");
                append_chars(out, &name_v);
                append_str(out, ".borrow()");
            } else {
                append_chars(out, &name_v);
            }
        },
        Expr::BinaryAdd(a, b, _) => {
            append_str(out, "(");
            push_expr(out, a, info);
            append_str(out, " + ");
            push_expr(out, b, info);
            append_str(out, ")");
        },
    }
    assert(out@ =~= old(out)@ + expr_code(expr@, info@));
}

/// The target code of `expr`, reading mutable variables through their cells.
pub fn gen_expr(expr: &Expr, info: &SemanticInfo) -> (r: String)
    requires
        info.wf(),
    ensures
        r@ == expr_code(expr@, info@),
{
    let mut out: Vec<char> = Vec::new();
    push_expr(&mut out, expr, info);
    assert(out@ =~= expr_code(expr@, info@));
    string_of(&out)
}


proof fn lemma_entry_value(s: Seq<(String, Mutability)>, i: int)
    requires
        unique_names(s),
        0 <= i < s.len(),
    ensures
        entries_map(s).contains_key(s[i].0@),
        entries_map(s)[s[i].0@] == s[i].1,
{
    assert(entries_map(s).contains_key(s[i].0@));
    let c = choose|j: int| 0 <= j < s.len() && #[trigger] s[j].0@ == s[i].0@;
    assert(c == i);
}

/// Whether some variable of the table is mutable.
fn any_mutable(info: &SemanticInfo) -> (r: bool)
    requires
        info.wf(),
    ensures
        r == needs_cells(info@),
{
    let vars = &info.vars;
    let mut i: usize = 0;
    while i < vars.len()
        invariant
            i <= vars@.len(),
            vars@ == info.vars@,
            unique_names(vars@),
            forall|j: int| 0 <= j < i ==> #[trigger] vars@[j].1 != Mutability::Mutable,
        decreases vars@.len() - i,
    {
        if vars[i].1 == Mutability::Mutable {
            proof {
                lemma_entry_value(vars@, i as int);
                let k = vars@[i as int].0@;
                assert(info@.contains_key(k) && info@[k] == Mutability::Mutable);
            }
            return true;
        }
        i += 1;
    }
    assert forall|k: Seq<char>| #[trigger] entries_map(vars@).contains_key(k) implies entries_map(
        vars@,
    )[k] != Mutability::Mutable by {
        let c = choose|j: int| 0 <= j < vars@.len() && #[trigger] vars@[j].0@ == k;
        lemma_entry_value(vars@, c);
    };
    false
}

/// Lowers `program` to the source of a target program whose `main` runs its
/// statements in order: prints become `println!` calls, immutable variables
/// plain bindings, mutable ones shared cells (`Rc<RefCell<_>>`).
pub fn generate_rust(program: &Program, semantic: &SemanticInfo) -> (r: String)
    requires
        semantic.wf(),
    ensures
        r@ == program_code(program@, semantic@),
{
    let mut out: Vec<char> = Vec::new();
    if any_mutable(semantic) {
        append_str(&mut out, "use std::rc::Rc;\n");
        append_str(&mut out, "use std::cell::RefCell;\n\n");
    }
    append_str(&mut out, "fn main() {\n");
    let ghost head = out@;
    let stmts = &program.statements;
    let ghost sm = program@;
    let ghost vars = semantic@;
    let n = stmts.len();
    let mut declared: Vec<String> = Vec::new();
    let mut i: usize = 0;
    assert(name_set(declared@) =~= Set::empty());
    assert(out@ =~= head + body_code(sm, vars, 0));
    while i < n
        invariant
            n == stmts@.len() == sm.len(),
            sm == crate::ast::stmts_view(stmts@),
            vars == semantic@,
            semantic.wf(),
            i <= n,
            name_set(declared@) == declared_prefix(sm, i as nat),
            out@ == head + body_code(sm, vars, i as nat),
        decreases n - i,
    {
        assert(sm[i as int] == stmts@[i as int]@);
        let ghost before = out@;
        match &stmts[i] {
            Stmt::Print { content, .. } => {
                append_str(&mut out, "    println!(\"");
                push_escaped(&mut out, content);
                append_str(&mut out, "\");\n");
            },
            Stmt::Assign { name, decl_mut, expr, .. } => {
                let m = mutability_exec(semantic, name);
                let first = !contains_name(&declared, name);
                let code = gen_expr(expr, semantic);
                let code_v = chars_of(code.as_str());
                let name_v = chars_of(name.as_str());
                if first && m == Mutability::Mutable && *decl_mut {
                    append_str(&mut out, "    let ");
                    append_chars(&mut out, &name_v);
                    append_str(&mut out, " = Rc::new(RefCell::new(");
                    append_chars(&mut out, &code_v);
                    append_str(&mut out, "));\n");
                } else if first {
                    append_str(&mut out, "    let ");
                    append_chars(&mut out, &name_v);
                    append_str(&mut out, " = ");
                    append_chars(&mut out, &code_v);
                    append_str(&mut out, ";\n");
                } else if m == Mutability::Mutable {
                    append_str(&mut out, "    *");
                    append_chars(&mut out, &name_v);
                    append_str(&mut out, ".borrow_mut() = ");
                    append_chars(&mut out, &code_v);
                    append_str(&mut out, ";\n");
                } else {
                    append_str(&mut out, "    let ");
                    append_chars(&mut out, &name_v);
                    append_str(&mut out, " = ");
                    append_chars(&mut out, &code_v);
                    append_str(&mut out, "; // (note) immutable redeclaration fallback\n");
                }
                if first {
                    let ghost old_d = declared@;
                    declared.push(name.clone());
                    proof {
                        lemma_name_set_push(old_d, name@, declared@);
                    }
                } else {
                    assert(name_set(declared@) =~= name_set(declared@).insert(name@));
                }
            },
        }
        assert(out@ =~= before + stmt_code(sm, vars, i as int));
        i += 1;
    }
    append_str(&mut out, "}\n");
    assert(out@ =~= program_code(sm, vars));
    string_of(&out)
}


/// Whether statement `i` carries the `$` marker.
pub open spec fn has_marker(stmts: Seq<StmtM>, i: int) -> bool {
    stmts[i] matches StmtM::Assign { decl_mut, .. } && decl_mut
}

proof fn lemma_unmarked_table(stmts: Seq<StmtM>, n: nat, k: Seq<char>)
    requires
        n <= stmts.len(),
        forall|i: int| 0 <= i < stmts.len() ==> !#[trigger] has_marker(stmts, i),
        table_prefix(stmts, n).contains_key(k),
    ensures
        table_prefix(stmts, n)[k] == Mutability::Immutable,
    decreases n,
{
    if n > 0 {
        assert(!has_marker(stmts, n - 1));
        if table_prefix(stmts, (n - 1) as nat).contains_key(k) {
            lemma_unmarked_table(stmts, (n - 1) as nat, k);
        }
    }
}

/// Without the `$` marker no assignment becomes a shared mutable cell,
/// whatever the table says; with the table that analysis builds, the code
/// needs no cell imports and no assignment writes through a cell either.
pub proof fn lemma_no_marker_no_cells(stmts: Seq<StmtM>, vars: Map<Seq<char>, Mutability>)
    requires
        forall|i: int| 0 <= i < stmts.len() ==> !#[trigger] has_marker(stmts, i),
    ensures
        forall|i: int|
            0 <= i < stmts.len() && stmts[i] is Assign ==> #[trigger] binding_at(stmts, vars, i)
                != Binding::CellInit,
        !needs_cells(table_spec(stmts)),
        forall|i: int|
            0 <= i < stmts.len() && stmts[i] is Assign ==> #[trigger] binding_at(
                stmts,
                table_spec(stmts),
                i,
            ) == Binding::Let || binding_at(stmts, table_spec(stmts), i) == Binding::Rebind,
{
    assert forall|i: int| 0 <= i < stmts.len() && stmts[i] is Assign implies #[trigger] binding_at(
        stmts,
        vars,
        i,
    ) != Binding::CellInit by {
        assert(!has_marker(stmts, i));
    };
    assert forall|k: Seq<char>| #[trigger] table_spec(stmts).contains_key(k) implies table_spec(
        stmts,
    )[k] != Mutability::Mutable by {
        lemma_unmarked_table(stmts, stmts.len(), k);
    };
    assert forall|i: int| 0 <= i < stmts.len() && stmts[i] is Assign implies #[trigger] binding_at(
        stmts,
        table_spec(stmts),
        i,
    ) == Binding::Let || binding_at(stmts, table_spec(stmts), i) == Binding::Rebind by {
        let name = stmts[i]->Assign_name;
        if table_spec(stmts).contains_key(name) {
            lemma_unmarked_table(stmts, stmts.len(), name);
        }
    };
}

} // verus!
