use kairo::ast::{Expr, Program, Stmt};
use kairo::codegen::{escape, gen_expr, generate_rust};
use kairo::compiler::{
    compile_source, ensure_kr_ext, executable_name, generated_source_name, CompileError, InputError,
};
use kairo::diagnostics::{caret_line, color_codes, get_line, render_error};
use kairo::parser::{parse, SyntaxError};
use kairo::semantics::{
    check_semantics, friendly_error_assign_immutable, friendly_error_redeclare, render_errors,
    Mutability, SemanticError, SemanticErrorKind,
};
use kairo::span::SourceSpan;

fn parsed(src: &str) -> Program {
    match parse(src) {
        Ok(p) => p,
        Err(e) => panic!("unexpected syntax error: {}", e.message()),
    }
}

fn semantic_errors(src: &str) -> Vec<SemanticError> {
    let p = parsed(src);
    match check_semantics(&p, "t.kr", src) {
        Ok(_) => panic!("expected semantic errors"),
        Err(es) => es,
    }
}

fn ident_name(e: &Expr) -> &str {
    match e {
        Expr::Ident(n, _) => n.as_str(),
        _ => panic!("not an identifier"),
    }
}

#[test]
fn addition_is_left_associative() {
    let p = parsed("r = a + b + c");
    match &p.statements[0] {
        Stmt::Assign { expr: Expr::BinaryAdd(l, r, _), .. } => {
            assert_eq!(ident_name(r), "c");
            match &**l {
                Expr::BinaryAdd(a, b, _) => {
                    assert_eq!(ident_name(a), "a");
                    assert_eq!(ident_name(b), "b");
                }
                _ => panic!("left operand is not an addition"),
            }
        }
        _ => panic!("not an addition"),
    }
}

#[test]
fn immutable_binding_and_print() {
    let src = "x = 1\nprint(\"hello\")\n";
    let p = parsed(src);
    assert_eq!(p.statements.len(), 2);
    let info = check_semantics(&p, "t.kr", src).ok().unwrap();
    assert_eq!(info.get("x"), Some(Mutability::Immutable));
    assert_eq!(info.len(), 1);
    let code = generate_rust(&p, &info);
    assert_eq!(code, "fn main() {\n    let x = 1;\n    println!(\"hello\");\n}\n");
}

#[test]
fn mutable_cell_and_mutation() {
    let src = "$x = 0\nx = x + 1\nprint(\"done\")\n";
    let p = parsed(src);
    let info = check_semantics(&p, "t.kr", src).ok().unwrap();
    assert_eq!(info.get("x"), Some(Mutability::Mutable));
    let code = generate_rust(&p, &info);
    assert_eq!(
        code,
        "use std::rc::Rc;\nuse std::cell::RefCell;\n\nfn main() {\n    let x = Rc::new(RefCell::new(0));\n    *x.borrow_mut() = (*x.borrow() + 1);\n    println!(\"done\");\n}\n"
    );
}

#[test]
fn reassigning_immutable_is_an_error() {
    let es = semantic_errors("x = 1\nx = 2\n");
    assert_eq!(es.len(), 1);
    assert_eq!(es[0].kind, SemanticErrorKind::AssignImmutable);
    assert_eq!(es[0].name, "x");
    assert_eq!(es[0].line, 2);
    assert_eq!(es[0].col, 1);
    assert_eq!(es[0].line_text, "x = 2");
    assert_eq!(es[0].caret, "^");
}

#[test]
fn undefined_variable_points_at_its_column() {
    let es = semantic_errors("y = z + 1\n");
    assert_eq!(es.len(), 1);
    assert_eq!(es[0].kind, SemanticErrorKind::UndefinedVariable);
    assert_eq!(es[0].name, "z");
    assert_eq!(es[0].line, 1);
    assert_eq!(es[0].col, 5);
    assert_eq!(es[0].caret, "    ^");
    assert_eq!(es[0].file, "t.kr");
}

#[test]
fn second_mutable_declaration_is_duplicate() {
    let es = semantic_errors("$x = 1\n$x = 2\n");
    assert_eq!(es.len(), 1);
    assert_eq!(es[0].kind, SemanticErrorKind::DuplicateDeclaration);
    assert_eq!(es[0].name, "x");
    assert_eq!(es[0].line, 2);
    assert_eq!(es[0].col, 2);
}

#[test]
fn print_accepts_only_string_literals() {
    match parse("print(42)") {
        Err(SyntaxError::PrintArgument { line }) => assert_eq!(line, 1),
        _ => panic!("expected a print argument error"),
    }
    let e = parse("print(42)").err().unwrap();
    assert_eq!(e.message(), "语法错误：print(...) 仅支持字符串字面量，第 1 行");
}

#[test]
fn no_marker_means_no_cells() {
    let src = "a = 1\nb = a + 2\nprint(\"Rc::new(RefCell::new(\")\n";
    let p = parsed(src);
    let info = check_semantics(&p, "t.kr", src).ok().unwrap();
    let code = generate_rust(&p, &info);
    assert!(!code.contains("use std::rc::Rc"));
    assert!(!code.contains("let a = Rc::new"));
    assert!(!code.contains("let b = Rc::new"));
    assert!(code.contains("    let b = (a + 2);\n"));
}

#[test]
fn compiling_twice_gives_identical_output() {
    let src = "$n = 1\nn = n + 41\nm = \"a\\\"b\" + n\nprint(\"ok\")\n";
    let a = compile_source(src, "t.kr").ok().unwrap();
    let b = compile_source(src, "t.kr").ok().unwrap();
    assert_eq!(a, b);
}

#[test]
fn every_undefined_read_is_reported() {
    let es = semantic_errors("a = 1\nb = a + c\nd = e + c\n");
    assert_eq!(es.len(), 3);
    assert!(es.iter().all(|e| e.kind == SemanticErrorKind::UndefinedVariable));
    assert_eq!((es[0].name.as_str(), es[0].line), ("c", 2));
    assert_eq!((es[1].name.as_str(), es[1].line), ("e", 3));
    assert_eq!((es[2].name.as_str(), es[2].line), ("c", 3));
}

#[test]
fn read_before_later_declaration_is_undefined() {
    let es = semantic_errors("a = b\nb = 1\n");
    assert_eq!(es.len(), 1);
    assert_eq!(es[0].kind, SemanticErrorKind::UndefinedVariable);
    assert_eq!(es[0].name, "b");
    assert_eq!(es[0].line, 1);
}

#[test]
fn duplicate_after_immutable_declaration() {
    let es = semantic_errors("x = 1\n$x = 2\n");
    assert_eq!(es.len(), 1);
    assert_eq!(es[0].kind, SemanticErrorKind::DuplicateDeclaration);
}

#[test]
fn later_immutable_assignment_keeps_mutable_entry() {
    let src = "$x = 1\nx = 2\nx = 3\n";
    let p = parsed(src);
    let info = check_semantics(&p, "t.kr", src).ok().unwrap();
    assert_eq!(info.get("x"), Some(Mutability::Mutable));
    assert_eq!(info.len(), 1);
}

#[test]
fn errors_of_both_passes_are_aggregated() {
    let es = semantic_errors("x = 1\nx = y\n$x = 3\n");
    let kinds: Vec<SemanticErrorKind> = es.iter().map(|e| e.kind).collect();
    assert_eq!(
        kinds,
        vec![
            SemanticErrorKind::AssignImmutable,
            SemanticErrorKind::DuplicateDeclaration,
            SemanticErrorKind::UndefinedVariable
        ]
    );
}

#[test]
fn empty_source_and_comments() {
    assert_eq!(parsed("").statements.len(), 0);
    assert_eq!(parsed("\n   \n// note\n  // x = \n").statements.len(), 0);
    let code = compile_source("", "t.kr").ok().unwrap();
    assert_eq!(code, "fn main() {\n}\n");
}

#[test]
fn crlf_lines() {
    let p = parsed("x = 1\r\nprint(\"a\")\r\n");
    assert_eq!(p.statements.len(), 2);
    match &p.statements[1] {
        Stmt::Print { content, span } => {
            assert_eq!(content, "a");
            assert_eq!(span.start.line, 2);
        }
        _ => panic!("not a print"),
    }
}

#[test]
fn unparseable_line_reports_number_and_text() {
    match parse("x = 1\nhello world\n") {
        Err(SyntaxError::UnparseableLine { line, text }) => {
            assert_eq!(line, 2);
            assert_eq!(text, "hello world");
        }
        _ => panic!("expected an unparseable line"),
    }
    let e = parse("x = 1\nhello world\n").err().unwrap();
    assert_eq!(e.message(), "语法错误：无法解析第 2 行：hello world");
}

#[test]
fn invalid_left_hand_side() {
    match parse("  a b = 1") {
        Err(SyntaxError::InvalidLhs { line, lhs }) => {
            assert_eq!(line, 1);
            assert_eq!(lhs, "a b");
        }
        _ => panic!("expected an invalid left-hand side"),
    }
}

#[test]
fn bad_expression_operand() {
    match parse("x = 1 + 2x") {
        Err(SyntaxError::BadExpression { line, text }) => {
            assert_eq!(line, 1);
            assert_eq!(text, "2x");
        }
        _ => panic!("expected a bad expression"),
    }
    let e = parse("x = 1 + 2x").err().unwrap();
    assert_eq!(e.message(), "语法错误：无法解析表达式 `2x`（第 1 行）");
}

#[test]
fn first_syntax_error_stops_parsing() {
    match parse("x = ?\ny = !\n") {
        Err(SyntaxError::BadExpression { line, text }) => {
            assert_eq!(line, 1);
            assert_eq!(text, "?");
        }
        _ => panic!("expected the first error"),
    }
}

#[test]
fn integer_literals() {
    let p = parsed("a = -42\nb = 007\nc = 9223372036854775807\nd = -9223372036854775808\n");
    let vals: Vec<i64> = p
        .statements
        .iter()
        .map(|s| match s {
            Stmt::Assign { expr: Expr::IntLit(v, _), .. } => *v,
            _ => panic!("not an integer"),
        })
        .collect();
    assert_eq!(vals, vec![-42, 7, i64::MAX, i64::MIN]);
    assert!(matches!(parse("e = 9223372036854775808"), Err(SyntaxError::BadExpression { .. })));
    assert!(matches!(parse("e = -"), Err(SyntaxError::BadExpression { .. })));
    match parse("e = +7") {
        Err(SyntaxError::BadExpression { text, .. }) => assert_eq!(text, ""),
        _ => panic!("a leading plus leaves an empty operand"),
    }
}

#[test]
fn mutable_marker_and_name_span() {
    let p = parsed("  $  count = 3");
    match &p.statements[0] {
        Stmt::Assign { name, decl_mut, name_span, span, .. } => {
            assert_eq!(name, "count");
            assert!(*decl_mut);
            assert_eq!((name_span.start.col, name_span.end.col), (6, 11));
            assert_eq!((span.start.col, span.end.col), (1, 14));
        }
        _ => panic!("not an assignment"),
    }
}

#[test]
fn string_literal_operands_and_escaping() {
    let src = "s = \"a\\b\" + \"q\"\"\nprint(\"say \"hi\"\")\n";
    let code = compile_source(src, "t.kr").ok().unwrap();
    assert!(code.contains("    let s = (\"a\\\\b\" + \"q\\\"\");\n"));
    assert!(code.contains("    println!(\"say \\\"hi\\\"\");\n"));
    assert_eq!(escape(&String::from("a\"b\\c")), "a\\\"b\\\\c");
}

#[test]
fn expression_lowering_reads_cells() {
    let src = "$m = 1\ni = 2\nk = m + i + \"s\" + -3\n";
    let p = parsed(src);
    let info = check_semantics(&p, "t.kr", src).ok().unwrap();
    match &p.statements[2] {
        Stmt::Assign { expr, .. } => {
            assert_eq!(gen_expr(expr, &info), "(((*m.borrow() + i) + \"s\") + -3)");
        }
        _ => panic!("not an assignment"),
    }
}

#[test]
fn compile_source_reports_each_stage() {
    assert!(matches!(compile_source("print(x)", "t.kr"), Err(CompileError::Syntax(_))));
    match compile_source("x = 1\nx = 2", "t.kr") {
        Err(CompileError::Semantic(es)) => assert_eq!(es.len(), 1),
        _ => panic!("expected semantic errors"),
    }
}

#[test]
fn get_line_and_caret() {
    assert_eq!(get_line("a\nbb\nccc", 2), "bb");
    assert_eq!(get_line("a\nbb\nccc", 4), "");
    assert_eq!(get_line("a\nbb\nccc", 0), "");
    assert_eq!(caret_line(SourceSpan::single_line(1, 3, 6)), "  ^^^");
    assert_eq!(caret_line(SourceSpan::single_line(1, 1, 1)), "^");
}

#[test]
fn render_without_color() {
    let r = render_error("sum", "f.kr", 3, 5, "x = x + 1", "    ^", "   - hint", false);
    assert_eq!(
        r,
        "\n❌ 错误：sum\n  --> f.kr:3:5\n   |\n 3 | x = x + 1\n   |     ^\n💡 修复建议：\n   - hint\n"
    );
    let c = color_codes(true);
    assert_eq!(c.bold_red, "\x1b[1;31m");
    assert_eq!(color_codes(false).reset, "");
    let colored = render_error("s", "f", 1, 1, "l", "^", "h", true);
    assert!(colored.starts_with("\n\x1b[1;31m❌ 错误：s\x1b[0m"));
}

#[test]
fn render_semantic_errors() {
    let es = semantic_errors("x = 1\nx = 2\n");
    let text = render_errors(&es, false);
    assert!(text.contains("你试图修改不可变变量 `x`"));
    assert!(text.contains("  --> t.kr:2:1"));
    assert!(text.contains("new_x = x + 1"));
    assert_eq!(text, es[0].render(false));
}

#[test]
fn source_path_checks() {
    assert_eq!(ensure_kr_ext(false, Some("kr")), Err(InputError::NotFound));
    assert_eq!(ensure_kr_ext(true, Some("kr")), Ok(()));
    assert_eq!(ensure_kr_ext(true, Some("rs")), Err(InputError::WrongExtension));
    assert_eq!(ensure_kr_ext(true, None), Err(InputError::WrongExtension));
}

#[test]
fn artifact_names() {
    assert_eq!(generated_source_name("hello"), "hello.rs");
    assert_eq!(executable_name("hello", true), "hello.exe");
    assert_eq!(executable_name("hello", false), "hello");
}

#[test]
fn single_line_span() {
    let s = SourceSpan::single_line(4, 2, 9);
    assert_eq!((s.start.line, s.start.col, s.end.line, s.end.col), (4, 2, 4, 9));
}

#[test]
fn friendly_errors_render_the_named_line() {
    let src = "x = 1\nx = 2\n";
    let span = SourceSpan::single_line(2, 1, 2);
    let r = friendly_error_assign_immutable("f.kr", src, &String::from("x"), span, false);
    assert!(r.starts_with("\n❌ 错误：你试图修改不可变变量 `x`\n  --> f.kr:2:1\n   |\n 2 | x = 2\n   | ^\n"));
    let d = friendly_error_redeclare("f.kr", "$v = 1\n$v = 2", &String::from("v"), SourceSpan::single_line(2, 2, 3), false);
    assert!(d.contains("变量 `v` 已在之前声明，不能重复声明"));
    assert!(d.contains(" 2 | $v = 2\n   |  ^\n"));
    assert!(d.ends_with("v_2 = ...\n"));
}
