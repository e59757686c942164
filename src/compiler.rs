use vstd::prelude::*;

use crate::codegen::{generate_rust, program_code};
use crate::parser::{parse, parse_spec, SyntaxError, SyntaxErrorM};
use crate::semantics::{
    check_semantics, errors_view, semantic_errors, table_spec, SemanticError, SemanticErrorM,
};
use crate::text::{append_str, chars_of, string_of};

verus! {

/// Why a source text could not be compiled.
#[derive(Debug)]
pub enum CompileError {
    /// The first syntax error of the text.
    Syntax(SyntaxError),
    /// Every semantic error of the program.
    Semantic(Vec<SemanticError>),
}

/// The mathematical value of a [`CompileError`].
pub enum CompileErrorM {
    Syntax(SyntaxErrorM),
    Semantic(Seq<SemanticErrorM>),
}

impl View for CompileError {
    type V = CompileErrorM;

    open spec fn view(&self) -> CompileErrorM {
        match *self {
            CompileError::Syntax(e) => CompileErrorM::Syntax(e@),
            CompileError::Semantic(es) => CompileErrorM::Semantic(errors_view(es@)),
        }
    }
}

/// What compiling the source text `source` of the file `file` gives: its
/// first syntax error, else all its semantic errors, else the generated code.
pub open spec fn compile_spec(source: Seq<char>, file: Seq<char>) -> Result<Seq<char>, CompileErrorM> {
    match parse_spec(source) {
        Err(e) => Err(CompileErrorM::Syntax(e)),
        Ok(stmts) => {
            let errs = semantic_errors(stmts, source, file);
            if errs.len() > 0 {
                Err(CompileErrorM::Semantic(errs))
            } else {
                Ok(program_code(stmts, table_spec(stmts)))
            }
        },
    }
}

/// Parses, checks and lowers the source text `source` of the file `file`.
/// The result depends on the two texts alone.
pub fn compile_source(source: &str, file: &str) -> (r: Result<String, CompileError>)
    ensures
        r matches Ok(code) ==> compile_spec(source@, file@) == Ok::<Seq<char>, CompileErrorM>(
            code@,
        ),
        r matches Err(e) ==> compile_spec(source@, file@) == Err::<Seq<char>, CompileErrorM>(e@),
{
    let program = match parse(source) {
        Ok(p) => p,
        Err(e) => return Err(CompileError::Syntax(e)),
    };
    let info = match check_semantics(&program, file, source) {
        Ok(info) => info,
        Err(es) => return Err(CompileError::Semantic(es)),
    };
    Ok(generate_rust(&program, &info))
}

/// Compiling the same text of the same file twice gives the same result,
/// byte for byte.
pub proof fn lemma_compile_deterministic(a: Seq<char>, b: Seq<char>, file: Seq<char>)
    requires
        a == b,
    ensures
        compile_spec(a, file) == compile_spec(b, file),
{
}

/// Why a path cannot be compiled.
#[derive(Debug, Clone, Copy, PartialEq, Eq, Structural)]
pub enum InputError {
    /// There is no file at the path.
    NotFound,
    /// The file name does not end in `.kr`.
    WrongExtension,
}

/// The extension that source files carry.
pub open spec fn source_ext() -> Seq<char> {
    seq!['k', 'r']
}

/// Checks a source path before any work: the file must exist and its
/// extension must be `kr`.
pub fn ensure_kr_ext(exists: bool, extension: Option<&str>) -> (r: Result<(), InputError>)
    ensures
        !exists ==> r == Err::<(), InputError>(InputError::NotFound),
        exists && (extension matches Some(e) && e@ == source_ext()) ==> r is Ok,
        exists && !(extension matches Some(e) && e@ == source_ext()) ==> r == Err::<(), InputError>(
            InputError::WrongExtension,
        ),
{
    if !exists {
        return Err(InputError::NotFound);
    }
    match extension {
        Some(e) => {
            let v = chars_of(e);
            if v.len() == 2 && v[0] == 'k' && v[1] == 'r' {
                assert(v@ =~= source_ext());
                Ok(())
            } else {
                Err(InputError::WrongExtension)
            }
        },
        None => Err(InputError::WrongExtension),
    }
}

/// The file name of the generated source for the stem `stem`.
pub fn generated_source_name(stem: &str) -> (r: String)
    ensures
        r@ == stem@ + ".rs"@,
{
    let mut v = chars_of(stem);
    append_str(&mut v, ".rs");
    string_of(&v)
}

/// The file name of the executable for the stem `stem`: with `.exe` on
/// Windows.
pub fn executable_name(stem: &str, windows: bool) -> (r: String)
    ensures
        r@ == (if windows {
            stem@ + ".exe"@
        } else {
            stem@
        }),
{
    let mut v = chars_of(stem);
    if windows {
        append_str(&mut v, ".exe");
    }
    string_of(&v)
}

} // verus!
