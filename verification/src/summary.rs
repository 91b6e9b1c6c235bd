//! The decision side of the per-file symbol summarizer: which language a file
//! extension selects, which syntax-tree node kinds count as declarations, and
//! the text of a summary built from the declarations found. Driving the
//! concrete-syntax-tree parser itself is left to the caller, which hands the
//! declarations back as plain values.

use vstd::prelude::*;
use crate::text::str_eq;

verus! {

/// A language with a supported concrete-syntax-tree parser.
#[derive(Clone, Copy, Debug, PartialEq, Eq, Structural)]
pub enum SummaryLanguage {
    Rust,
    JavaScript,
    Python,
}

/// The kind of a summarized declaration.
#[derive(Clone, Copy, Debug, PartialEq, Eq, Structural)]
pub enum DeclKind {
    Function,
    Class,
    Enum,
}

/// One declaration found in a file: its kind and its declared name.
pub struct Decl {
    pub kind: DeclKind,
    pub name: String,
}

pub open spec fn spec_language_for_extension(ext: Seq<char>) -> Option<SummaryLanguage> {
    if ext == "rs"@ {
        Some(SummaryLanguage::Rust)
    } else if ext == "js"@ || ext == "jsx"@ || ext == "ts"@ || ext == "tsx"@ {
        Some(SummaryLanguage::JavaScript)
    } else if ext == "py"@ {
        Some(SummaryLanguage::Python)
    } else {
        None
    }
}

/// The parser a file extension selects, if any.
pub fn language_for_extension(ext: &str) -> (r: Option<SummaryLanguage>)
    ensures
        r == spec_language_for_extension(ext@),
{
    if str_eq(ext, "rs") {
        Some(SummaryLanguage::Rust)
    } else if str_eq(ext, "js") || str_eq(ext, "jsx") || str_eq(ext, "ts") || str_eq(ext, "tsx") {
        Some(SummaryLanguage::JavaScript)
    } else if str_eq(ext, "py") {
        Some(SummaryLanguage::Python)
    } else {
        None
    }
}

pub open spec fn spec_classify_node_kind(kind: Seq<char>) -> Option<DeclKind> {
    if kind == "function_item"@ || kind == "function_declaration"@ || kind == "method_definition"@
        || kind == "function_definition"@ {
        Some(DeclKind::Function)
    } else if kind == "struct_item"@ || kind == "class_declaration"@ || kind == "class_definition"@ {
        Some(DeclKind::Class)
    } else if kind == "enum_item"@ {
        Some(DeclKind::Enum)
    } else {
        None
    }
}

/// Whether a syntax-tree node kind is a summarized declaration, and which.
pub fn classify_node_kind(kind: &str) -> (r: Option<DeclKind>)
    ensures
        r == spec_classify_node_kind(kind@),
{
    if str_eq(kind, "function_item") || str_eq(kind, "function_declaration") || str_eq(
        kind,
        "method_definition",
    ) || str_eq(kind, "function_definition") {
        Some(DeclKind::Function)
    } else if str_eq(kind, "struct_item") || str_eq(kind, "class_declaration") || str_eq(
        kind,
        "class_definition",
    ) {
        Some(DeclKind::Class)
    } else if str_eq(kind, "enum_item") {
        Some(DeclKind::Enum)
    } else {
        None
    }
}

/// One summary line: the kind's tag, a space, the declared name, a newline.
pub open spec fn spec_summary_line(kind: DeclKind, name: Seq<char>) -> Seq<char> {
    match kind {
        DeclKind::Function => "fn "@ + name + "\n"@,
        DeclKind::Class => "class "@ + name + "\n"@,
        DeclKind::Enum => "enum "@ + name + "\n"@,
    }
}

pub open spec fn spec_summary_lines(decls: Seq<Decl>) -> Seq<char>
    decreases decls.len(),
{
    if decls.len() == 0 {
        Seq::empty()
    } else {
        spec_summary_lines(decls.drop_last()) + spec_summary_line(
            decls.last().kind,
            decls.last().name@,
        )
    }
}

/// The summary of the declarations found in a file, one line each, in the
/// depth-first order they were collected; a file without declarations has no
/// summary.
pub fn summary_text(decls: &Vec<Decl>) -> (r: Option<String>)
    ensures
        decls@.len() == 0 <==> r is None,
        r matches Some(s) ==> s@ == spec_summary_lines(decls@),
{
    if decls.len() == 0 {
        return None;
    }
    let mut out = String::new();
    let mut i: usize = 0;
    proof {
        assert(out@ =~= spec_summary_lines(decls@.subrange(0, 0)));
    }
    while i < decls.len()
        invariant
            i <= decls@.len(),
            out@ == spec_summary_lines(decls@.subrange(0, i as int)),
        decreases decls@.len() - i,
    {
        let ghost pre = decls@.subrange(0, i as int);
        let ghost pre1 = decls@.subrange(0, i as int + 1);
        proof {
            assert(pre1.drop_last() =~= pre);
            assert(pre1.last() == decls@[i as int]);
        }
        match decls[i].kind {
            DeclKind::Function => out.append("fn "),
            DeclKind::Class => out.append("class "),
            DeclKind::Enum => out.append("enum "),
        }
        out.append(decls[i].name.as_str());
        out.append("\n");
        proof {
            assert(out@ =~= spec_summary_lines(pre1));
        }
        i = i + 1;
    }
    proof {
        assert(decls@.subrange(0, decls@.len() as int) =~= decls@);
    }
    Some(out)
}

} // verus!
