use lopa::def::{Symbol, SymbolList};
use lopa::lsp::queries::Revision;
use lopa::common::{BinaryOpKind, LitKind, UnaryOpKind};
use lopa::ide::base::{File, InFile, VfsPath};
use lopa::ide::diagnostics::{DiagnosticKind, RenderedDiagnostic, Severity};

#[test]
fn literal_names() {
    assert_eq!(LitKind::Float.as_str(), "float");
    assert_eq!(LitKind::Int.as_str(), "int");
    assert_eq!(LitKind::String.as_str(), "string");
    assert_eq!(LitKind::Bool.as_str(), "bool");
    assert_eq!(LitKind::Nil.as_str(), "nil");
}

#[test]
fn operators() {
    assert!(BinaryOpKind::DivInt.is_arithmetic());
    assert!(BinaryOpKind::Rem.is_arithmetic());
    assert!(!BinaryOpKind::And.is_arithmetic());
    assert!(!BinaryOpKind::AddAssign.is_arithmetic());
    assert_eq!(BinaryOpKind::DivIntAssign.to_string(), "//=");
    assert_eq!(BinaryOpKind::Or.to_string(), "or");
    assert_eq!(BinaryOpKind::ShrAssign.to_string(), ">>=");
    assert_eq!(UnaryOpKind::Not.to_string(), "!");
    assert_eq!(UnaryOpKind::Neg.to_string(), "-");
}

#[test]
fn in_file_keeps_the_file() {
    let f = InFile::new(File(7), 10u32);
    let g = f.with_value("x");
    assert_eq!(g.file_id, File(7));
    assert_eq!(g.value, "x");
    let h = f.map(|v| v * 2);
    assert_eq!(h.value, 20);
    assert_eq!(h.file_id, File(7));
    let r = f.as_ref();
    assert_eq!(*r.value, 10);
    let c = r.cloned();
    assert_eq!(c, f);
    let p = VfsPath(std::path::PathBuf::from("/a/b.lopa"));
    assert_eq!(p.clone(), p);
}

#[test]
fn diagnostics_are_errors_with_codes() {
    let d = RenderedDiagnostic {
        message: String::from("bad"),
        range: 1..3,
        kind: DiagnosticKind::TypeError,
    };
    assert_eq!(d.severity(), Severity::Error);
    assert_eq!(d.code(), "type_error");
    let e = RenderedDiagnostic { kind: DiagnosticKind::SyntaxError, ..d.clone() };
    assert_eq!(e.code(), "syntax_error");
    assert_eq!(e.range, 1..3);
    let m = RenderedDiagnostic { kind: DiagnosticKind::ModuleError, ..d };
    assert_eq!(m.code(), "module_error");
    assert_eq!(m.severity(), Severity::Error);
}

#[test]
fn compound_assignments_add_an_equals_sign() {
    let pairs = [
        (BinaryOpKind::AddAssign, BinaryOpKind::Add),
        (BinaryOpKind::DivIntAssign, BinaryOpKind::DivInt),
        (BinaryOpKind::ShrAssign, BinaryOpKind::Shr),
        (BinaryOpKind::BitOrAssign, BinaryOpKind::BitOr),
    ];
    for (a, b) in pairs {
        assert_eq!(a.to_string(), format!("{}=", b.to_string()));
    }
    assert_ne!(BinaryOpKind::Less.to_string(), BinaryOpKind::LessEqual.to_string());
    assert_ne!(BinaryOpKind::Div.to_string(), BinaryOpKind::DivInt.to_string());
}

#[test]
fn symbol_list_joins_and_pushes() {
    let l = SymbolList::new(vec![Symbol::new("root".to_string()), Symbol::new("a".to_string())]);
    assert_eq!(l.to_symbol().value, "root::a");
    let l2 = l.push(Symbol::new("b".to_string()));
    assert_eq!(l2.to_symbol().value, "root::a::b");
    assert_eq!(SymbolList::new(vec![]).to_symbol().value, "");
    assert_eq!(SymbolList::new(vec![Symbol::new("x".to_string())]).to_symbol().value, "x");
}

#[test]
fn a_new_revision_starts_at_zero() {
    let r = Revision::default();
    assert_eq!(format!("{:?}", r), "Revision { verified_at: 0, changed_at: 0 }");
}
