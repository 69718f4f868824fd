use lopa::ide::diagnostics::{
    rendered_diagnostics, DiagnosticKind, FoundAt, ItemSpans, LocatedDiagnostic,
};

fn at(message: &str, at: FoundAt) -> LocatedDiagnostic {
    LocatedDiagnostic { message: message.to_string(), at, kind: DiagnosticKind::TypeError }
}

#[test]
fn problems_are_shown_at_their_nodes_and_headings() {
    let ds = vec![
        at("a", FoundAt::Node(Some(1..3))),
        at(
            "b",
            FoundAt::Item(Some(ItemSpans { node: 0..20, keyword: Some(0..6), name: Some(7..8) })),
        ),
        at(
            "c",
            FoundAt::Item(Some(ItemSpans { node: 30..40, keyword: None, name: Some(35..36) })),
        ),
        at("d", FoundAt::Param),
        at("e", FoundAt::Node(None)),
        at("f", FoundAt::Bytes(50..52)),
        at("g", FoundAt::Item(None)),
    ];
    let r = rendered_diagnostics(&ds);
    let shown: Vec<(String, std::ops::Range<usize>)> =
        r.iter().map(|d| (d.message.clone(), d.range.clone())).collect();
    assert_eq!(
        shown,
        vec![
            ("a".to_string(), 1..3),
            ("b".to_string(), 0..8),
            ("c".to_string(), 30..40),
            ("f".to_string(), 50..52),
        ]
    );
    assert!(r.iter().all(|d| d.kind == DiagnosticKind::TypeError));
}
