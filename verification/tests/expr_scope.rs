use lopa::ide::scope::{
    expr_scopes, Body, ElseBranch, ExprKind, IfExpr, PatKind, StmtKind,
};

fn names(scopes: &lopa::ide::scope::ExprScopes, s: usize) -> Vec<(String, usize)> {
    scopes.scopes[s].entries.iter().map(|e| (e.name.clone(), e.pattern)).collect()
}

#[test]
fn closures_and_blocks_open_scopes() {
    // |x| { let y = x; y }
    let body = Body {
        exprs: vec![
            ExprKind::Closure { params: vec![0], body: 1 },
            ExprKind::Block {
                stmts: vec![StmtKind::Let { pat: 1, expr: 2 }, StmtKind::Expr { expr: 3 }],
            },
            ExprKind::Path,
            ExprKind::Path,
        ],
        pats: vec![PatKind::Name("x".to_string()), PatKind::Name("y".to_string())],
        ifs: vec![],
    };
    let scopes = expr_scopes(&body, 0);
    assert_eq!(scopes.scopes.len(), 3);
    assert_eq!(scopes.scopes[0].parent, None);
    assert_eq!(scopes.scopes[1].parent, Some(0));
    assert_eq!(scopes.scopes[2].parent, Some(1));
    assert!(names(&scopes, 0).is_empty());
    assert_eq!(names(&scopes, 1), vec![("x".to_string(), 0)]);
    assert_eq!(names(&scopes, 2), vec![("y".to_string(), 1)]);
    assert_eq!(scopes.scope_by_expr.get(&0), Some(&0));
    assert_eq!(scopes.scope_by_expr.get(&1), Some(&1));
    assert_eq!(scopes.scope_by_expr.get(&2), Some(&2));
    assert_eq!(scopes.scope_by_expr.get(&3), Some(&2));
}

#[test]
fn if_branches_and_is_patterns() {
    // if (v is some) {} else {}
    let body = Body {
        exprs: vec![
            ExprKind::If(0),
            ExprKind::Is { expr: 4, pat: 0 },
            ExprKind::Block { stmts: vec![] },
            ExprKind::Block { stmts: vec![] },
            ExprKind::Path,
        ],
        pats: vec![PatKind::Name("some".to_string())],
        ifs: vec![IfExpr { cond: 1, if_branch: 2, else_branch: Some(ElseBranch::Block(3)) }],
    };
    let scopes = expr_scopes(&body, 0);
    assert_eq!(scopes.scopes.len(), 3);
    assert_eq!(names(&scopes, 0), vec![("some".to_string(), 0)]);
    assert_eq!(scopes.scopes[1].parent, Some(0));
    assert_eq!(scopes.scopes[2].parent, Some(0));
    for e in 0..5 {
        assert_eq!(scopes.scope_by_expr.get(&e), Some(&0));
    }
}

#[test]
fn names_resolve_to_the_innermost_latest_binding() {
    // |x| { let x = x; let y = x; y }
    let body = Body {
        exprs: vec![
            ExprKind::Closure { params: vec![0], body: 1 },
            ExprKind::Block {
                stmts: vec![
                    StmtKind::Let { pat: 1, expr: 2 },
                    StmtKind::Let { pat: 2, expr: 3 },
                    StmtKind::Expr { expr: 4 },
                ],
            },
            ExprKind::Path,
            ExprKind::Path,
            ExprKind::Path,
        ],
        pats: vec![
            PatKind::Name("x".to_string()),
            PatKind::Name("x".to_string()),
            PatKind::Name("y".to_string()),
        ],
        ifs: vec![],
    };
    let scopes = expr_scopes(&body, 0);
    assert_eq!(scopes.scope_for_expr(4), Some(2));
    assert_eq!(scopes.scope_for_expr(9), None);
    assert_eq!(scopes.entries(2).len(), 2);
    assert_eq!(scopes.resolve_name_in_scope(2, &"x".to_string()).map(|e| e.pattern), Some(1));
    assert_eq!(scopes.resolve_name_in_scope(1, &"x".to_string()).map(|e| e.pattern), Some(0));
    assert_eq!(scopes.resolve_name_in_scope(2, &"y".to_string()).map(|e| e.pattern), Some(2));
    assert!(scopes.resolve_name_in_scope(1, &"y".to_string()).is_none());
    assert!(scopes.resolve_name_in_scope(0, &"x".to_string()).is_none());
}
