use lopa::def::scope::{
    module_scope, traverse_use_tree, ItemDecl, ModuleDef, ModuleDefKind, ModuleItems, ScopeNames,
    UseNode, UseTree,
};
use lopa::ide::diagnostics::DiagnosticKind;

fn s(x: &str) -> String {
    x.to_string()
}

fn path_of(names: &ScopeNames, i: usize) -> Vec<String> {
    names.values[i].1.path.clone()
}

#[test]
fn use_tree_binds_names_under_their_paths() {
    // use a::{b, c::*, self};
    let tree = UseTree {
        nodes: vec![
            UseNode::UsePath { name: Some(s("a")), tree: Some(1) },
            UseNode::UseTreeList { elements: vec![2, 3, 5] },
            UseNode::UseName { name: Some(s("b")), range: 7..8 },
            UseNode::UsePath { name: Some(s("c")), tree: Some(4) },
            UseNode::UseGlobal,
            UseNode::UseSelfName { range: 16..20 },
        ],
    };
    let mut names = ScopeNames::new();
    let mut globals: Vec<Vec<String>> = Vec::new();
    let mut diagnostics = Vec::new();
    traverse_use_tree(&tree, 0, &Vec::new(), &Vec::new(), &mut names, &mut globals, &mut diagnostics);
    assert_eq!(names.values.len(), 2);
    assert_eq!(names.values[0].0, "b");
    assert_eq!(path_of(&names, 0), vec![s("a"), s("b")]);
    assert_eq!(names.values[0].1.range, 7..8);
    assert_eq!(names.values[1].0, "a");
    assert_eq!(path_of(&names, 1), vec![s("a")]);
    assert_eq!(names.values[1].1.range, 16..20);
    assert_eq!(names.types.len(), 2);
    assert_eq!(names.types[0].0, "b");
    assert_eq!(names.types[1].0, "a");
    assert_eq!(globals, vec![vec![s("a"), s("c")]]);
    assert!(diagnostics.is_empty());
}

#[test]
fn a_name_imported_twice_is_reported_at_the_later_import() {
    // use {x, x};
    let tree = UseTree {
        nodes: vec![
            UseNode::UseTreeList { elements: vec![1, 2] },
            UseNode::UseName { name: Some(s("x")), range: 5..6 },
            UseNode::UseName { name: Some(s("x")), range: 8..9 },
        ],
    };
    let mut names = ScopeNames::new();
    let mut globals: Vec<Vec<String>> = Vec::new();
    let mut diagnostics = Vec::new();
    traverse_use_tree(&tree, 0, &Vec::new(), &Vec::new(), &mut names, &mut globals, &mut diagnostics);
    assert_eq!(names.values.len(), 1);
    assert_eq!(names.values[0].1.range, 8..9);
    assert_eq!(diagnostics.len(), 2);
    for d in &diagnostics {
        assert_eq!(d.message, "the name `x` is defined multiple times");
        assert_eq!(d.range, 8..9);
        assert_eq!(d.kind, DiagnosticKind::ModuleError);
    }
}

#[test]
fn super_and_root_paths_start_where_they_say() {
    // use {super::y, root::z, w::};
    let tree = UseTree {
        nodes: vec![
            UseNode::UseTreeList { elements: vec![1, 3, 5] },
            UseNode::UseSuperPath { tree: Some(2) },
            UseNode::UseName { name: Some(s("y")), range: 12..13 },
            UseNode::UseRootPath { tree: Some(4) },
            UseNode::UseName { name: Some(s("z")), range: 21..22 },
            UseNode::UsePath { name: Some(s("w")), tree: None },
        ],
    };
    let mut names = ScopeNames::new();
    let mut globals: Vec<Vec<String>> = Vec::new();
    let mut diagnostics = Vec::new();
    let sup = vec![s("top"), s("m")];
    traverse_use_tree(&tree, 0, &vec![s("here")], &sup, &mut names, &mut globals, &mut diagnostics);
    assert_eq!(names.values.len(), 2);
    assert_eq!(path_of(&names, 0), vec![s("top"), s("m"), s("y")]);
    assert_eq!(path_of(&names, 1), vec![s("here"), s("root"), s("z")]);
    assert!(globals.is_empty());
    assert!(diagnostics.is_empty());
}

fn decl(id: u32, name: &str, start: usize, end: usize) -> ItemDecl {
    ItemDecl { id, name: s(name), range: start..end }
}

#[test]
fn module_scope_declares_items_then_imports() {
    // struct S; enum E; fn f; mod m; use m::f; use;
    let items = ModuleItems {
        structs: vec![decl(1, "S", 0, 8)],
        enums: vec![decl(2, "E", 10, 20)],
        functions: vec![decl(3, "f", 22, 30)],
        children: vec![decl(4, "m", 32, 38)],
        imports: vec![
            Some(UseTree {
                nodes: vec![
                    UseNode::UsePath { name: Some(s("m")), tree: Some(1) },
                    UseNode::UseName { name: Some(s("f")), range: 45..46 },
                ],
            }),
            None,
        ],
    };
    let r = module_scope(&items, &Vec::new());
    assert_eq!(r.values, vec![(s("f"), ModuleDef::Function(3))]);
    assert_eq!(
        r.types,
        vec![(s("S"), ModuleDef::Struct(1)), (s("E"), ModuleDef::Enum(2)), (s("m"), ModuleDef::Module(4))]
    );
    assert_eq!(r.scope_values.len(), 1);
    assert_eq!(r.scope_values[0].0, "f");
    assert_eq!(r.scope_values[0].1.path, vec![s("m"), s("f")]);
    assert_eq!(r.scope_values[0].1.item, None);
    assert_eq!(r.scope_types.len(), 4);
    assert_eq!(r.scope_types[0].1.item, Some(ModuleDefKind::Struct));
    assert_eq!(r.scope_types[1].1.item, Some(ModuleDefKind::Struct));
    assert_eq!(r.scope_types[2].1.item, Some(ModuleDefKind::Function));
    assert_eq!(r.scope_types[3].0, "f");
    assert!(r.global_imports.is_empty());
    assert_eq!(r.diagnostics.len(), 1);
    assert_eq!(r.diagnostics[0].message, "the name `f` is defined multiple times");
    assert_eq!(r.diagnostics[0].range, 45..46);
    assert_eq!(r.diagnostics[0].kind, DiagnosticKind::ModuleError);
}
