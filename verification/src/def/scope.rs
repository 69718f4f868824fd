//! The names that a module's imports bind.
use crate::ide::diagnostics::{DiagnosticKind, RenderedDiagnostic};
use std::ops::Range;
use vstd::prelude::*;
use vstd::string::StringExecFns;

verus! {

/// The kind of a definition of a module.
#[derive(Debug, Clone, Copy, PartialEq, Eq, Structural)]
pub enum ModuleDefKind {
    Function,
    Struct,
    Enum,
    Module,
}

/// A name in scope: the path it stands for, the bytes that bound it, and the kind of the
/// definition it names, where it is one of the module's own.
pub struct ScopeName {
    pub path: Vec<String>,
    pub range: Range<usize>,
    pub item: Option<ModuleDefKind>,
}

/// A name in scope, as the contracts see it.
pub struct NameView {
    pub path: Seq<Seq<char>>,
    pub start: int,
    pub end: int,
    pub item: Option<ModuleDefKind>,
}

/// The texts of the names of a path.
pub open spec fn texts(p: Seq<String>) -> Seq<Seq<char>> {
    p.map_values(|s: String| s@)
}

impl View for ScopeName {
    type V = NameView;

    open spec fn view(&self) -> NameView {
        NameView {
            path: texts(self.path@),
            start: self.range.start as int,
            end: self.range.end as int,
            item: self.item,
        }
    }
}

/// The names a module binds for values and for types, each in the order it was first bound.
pub struct ScopeNames {
    pub values: Vec<(String, ScopeName)>,
    pub types: Vec<(String, ScopeName)>,
}

/// The entries of a table of names, as the contracts see them.
pub open spec fn entries(m: Seq<(String, ScopeName)>) -> Seq<(Seq<char>, NameView)> {
    m.map_values(|e: (String, ScopeName)| (e.0@, e.1@))
}

/// Problems, as the contracts see them: message, first byte, byte past the end and kind.
pub open spec fn problems(d: Seq<RenderedDiagnostic>) -> Seq<(Seq<char>, int, int, DiagnosticKind)> {
    d.map_values(
        |x: RenderedDiagnostic| (x.message@, x.range.start as int, x.range.end as int, x.kind),
    )
}

/// The first entry from `from` on that binds `k`, or -1.
pub open spec fn first_key<V>(m: Seq<(Seq<char>, V)>, k: Seq<char>, from: int) -> int
    decreases m.len() - from,
{
    if from < 0 || from >= m.len() {
        -1
    } else if m[from].0 == k {
        from
    } else {
        first_key(m, k, from + 1)
    }
}

/// The later of two byte ranges, ordered by their first and then their last byte (the
/// second where they are equal).
pub open spec fn later(a: (int, int), b: (int, int)) -> (int, int) {
    if a.0 > b.0 || (a.0 == b.0 && a.1 > b.1) {
        a
    } else {
        b
    }
}

/// Where a name bound twice is reported: at the new binding where both name the same
/// definition, else at the later of the two.
pub open spec fn twice_at(old: NameView, new: NameView) -> (int, int) {
    if old.item is Some && new.item is Some && old.item == new.item {
        (new.start, new.end)
    } else {
        later((new.start, new.end), (old.start, old.end))
    }
}

/// The message for a name bound twice.
pub open spec fn twice_message(name: Seq<char>) -> Seq<char> {
    "the name `"@ + name + "` is defined multiple times"@
}

/// Binding `k` to `v` in the table `m`: an entry that binds `k` already takes the new
/// value in its place, and a problem is reported; else the entry is added at the end.
pub open spec fn put(
    m: Seq<(Seq<char>, NameView)>,
    d: Seq<(Seq<char>, int, int, DiagnosticKind)>,
    k: Seq<char>,
    v: NameView,
) -> (Seq<(Seq<char>, NameView)>, Seq<(Seq<char>, int, int, DiagnosticKind)>) {
    let i = first_key(m, k, 0);
    if i >= 0 {
        (
            m.update(i, (k, v)),
            d.push(
                (
                    twice_message(k),
                    twice_at(m[i].1, v).0,
                    twice_at(m[i].1, v).1,
                    DiagnosticKind::ModuleError,
                ),
            ),
        )
    } else {
        (m.push((k, v)), d)
    }
}

proof fn lemma_first_key<V>(m: Seq<(Seq<char>, V)>, k: Seq<char>, from: int, i: int)
    requires
        0 <= from <= i <= m.len(),
        forall|j: int| from <= j < i ==> m[j].0 != k,
        i < m.len() ==> m[i].0 == k,
    ensures
        first_key(m, k, from) == if i < m.len() {
            i
        } else {
            -1
        },
    decreases i - from,
{
    if from < i {
        lemma_first_key(m, k, from + 1, i);
    }
}

/// A copy of a path.
fn copy_path(p: &Vec<String>) -> (r: Vec<String>)
    ensures
        r@ == p@,
{
    let mut r: Vec<String> = Vec::new();
    let mut i: usize = 0;
    while i < p.len()
        invariant
            i <= p@.len(),
            r@ == p@.take(i as int),
        decreases p@.len() - i,
    {
        r.push(p[i].clone());
        assert(p@.take(i + 1) =~= p@.take(i as int).push(p@[i as int]));
        i = i + 1;
    }
    assert(p@.take(p@.len() as int) =~= p@);
    r
}

impl ScopeName {
    /// A copy of the name.
    pub fn copy(&self) -> (r: ScopeName)
        ensures
            r@ == self@,
    {
        ScopeName {
            path: copy_path(&self.path),
            range: Range { start: self.range.start, end: self.range.end },
            item: self.item,
        }
    }
}

/// Whether the name `k` stands for a path that ends in `k`; a module's own item (one with a
/// kind) for the path of its own name alone.
pub open spec fn own_path(k: Seq<char>, v: NameView) -> bool {
    &&& v.path.len() >= 1
    &&& v.path.last() == k
    &&& v.item is Some ==> v.path == seq![k]
}

/// Whether every name of the table stands for its own path.
pub open spec fn own_paths(m: Seq<(Seq<char>, NameView)>) -> bool {
    forall|j: int| 0 <= j < m.len() ==> own_path(m[j].0, #[trigger] m[j].1)
}

/// Whether the table binds the name `k`.
pub open spec fn has_key(m: Seq<(Seq<char>, NameView)>, k: Seq<char>) -> bool {
    exists|j: int| 0 <= j < m.len() && #[trigger] m[j].0 == k
}

/// Whether every name that `a` binds, `b` binds too.
pub open spec fn keys_kept(a: Seq<(Seq<char>, NameView)>, b: Seq<(Seq<char>, NameView)>) -> bool {
    forall|k: Seq<char>| #[trigger] has_key(a, k) ==> has_key(b, k)
}

proof fn lemma_first_key_found<V>(m: Seq<(Seq<char>, V)>, k: Seq<char>, from: int)
    requires
        0 <= from,
    ensures
        first_key(m, k, from) >= 0 ==> from <= first_key(m, k, from) < m.len() && m[first_key(
            m,
            k,
            from,
        )].0 == k,
        first_key(m, k, from) < 0 ==> forall|j: int| from <= j < m.len() ==> m[j].0 != k,
    decreases m.len() - from,
{
    if from < m.len() && m[from].0 != k {
        lemma_first_key_found(m, k, from + 1);
    }
}

/// Binding a name keeps every name bound, binds the new one, and keeps every name standing
/// for its own path where the new one does.
pub proof fn lemma_put_paths(
    m: Seq<(Seq<char>, NameView)>,
    d: Seq<(Seq<char>, int, int, DiagnosticKind)>,
    k: Seq<char>,
    v: NameView,
)
    ensures
        keys_kept(m, put(m, d, k, v).0),
        has_key(put(m, d, k, v).0, k),
        own_paths(m) && own_path(k, v) ==> own_paths(put(m, d, k, v).0),
{
    lemma_first_key_found(m, k, 0);
    let i = first_key(m, k, 0);
    let r = put(m, d, k, v).0;
    if i >= 0 {
        assert(r[i].0 == k);
        assert forall|x: Seq<char>| #[trigger] has_key(m, x) implies has_key(r, x) by {
            let j = choose|j: int| 0 <= j < m.len() && #[trigger] m[j].0 == x;
            assert(r[j].0 == x);
        }
    } else {
        assert(r[m.len() as int].0 == k);
        assert forall|x: Seq<char>| #[trigger] has_key(m, x) implies has_key(r, x) by {
            let j = choose|j: int| 0 <= j < m.len() && #[trigger] m[j].0 == x;
            assert(r[j].0 == x);
        }
    }
}

/// Binds `name` to `sn` in the table `map`, reporting a name bound twice in `diagnostics`.
fn put_name(
    map: &mut Vec<(String, ScopeName)>,
    name: &String,
    sn: ScopeName,
    diagnostics: &mut Vec<RenderedDiagnostic>,
)
    ensures
        (entries(final(map)@), problems(final(diagnostics)@)) == put(
            entries(old(map)@),
            problems(old(diagnostics)@),
            name@,
            sn@,
        ),
{
    let ghost m = entries(map@);
    let mut i: usize = 0;
    while i < map.len()
        invariant
            i <= map@.len(),
            m == entries(map@),
            forall|j: int| 0 <= j < i ==> m[j].0 != name@,
        ensures
            i <= map@.len(),
            m == entries(map@),
            forall|j: int| 0 <= j < i ==> m[j].0 != name@,
            i < map@.len() ==> m[i as int].0 == name@,
        decreases map@.len() - i,
    {
        if map[i].0 == *name {
            break;
        }
        i = i + 1;
    }
    proof {
        lemma_first_key(m, name@, 0, i as int);
    }
    if i < map.len() {
        let old_start = map[i].1.range.start;
        let old_end = map[i].1.range.end;
        let old_item = map[i].1.item;
        let same = match (old_item, sn.item) {
            (Some(a), Some(b)) => a == b,
            _ => false,
        };
        let range = if same {
            Range { start: sn.range.start, end: sn.range.end }
        } else if sn.range.start > old_start || (sn.range.start == old_start && sn.range.end
            > old_end) {
            Range { start: sn.range.start, end: sn.range.end }
        } else {
            Range { start: old_start, end: old_end }
        };
        let mut message = String::new();
        message.append("the name `");
        message.append(name.as_str());
        message.append("` is defined multiple times");
        proof {
            reveal_strlit("the name `");
            reveal_strlit("` is defined multiple times");
        }
        let ghost d0 = diagnostics@;
        diagnostics.push(
            RenderedDiagnostic { message, range, kind: DiagnosticKind::ModuleError },
        );
        let ghost snv = sn@;
        map.set(i, (name.clone(), sn));
        proof {
            assert(problems(diagnostics@) =~= problems(d0).push(
                (twice_message(name@), range.start as int, range.end as int, DiagnosticKind::ModuleError),
            ));
            assert(entries(map@) =~= m.update(i as int, (name@, snv)));
        }
    } else {
        let ghost snv = sn@;
        map.push((name.clone(), sn));
        proof {
            assert(entries(map@) =~= m.push((name@, snv)));
        }
    }
}

/// What the names of a module look like after an import has bound its names.
pub struct UseState {
    pub values: Seq<(Seq<char>, NameView)>,
    pub types: Seq<(Seq<char>, NameView)>,
    pub globals: Seq<Seq<Seq<char>>>,
    pub diagnostics: Seq<(Seq<char>, int, int, DiagnosticKind)>,
}

/// The names, glob imports and problems, as the contracts see them.
pub open spec fn use_state(
    names: ScopeNames,
    globals: Seq<Vec<String>>,
    diagnostics: Seq<RenderedDiagnostic>,
) -> UseState {
    UseState {
        values: entries(names.values@),
        types: entries(names.types@),
        globals: globals.map_values(|p: Vec<String>| texts(p@)),
        diagnostics: problems(diagnostics),
    }
}

/// Binding `k` to `v` both as a value and as a type.
pub open spec fn bind(st: UseState, k: Seq<char>, v: NameView) -> UseState {
    let (values, d1) = put(st.values, st.diagnostics, k, v);
    let (types, d2) = put(st.types, d1, k, v);
    UseState { values, types, globals: st.globals, diagnostics: d2 }
}

impl ScopeNames {
    pub fn new() -> (r: Self)
        ensures
            r.values@.len() == 0,
            r.types@.len() == 0,
    {
        ScopeNames { values: Vec::new(), types: Vec::new() }
    }

    /// Binds `name` to `sn` both as a value and as a type, reporting a name bound twice.
    pub fn insert_value_type(
        &mut self,
        name: &String,
        sn: ScopeName,
        diagnostics: &mut Vec<RenderedDiagnostic>,
    )
        ensures
            ({
                let st = bind(
                    UseState {
                        values: entries(old(self).values@),
                        types: entries(old(self).types@),
                        globals: Seq::empty(),
                        diagnostics: problems(old(diagnostics)@),
                    },
                    name@,
                    sn@,
                );
                &&& entries(final(self).values@) == st.values
                &&& entries(final(self).types@) == st.types
                &&& problems(final(diagnostics)@) == st.diagnostics
            }),
            keys_kept(entries(old(self).values@), entries(final(self).values@)),
            keys_kept(entries(old(self).types@), entries(final(self).types@)),
            has_key(entries(final(self).values@), name@),
            has_key(entries(final(self).types@), name@),
            own_paths(entries(old(self).values@)) && own_path(name@, sn@) ==> own_paths(
                entries(final(self).values@),
            ),
            own_paths(entries(old(self).types@)) && own_path(name@, sn@) ==> own_paths(
                entries(final(self).types@),
            ),
    {
        let ghost d0 = problems(diagnostics@);
        let ghost v0 = entries(self.values@);
        let ghost t0 = entries(self.types@);
        let ghost snv = sn@;
        let copy = sn.copy();
        put_name(&mut self.values, name, copy, diagnostics);
        let ghost d1 = problems(diagnostics@);
        put_name(&mut self.types, name, sn, diagnostics);
        proof {
            lemma_put_paths(v0, d0, name@, snv);
            lemma_put_paths(t0, d1, name@, snv);
        }
    }
}

/// A node of an import tree. Children are given by their place in the tree's nodes.
pub enum UseNode {
    /// A name, imported as it is (`a`); `name` is `None` where the name is missing.
    UseName { name: Option<String>, range: Range<usize> },
    /// `self` in a list: the path so far, under its last name.
    UseSelfName { range: Range<usize> },
    /// A name and the tree under it (`a::...`).
    UsePath { name: Option<String>, tree: Option<usize> },
    /// A list of trees (`{a, b}`).
    UseTreeList { elements: Vec<usize> },
    /// `root::...`
    UseRootPath { tree: Option<usize> },
    /// `super::...`
    UseSuperPath { tree: Option<usize> },
    /// `*`
    UseGlobal,
}

/// An import tree: its nodes, each child after its parent.
pub struct UseTree {
    pub nodes: Vec<UseNode>,
}

/// Whether `c` is a child that comes after the node `i` of `nodes`.
pub open spec fn child_after(nodes: Seq<UseNode>, i: int, c: int) -> bool {
    i < c < nodes.len()
}

/// What the import tree at node `i` binds, under the path `path`, where `sup` is the path
/// of the module's parents (outermost first): each name is bound as a value and as a type
/// to the path that it stands for, in order; `*` adds the path to the glob imports; `self`
/// binds the last name of the path to the path. Parts with a missing name or tree bind
/// nothing.
pub open spec fn use_binds(
    nodes: Seq<UseNode>,
    i: int,
    path: Seq<Seq<char>>,
    sup: Seq<Seq<char>>,
    st: UseState,
) -> UseState
    decreases 2 * (nodes.len() - i) + 1, 0int,
{
    if !(0 <= i < nodes.len()) {
        st
    } else {
        match nodes[i] {
            UseNode::UseName { name, range } => match name {
                Some(n) => bind(
                    st,
                    n@,
                    NameView {
                        path: path.push(n@),
                        start: range.start as int,
                        end: range.end as int,
                        item: None,
                    },
                ),
                None => st,
            },
            UseNode::UseSelfName { range } => bind(
                st,
                path.last(),
                NameView { path, start: range.start as int, end: range.end as int, item: None },
            ),
            UseNode::UsePath { name, tree } => match (name, tree) {
                (Some(n), Some(c)) => if child_after(nodes, i, c as int) {
                    use_binds(nodes, c as int, path.push(n@), sup, st)
                } else {
                    st
                },
                _ => st,
            },
            UseNode::UseTreeList { elements } => use_binds_list(nodes, i, elements@, 0, path, sup, st),
            UseNode::UseRootPath { tree } => match tree {
                Some(c) => if child_after(nodes, i, c as int) {
                    use_binds(nodes, c as int, path.push("root"@), sup, st)
                } else {
                    st
                },
                None => st,
            },
            UseNode::UseSuperPath { tree } => match tree {
                Some(c) => if child_after(nodes, i, c as int) {
                    use_binds(nodes, c as int, sup, sup, st)
                } else {
                    st
                },
                None => st,
            },
            UseNode::UseGlobal => UseState {
                values: st.values,
                types: st.types,
                globals: st.globals.push(path),
                diagnostics: st.diagnostics,
            },
        }
    }
}

/// What the trees of a list at node `i` bind, from its element `j` on, in order.
pub open spec fn use_binds_list(
    nodes: Seq<UseNode>,
    i: int,
    els: Seq<usize>,
    j: int,
    path: Seq<Seq<char>>,
    sup: Seq<Seq<char>>,
    st: UseState,
) -> UseState
    decreases 2 * (nodes.len() - i), els.len() - j,
{
    if !(0 <= i < nodes.len()) || j < 0 || j >= els.len() {
        st
    } else {
        let next = if child_after(nodes, i, els[j] as int) {
            use_binds(nodes, els[j] as int, path, sup, st)
        } else {
            st
        };
        use_binds_list(nodes, i, els, j + 1, path, sup, next)
    }
}

/// Whether `self` in the import tree at node `i` always has a name to stand for: the path
/// under it is not empty (`has_path` says so of the path at `i`, `has_sup` of the path of
/// the module's parents).
pub open spec fn self_named(nodes: Seq<UseNode>, i: int, has_path: bool, has_sup: bool) -> bool
    decreases 2 * (nodes.len() - i) + 1, 0int,
{
    if !(0 <= i < nodes.len()) {
        true
    } else {
        match nodes[i] {
            UseNode::UseSelfName { .. } => has_path,
            UseNode::UsePath { name, tree } => match (name, tree) {
                (Some(n), Some(c)) => !child_after(nodes, i, c as int) || self_named(
                    nodes,
                    c as int,
                    true,
                    has_sup,
                ),
                _ => true,
            },
            UseNode::UseTreeList { elements } => self_named_list(
                nodes,
                i,
                elements@,
                0,
                has_path,
                has_sup,
            ),
            UseNode::UseRootPath { tree } => match tree {
                Some(c) => !child_after(nodes, i, c as int) || self_named(nodes, c as int, true, has_sup),
                None => true,
            },
            UseNode::UseSuperPath { tree } => match tree {
                Some(c) => !child_after(nodes, i, c as int) || self_named(
                    nodes,
                    c as int,
                    has_sup,
                    has_sup,
                ),
                None => true,
            },
            _ => true,
        }
    }
}

/// Whether `self` always has a name to stand for in the trees of a list at node `i`, from
/// its element `j` on.
pub open spec fn self_named_list(
    nodes: Seq<UseNode>,
    i: int,
    els: Seq<usize>,
    j: int,
    has_path: bool,
    has_sup: bool,
) -> bool
    decreases 2 * (nodes.len() - i), els.len() - j,
{
    if !(0 <= i < nodes.len()) || j < 0 || j >= els.len() {
        true
    } else {
        (!child_after(nodes, i, els[j] as int) || self_named(
            nodes,
            els[j] as int,
            has_path,
            has_sup,
        )) && self_named_list(nodes, i, els, j + 1, has_path, has_sup)
    }
}

/// Binds the names that the import tree at node `i` imports under the path `path`, where
/// `sup` is the path of the module's parents (outermost first): names go to `names`, glob
/// imports to `globals`, names bound twice to `diagnostics`.
pub fn traverse_use_tree(
    tree: &UseTree,
    i: usize,
    path: &Vec<String>,
    sup: &Vec<String>,
    names: &mut ScopeNames,
    globals: &mut Vec<Vec<String>>,
    diagnostics: &mut Vec<RenderedDiagnostic>,
)
    requires
        i < tree.nodes@.len(),
        self_named(tree.nodes@, i as int, path@.len() > 0, sup@.len() > 0),
    ensures
        use_state(*final(names), final(globals)@, final(diagnostics)@) == use_binds(
            tree.nodes@,
            i as int,
            texts(path@),
            texts(sup@),
            use_state(*old(names), old(globals)@, old(diagnostics)@),
        ),
        keys_kept(entries(old(names).values@), entries(final(names).values@)),
        keys_kept(entries(old(names).types@), entries(final(names).types@)),
        own_paths(entries(old(names).values@)) ==> own_paths(entries(final(names).values@)),
        own_paths(entries(old(names).types@)) ==> own_paths(entries(final(names).types@)),
    decreases tree.nodes@.len() - i,
{
    let ghost st0 = use_state(*names, globals@, diagnostics@);
    let ghost n0 = *names;
    match &tree.nodes[i] {
        UseNode::UseName { name, range } => match name {
            Some(n) => {
                let mut p = copy_path(path);
                p.push(n.clone());
                proof {
                    assert(texts(p@) =~= texts(path@).push(n@));
                }
                let sn = ScopeName {
                    path: p,
                    range: Range { start: range.start, end: range.end },
                    item: None,
                };
                proof {
                    assert(own_path(n@, sn@));
                }
                names.insert_value_type(n, sn, diagnostics);
            },
            None => {},
        },
        UseNode::UseSelfName { range } => {
            let p = copy_path(path);
            let last = path[path.len() - 1].clone();
            let sn = ScopeName {
                path: p,
                range: Range { start: range.start, end: range.end },
                item: None,
            };
            proof {
                assert(texts(path@).last() == last@);
                assert(own_path(last@, sn@));
            }
            names.insert_value_type(&last, sn, diagnostics);
        },
        UseNode::UsePath { name, tree: child } => match (name, child) {
            (Some(n), Some(c)) => {
                if i < *c && *c < tree.nodes.len() {
                    let mut p = copy_path(path);
                    p.push(n.clone());
                    proof {
                        assert(texts(p@) =~= texts(path@).push(n@));
                    }
                    traverse_use_tree(tree, *c, &p, sup, names, globals, diagnostics);
                }
            },
            _ => {},
        },
        UseNode::UseTreeList { elements } => {
            let mut j: usize = 0;
            while j < elements.len()
                invariant
                    i < tree.nodes@.len(),
                    tree.nodes@[i as int] == (UseNode::UseTreeList { elements: *elements }),
                    j <= elements@.len(),
                    self_named_list(tree.nodes@, i as int, elements@, j as int, path@.len() > 0, sup@.len() > 0),
                    keys_kept(entries(n0.values@), entries(names.values@)),
                    keys_kept(entries(n0.types@), entries(names.types@)),
                    own_paths(entries(n0.values@)) ==> own_paths(entries(names.values@)),
                    own_paths(entries(n0.types@)) ==> own_paths(entries(names.types@)),
                    use_binds_list(tree.nodes@, i as int, elements@, 0, texts(path@), texts(sup@), st0)
                        == use_binds_list(
                        tree.nodes@,
                        i as int,
                        elements@,
                        j as int,
                        texts(path@),
                        texts(sup@),
                        use_state(*names, globals@, diagnostics@),
                    ),
                decreases elements@.len() - j,
            {
                let c = elements[j];
                if i < c && c < tree.nodes.len() {
                    traverse_use_tree(tree, c, path, sup, names, globals, diagnostics);
                }
                j = j + 1;
            }
        },
        UseNode::UseRootPath { tree: child } => match child {
            Some(c) => {
                if i < *c && *c < tree.nodes.len() {
                    let mut p = copy_path(path);
                    p.push(String::from_str("root"));
                    proof {
                        assert(texts(p@) =~= texts(path@).push("root"@));
                    }
                    traverse_use_tree(tree, *c, &p, sup, names, globals, diagnostics);
                }
            },
            None => {},
        },
        UseNode::UseSuperPath { tree: child } => match child {
            Some(c) => {
                if i < *c && *c < tree.nodes.len() {
                    traverse_use_tree(tree, *c, sup, sup, names, globals, diagnostics);
                }
            },
            None => {},
        },
        UseNode::UseGlobal => {
            let ghost g0 = globals@;
            globals.push(copy_path(path));
            proof {
                assert(globals@.map_values(|p: Vec<String>| texts(p@)) =~= g0.map_values(
                    |p: Vec<String>| texts(p@),
                ).push(texts(path@)));
            }
        },
    }
}

/// A definition of a module: a function, a struct, an enum or a child module, by number.
#[derive(Debug, Clone, Copy, PartialEq, Eq, Structural)]
pub enum ModuleDef {
    Function(u32),
    Struct(u32),
    Enum(u32),
    Module(u32),
}

/// An item that a module declares: its number, its name and its bytes.
pub struct ItemDecl {
    pub id: u32,
    pub name: String,
    pub range: Range<usize>,
}

/// The items of a module, each kind in the order of the source, and its imports (`None`
/// where a `use` item has no tree).
pub struct ModuleItems {
    pub structs: Vec<ItemDecl>,
    pub enums: Vec<ItemDecl>,
    pub functions: Vec<ItemDecl>,
    pub children: Vec<ItemDecl>,
    pub imports: Vec<Option<UseTree>>,
}

/// The names of a module: the items it declares (by name, for values and for types), all
/// the names visible in it (its items and its imports), its glob imports and the names
/// bound twice.
pub struct ModuleScope {
    pub values: Vec<(String, ModuleDef)>,
    pub types: Vec<(String, ModuleDef)>,
    pub scope_values: Vec<(String, ScopeName)>,
    pub scope_types: Vec<(String, ScopeName)>,
    pub global_imports: Vec<Vec<String>>,
    pub diagnostics: Vec<RenderedDiagnostic>,
}

/// The definitions of a table, as the contracts see them.
pub open spec fn defs(m: Seq<(String, ModuleDef)>) -> Seq<(Seq<char>, ModuleDef)> {
    m.map_values(|e: (String, ModuleDef)| (e.0@, e.1))
}

/// Setting `k` to `v` in a table: in place where `k` is there, else at the end.
pub open spec fn def_put(m: Seq<(Seq<char>, ModuleDef)>, k: Seq<char>, v: ModuleDef) -> Seq<(Seq<char>, ModuleDef)> {
    let i = first_key(m, k, 0);
    if i >= 0 {
        m.update(i, (k, v))
    } else {
        m.push((k, v))
    }
}

/// A module's names while its scope is built.
pub struct ScopeState {
    pub values: Seq<(Seq<char>, ModuleDef)>,
    pub types: Seq<(Seq<char>, ModuleDef)>,
    pub names: UseState,
}

/// The kinds of declarations, in the order the scope takes them.
#[derive(Clone, Copy)]
pub enum DeclKind {
    Struct,
    Enum,
    Function,
    Child,
}

/// Declaring the item `d` of the kind `k`: a struct, an enum or a child module is a type, a
/// function a value; each is bound to the path of its own name. (An enum is bound as a
/// struct is, and a child module as a function is.)
pub open spec fn declare(st: ScopeState, d: ItemDecl, k: DeclKind) -> ScopeState {
    let n = d.name@;
    let kind = match k {
        DeclKind::Struct => ModuleDefKind::Struct,
        DeclKind::Enum => ModuleDefKind::Struct,
        DeclKind::Function => ModuleDefKind::Function,
        DeclKind::Child => ModuleDefKind::Function,
    };
    let def = match k {
        DeclKind::Struct => ModuleDef::Struct(d.id),
        DeclKind::Enum => ModuleDef::Enum(d.id),
        DeclKind::Function => ModuleDef::Function(d.id),
        DeclKind::Child => ModuleDef::Module(d.id),
    };
    let v = NameView {
        path: seq![n],
        start: d.range.start as int,
        end: d.range.end as int,
        item: Some(kind),
    };
    if k is Function {
        let (vals, ds) = put(st.names.values, st.names.diagnostics, n, v);
        ScopeState {
            values: def_put(st.values, n, def),
            types: st.types,
            names: UseState {
                values: vals,
                types: st.names.types,
                globals: st.names.globals,
                diagnostics: ds,
            },
        }
    } else {
        let (tys, ds) = put(st.names.types, st.names.diagnostics, n, v);
        ScopeState {
            values: st.values,
            types: def_put(st.types, n, def),
            names: UseState {
                values: st.names.values,
                types: tys,
                globals: st.names.globals,
                diagnostics: ds,
            },
        }
    }
}

/// Declaring the items `ds`, in order.
pub open spec fn declare_all(st: ScopeState, ds: Seq<ItemDecl>, k: DeclKind) -> ScopeState
    decreases ds.len(),
{
    if ds.len() == 0 {
        st
    } else {
        declare(declare_all(st, ds.drop_last(), k), ds.last(), k)
    }
}

/// Binding the names of the imports `ims`, in order, each from an empty path.
pub open spec fn import_all(st: ScopeState, ims: Seq<Option<UseTree>>, sup: Seq<Seq<char>>) -> ScopeState
    decreases ims.len(),
{
    if ims.len() == 0 {
        st
    } else {
        let s1 = import_all(st, ims.drop_last(), sup);
        match ims.last() {
            Some(t) => ScopeState {
                values: s1.values,
                types: s1.types,
                names: use_binds(t.nodes@, 0, Seq::empty(), sup, s1.names),
            },
            None => s1,
        }
    }
}

/// The scope of a module with the items `items`, where `sup` is the path of its parents:
/// its structs, enums, functions and child modules are declared in turn, then its imports
/// bind their names.
pub open spec fn scope_of(items: ModuleItems, sup: Seq<Seq<char>>) -> ScopeState {
    let empty = ScopeState {
        values: Seq::empty(),
        types: Seq::empty(),
        names: UseState {
            values: Seq::empty(),
            types: Seq::empty(),
            globals: Seq::empty(),
            diagnostics: Seq::empty(),
        },
    };
    let s1 = declare_all(empty, items.structs@, DeclKind::Struct);
    let s2 = declare_all(s1, items.enums@, DeclKind::Enum);
    let s3 = declare_all(s2, items.functions@, DeclKind::Function);
    let s4 = declare_all(s3, items.children@, DeclKind::Child);
    import_all(s4, items.imports@, sup)
}

/// A module's names, as the contracts see them.
pub open spec fn scope_view(r: ModuleScope) -> ScopeState {
    ScopeState {
        values: defs(r.values@),
        types: defs(r.types@),
        names: UseState {
            values: entries(r.scope_values@),
            types: entries(r.scope_types@),
            globals: r.global_imports@.map_values(|p: Vec<String>| texts(p@)),
            diagnostics: problems(r.diagnostics@),
        },
    }
}

/// Sets `name` to `def` in the table `map`, in place where it is there.
fn put_def(map: &mut Vec<(String, ModuleDef)>, name: &String, def: ModuleDef)
    ensures
        defs(final(map)@) == def_put(defs(old(map)@), name@, def),
{
    let ghost m = defs(map@);
    let mut i: usize = 0;
    while i < map.len()
        invariant
            i <= map@.len(),
            m == defs(map@),
            forall|j: int| 0 <= j < i ==> m[j].0 != name@,
        ensures
            i <= map@.len(),
            m == defs(map@),
            forall|j: int| 0 <= j < i ==> m[j].0 != name@,
            i < map@.len() ==> m[i as int].0 == name@,
        decreases map@.len() - i,
    {
        if map[i].0 == *name {
            break;
        }
        i = i + 1;
    }
    proof {
        lemma_first_key(m, name@, 0, i as int);
    }
    if i < map.len() {
        map.set(i, (name.clone(), def));
        proof {
            assert(defs(map@) =~= m.update(i as int, (name@, def)));
        }
    } else {
        map.push((name.clone(), def));
        proof {
            assert(defs(map@) =~= m.push((name@, def)));
        }
    }
}

/// Declares the items `ds` of the kind `k`, in order.
fn declare_items(
    ds: &Vec<ItemDecl>,
    k: DeclKind,
    r: &mut ModuleScope,
)
    ensures
        scope_view(*final(r)) == declare_all(scope_view(*old(r)), ds@, k),
        keys_kept(entries(old(r).scope_values@), entries(final(r).scope_values@)),
        keys_kept(entries(old(r).scope_types@), entries(final(r).scope_types@)),
        own_paths(entries(old(r).scope_values@)) ==> own_paths(entries(final(r).scope_values@)),
        own_paths(entries(old(r).scope_types@)) ==> own_paths(entries(final(r).scope_types@)),
        forall|j: int|
            0 <= j < ds@.len() ==> has_key(
                if k is Function {
                    entries(final(r).scope_values@)
                } else {
                    entries(final(r).scope_types@)
                },
                (#[trigger] ds@[j]).name@,
            ),
{
    let ghost st0 = scope_view(*r);
    let ghost r0 = *r;
    let mut j: usize = 0;
    proof {
        assert(ds@.take(0) =~= Seq::<ItemDecl>::empty());
    }
    while j < ds.len()
        invariant
            j <= ds@.len(),
            scope_view(*r) == declare_all(st0, ds@.take(j as int), k),
            keys_kept(entries(r0.scope_values@), entries(r.scope_values@)),
            keys_kept(entries(r0.scope_types@), entries(r.scope_types@)),
            own_paths(entries(r0.scope_values@)) ==> own_paths(entries(r.scope_values@)),
            own_paths(entries(r0.scope_types@)) ==> own_paths(entries(r.scope_types@)),
            forall|jj: int|
                0 <= jj < j ==> has_key(
                    if k is Function {
                        entries(r.scope_values@)
                    } else {
                        entries(r.scope_types@)
                    },
                    (#[trigger] ds@[jj]).name@,
                ),
        decreases ds@.len() - j,
    {
        let d = &ds[j];
        let ghost before = scope_view(*r);
        let kind = match k {
            DeclKind::Struct => ModuleDefKind::Struct,
            DeclKind::Enum => ModuleDefKind::Struct,
            DeclKind::Function => ModuleDefKind::Function,
            DeclKind::Child => ModuleDefKind::Function,
        };
        let def = match k {
            DeclKind::Struct => ModuleDef::Struct(d.id),
            DeclKind::Enum => ModuleDef::Enum(d.id),
            DeclKind::Function => ModuleDef::Function(d.id),
            DeclKind::Child => ModuleDef::Module(d.id),
        };
        let mut path: Vec<String> = Vec::new();
        path.push(d.name.clone());
        proof {
            assert(texts(path@) =~= seq![d.name@]);
        }
        let sn = ScopeName {
            path,
            range: Range { start: d.range.start, end: d.range.end },
            item: Some(kind),
        };
        let ghost vals0 = entries(r.scope_values@);
        let ghost tys0 = entries(r.scope_types@);
        let ghost d0 = problems(r.diagnostics@);
        let ghost snv = sn@;
        proof {
            assert(own_path(d.name@, snv));
        }
        match k {
            DeclKind::Function => {
                put_name(&mut r.scope_values, &d.name, sn, &mut r.diagnostics);
                put_def(&mut r.values, &d.name, def);
                proof {
                    lemma_put_paths(vals0, d0, d.name@, snv);
                }
            },
            _ => {
                put_name(&mut r.scope_types, &d.name, sn, &mut r.diagnostics);
                put_def(&mut r.types, &d.name, def);
                proof {
                    lemma_put_paths(tys0, d0, d.name@, snv);
                }
            },
        }
        proof {
            assert(ds@.take(j + 1).drop_last() =~= ds@.take(j as int));
            assert(scope_view(*r) == declare(before, ds@[j as int], k));
        }
        j = j + 1;
    }
    proof {
        assert(ds@.take(ds@.len() as int) =~= ds@);
    }
}

/// The scope of a module with the items `items`, where `sup` is the path of its parents
/// (outermost first): its structs, enums, functions and child modules are declared in
/// turn, then its imports bind their names; a name bound twice is reported.
pub fn module_scope(items: &ModuleItems, sup: &Vec<String>) -> (r: ModuleScope)
    requires
        forall|k: int|
            0 <= k < items.imports@.len() && (#[trigger] items.imports@[k] is Some) ==> self_named(
                items.imports@[k]->0.nodes@,
                0,
                false,
                sup@.len() > 0,
            ),
    ensures
        scope_view(r) == scope_of(*items, texts(sup@)),
        own_paths(entries(r.scope_values@)),
        own_paths(entries(r.scope_types@)),
        forall|j: int|
            0 <= j < items.structs@.len() ==> has_key(
                entries(r.scope_types@),
                (#[trigger] items.structs@[j]).name@,
            ),
        forall|j: int|
            0 <= j < items.enums@.len() ==> has_key(
                entries(r.scope_types@),
                (#[trigger] items.enums@[j]).name@,
            ),
        forall|j: int|
            0 <= j < items.functions@.len() ==> has_key(
                entries(r.scope_values@),
                (#[trigger] items.functions@[j]).name@,
            ),
        forall|j: int|
            0 <= j < items.children@.len() ==> has_key(
                entries(r.scope_types@),
                (#[trigger] items.children@[j]).name@,
            ),
{
    let mut r = ModuleScope {
        values: Vec::new(),
        types: Vec::new(),
        scope_values: Vec::new(),
        scope_types: Vec::new(),
        global_imports: Vec::new(),
        diagnostics: Vec::new(),
    };
    let ghost empty = ScopeState {
        values: Seq::empty(),
        types: Seq::empty(),
        names: UseState {
            values: Seq::empty(),
            types: Seq::empty(),
            globals: Seq::empty(),
            diagnostics: Seq::empty(),
        },
    };
    proof {
        assert(r.global_imports@.map_values(|p: Vec<String>| texts(p@)) =~= Seq::<Seq<Seq<char>>>::empty());
        assert(defs(r.values@) =~= Seq::<(Seq<char>, ModuleDef)>::empty());
        assert(defs(r.types@) =~= Seq::<(Seq<char>, ModuleDef)>::empty());
        assert(entries(r.scope_values@) =~= Seq::<(Seq<char>, NameView)>::empty());
        assert(entries(r.scope_types@) =~= Seq::<(Seq<char>, NameView)>::empty());
        assert(problems(r.diagnostics@) =~= Seq::<(Seq<char>, int, int, DiagnosticKind)>::empty());
        assert(scope_view(r) == empty);
    }
    declare_items(&items.structs, DeclKind::Struct, &mut r);
    let ghost r1 = r;
    declare_items(&items.enums, DeclKind::Enum, &mut r);
    let ghost r2 = r;
    declare_items(&items.functions, DeclKind::Function, &mut r);
    let ghost r3 = r;
    declare_items(&items.children, DeclKind::Child, &mut r);
    let ghost s4 = scope_view(r);
    let ghost r4 = r;
    proof {
        assert forall|j: int| 0 <= j < items.structs@.len() implies has_key(
            entries(r4.scope_types@),
            (#[trigger] items.structs@[j]).name@,
        ) by {
            assert(has_key(entries(r1.scope_types@), items.structs@[j].name@));
            assert(has_key(entries(r2.scope_types@), items.structs@[j].name@));
            assert(has_key(entries(r3.scope_types@), items.structs@[j].name@));
        }
        assert forall|j: int| 0 <= j < items.enums@.len() implies has_key(
            entries(r4.scope_types@),
            (#[trigger] items.enums@[j]).name@,
        ) by {
            assert(has_key(entries(r2.scope_types@), items.enums@[j].name@));
            assert(has_key(entries(r3.scope_types@), items.enums@[j].name@));
        }
        assert forall|j: int| 0 <= j < items.functions@.len() implies has_key(
            entries(r4.scope_values@),
            (#[trigger] items.functions@[j]).name@,
        ) by {
            assert(has_key(entries(r3.scope_values@), items.functions@[j].name@));
        }
    }
    let mut j: usize = 0;
    proof {
        assert(items.imports@.take(0) =~= Seq::<Option<UseTree>>::empty());
    }
    while j < items.imports.len()
        invariant
            j <= items.imports@.len(),
            forall|k: int|
                0 <= k < items.imports@.len() && (#[trigger] items.imports@[k] is Some) ==> self_named(
                    items.imports@[k]->0.nodes@,
                    0,
                    false,
                    sup@.len() > 0,
                ),
            scope_view(r) == import_all(s4, items.imports@.take(j as int), texts(sup@)),
            keys_kept(entries(r4.scope_values@), entries(r.scope_values@)),
            keys_kept(entries(r4.scope_types@), entries(r.scope_types@)),
            own_paths(entries(r.scope_values@)),
            own_paths(entries(r.scope_types@)),
        decreases items.imports@.len() - j,
    {
        let ghost before = scope_view(r);
        match &items.imports[j] {
            Some(t) => {
                if t.nodes.len() > 0 {
                    let mut names = ScopeNames { values: Vec::new(), types: Vec::new() };
                    std::mem::swap(&mut names.values, &mut r.scope_values);
                    std::mem::swap(&mut names.types, &mut r.scope_types);
                    let empty: Vec<String> = Vec::new();
                    proof {
                        assert(texts(empty@) =~= Seq::<Seq<char>>::empty());
                    }
                    traverse_use_tree(t, 0, &empty, sup, &mut names, &mut r.global_imports, &mut r.diagnostics);
                    std::mem::swap(&mut names.values, &mut r.scope_values);
                    std::mem::swap(&mut names.types, &mut r.scope_types);
                }
            },
            None => {},
        }
        proof {
            assert(items.imports@.take(j + 1).drop_last() =~= items.imports@.take(j as int));
        }
        j = j + 1;
    }
    proof {
        assert(items.imports@.take(items.imports@.len() as int) =~= items.imports@);
    }
    r
}

/// Whether every name of both tables stands for its own path.
pub open spec fn names_ok(st: UseState) -> bool {
    own_paths(st.values) && own_paths(st.types)
}

/// Whether every name that `a` binds in either table, `b` binds there too.
pub open spec fn names_kept(a: UseState, b: UseState) -> bool {
    keys_kept(a.values, b.values) && keys_kept(a.types, b.types)
}

proof fn lemma_keys_trans(
    a: Seq<(Seq<char>, NameView)>,
    b: Seq<(Seq<char>, NameView)>,
    c: Seq<(Seq<char>, NameView)>,
)
    requires
        keys_kept(a, b),
        keys_kept(b, c),
    ensures
        keys_kept(a, c),
{
    assert forall|k: Seq<char>| #[trigger] has_key(a, k) implies has_key(c, k) by {
        assert(has_key(b, k));
    }
}

proof fn lemma_names_trans(a: UseState, b: UseState, c: UseState)
    requires
        names_kept(a, b),
        names_kept(b, c),
    ensures
        names_kept(a, c),
{
    lemma_keys_trans(a.values, b.values, c.values);
    lemma_keys_trans(a.types, b.types, c.types);
}

proof fn lemma_keys_refl(a: Seq<(Seq<char>, NameView)>)
    ensures
        keys_kept(a, a),
{
}

/// Binding a name as a value and a type keeps every name bound, and keeps every name
/// standing for its own path where the new one does.
pub proof fn lemma_bind_names(st: UseState, k: Seq<char>, v: NameView)
    ensures
        names_kept(st, bind(st, k, v)),
        has_key(bind(st, k, v).values, k),
        has_key(bind(st, k, v).types, k),
        names_ok(st) && own_path(k, v) ==> names_ok(bind(st, k, v)),
{
    lemma_put_paths(st.values, st.diagnostics, k, v);
    let d1 = put(st.values, st.diagnostics, k, v).1;
    lemma_put_paths(st.types, d1, k, v);
}

/// The names that an import tree binds each stand for a path that ends in them, and no
/// name bound before is lost.
pub proof fn lemma_use_binds_names(
    nodes: Seq<UseNode>,
    i: int,
    path: Seq<Seq<char>>,
    sup: Seq<Seq<char>>,
    st: UseState,
)
    requires
        self_named(nodes, i, path.len() > 0, sup.len() > 0),
    ensures
        names_kept(st, use_binds(nodes, i, path, sup, st)),
        names_ok(st) ==> names_ok(use_binds(nodes, i, path, sup, st)),
    decreases 2 * (nodes.len() - i) + 1, 0int,
{
    lemma_keys_refl(st.values);
    lemma_keys_refl(st.types);
    if 0 <= i < nodes.len() {
        match nodes[i] {
            UseNode::UseName { name, range } => match name {
                Some(n) => {
                    lemma_bind_names(
                        st,
                        n@,
                        NameView {
                            path: path.push(n@),
                            start: range.start as int,
                            end: range.end as int,
                            item: None,
                        },
                    );
                },
                None => {},
            },
            UseNode::UseSelfName { range } => {
                lemma_bind_names(
                    st,
                    path.last(),
                    NameView { path, start: range.start as int, end: range.end as int, item: None },
                );
            },
            UseNode::UsePath { name, tree } => match (name, tree) {
                (Some(n), Some(c)) => {
                    if child_after(nodes, i, c as int) {
                        lemma_use_binds_names(nodes, c as int, path.push(n@), sup, st);
                    }
                },
                _ => {},
            },
            UseNode::UseTreeList { elements } => {
                lemma_use_binds_list_names(nodes, i, elements@, 0, path, sup, st);
            },
            UseNode::UseRootPath { tree } => match tree {
                Some(c) => {
                    if child_after(nodes, i, c as int) {
                        lemma_use_binds_names(nodes, c as int, path.push("root"@), sup, st);
                    }
                },
                None => {},
            },
            UseNode::UseSuperPath { tree } => match tree {
                Some(c) => {
                    if child_after(nodes, i, c as int) {
                        lemma_use_binds_names(nodes, c as int, sup, sup, st);
                    }
                },
                None => {},
            },
            UseNode::UseGlobal => {},
        }
    }
}

/// The names that the trees of a list bind each stand for a path that ends in them, and
/// no name bound before is lost.
pub proof fn lemma_use_binds_list_names(
    nodes: Seq<UseNode>,
    i: int,
    els: Seq<usize>,
    j: int,
    path: Seq<Seq<char>>,
    sup: Seq<Seq<char>>,
    st: UseState,
)
    requires
        self_named_list(nodes, i, els, j, path.len() > 0, sup.len() > 0),
    ensures
        names_kept(st, use_binds_list(nodes, i, els, j, path, sup, st)),
        names_ok(st) ==> names_ok(use_binds_list(nodes, i, els, j, path, sup, st)),
    decreases 2 * (nodes.len() - i), els.len() - j,
{
    lemma_keys_refl(st.values);
    lemma_keys_refl(st.types);
    if 0 <= i < nodes.len() && 0 <= j < els.len() {
        let next = if child_after(nodes, i, els[j] as int) {
            use_binds(nodes, els[j] as int, path, sup, st)
        } else {
            st
        };
        if child_after(nodes, i, els[j] as int) {
            lemma_use_binds_names(nodes, els[j] as int, path, sup, st);
        }
        lemma_use_binds_list_names(nodes, i, els, j + 1, path, sup, next);
        lemma_names_trans(st, next, use_binds_list(nodes, i, els, j + 1, path, sup, next));
    }
}

/// The table of the names that declarations of the kind `k` bind.
pub open spec fn decl_table(st: ScopeState, k: DeclKind) -> Seq<(Seq<char>, NameView)> {
    if k is Function {
        st.names.values
    } else {
        st.names.types
    }
}

/// Declaring items keeps every name bound, binds each item's name, and keeps every name
/// standing for its own path (an item for the path of its name alone).
pub proof fn lemma_declare_all_names(st: ScopeState, ds: Seq<ItemDecl>, k: DeclKind)
    ensures
        names_kept(st.names, declare_all(st, ds, k).names),
        names_ok(st.names) ==> names_ok(declare_all(st, ds, k).names),
        forall|j: int| 0 <= j < ds.len() ==> has_key(decl_table(declare_all(st, ds, k), k), (#[trigger] ds[j]).name@),
    decreases ds.len(),
{
    if ds.len() == 0 {
        lemma_keys_refl(st.names.values);
        lemma_keys_refl(st.names.types);
    } else {
        let s1 = declare_all(st, ds.drop_last(), k);
        lemma_declare_all_names(st, ds.drop_last(), k);
        let d = ds.last();
        let n = d.name@;
        let kind = match k {
            DeclKind::Struct => ModuleDefKind::Struct,
            DeclKind::Enum => ModuleDefKind::Struct,
            DeclKind::Function => ModuleDefKind::Function,
            DeclKind::Child => ModuleDefKind::Function,
        };
        let v = NameView {
            path: seq![d.name@],
            start: d.range.start as int,
            end: d.range.end as int,
            item: Some(kind),
        };
        let s2 = declare(s1, d, k);
        lemma_put_paths(s1.names.values, s1.names.diagnostics, n, v);
        lemma_put_paths(s1.names.types, s1.names.diagnostics, n, v);
        lemma_keys_refl(s1.names.values);
        lemma_keys_refl(s1.names.types);
        assert(names_kept(s1.names, s2.names));
        lemma_names_trans(st.names, s1.names, s2.names);
        assert forall|j: int| 0 <= j < ds.len() implies has_key(decl_table(s2, k), (#[trigger] ds[j]).name@) by {
            if j < ds.len() - 1 {
                assert(ds.drop_last()[j] == ds[j]);
                assert(has_key(decl_table(s1, k), ds[j].name@));
            }
        }
    }
}

/// Binding the names of imports keeps every name bound and every name standing for its
/// own path.
pub proof fn lemma_import_all_names(st: ScopeState, ims: Seq<Option<UseTree>>, sup: Seq<Seq<char>>)
    requires
        forall|k: int|
            0 <= k < ims.len() && (#[trigger] ims[k] is Some) ==> self_named(ims[k]->0.nodes@, 0, false, sup.len() > 0),
    ensures
        names_kept(st.names, import_all(st, ims, sup).names),
        names_ok(st.names) ==> names_ok(import_all(st, ims, sup).names),
    decreases ims.len(),
{
    if ims.len() == 0 {
        lemma_keys_refl(st.names.values);
        lemma_keys_refl(st.names.types);
    } else {
        let s1 = import_all(st, ims.drop_last(), sup);
        assert forall|k: int|
            0 <= k < ims.drop_last().len() && (#[trigger] ims.drop_last()[k] is Some) implies self_named(
            ims.drop_last()[k]->0.nodes@,
            0,
            false,
            sup.len() > 0,
        ) by {
            assert(ims.drop_last()[k] == ims[k]);
        }
        lemma_import_all_names(st, ims.drop_last(), sup);
        match ims.last() {
            Some(t) => {
                assert(ims[ims.len() - 1] is Some);
                lemma_use_binds_names(t.nodes@, 0, Seq::empty(), sup, s1.names);
                lemma_names_trans(st.names, s1.names, import_all(st, ims, sup).names);
            },
            None => {},
        }
    }
}

/// A module's scope: every name in it stands for a path that ends in that name (a name
/// the module declares itself, for the path of its own name alone), and every struct,
/// enum and child module is bound as a type, every function as a value.
pub proof fn lemma_scope_of_names(items: ModuleItems, sup: Seq<Seq<char>>)
    requires
        forall|k: int|
            0 <= k < items.imports@.len() && (#[trigger] items.imports@[k] is Some) ==> self_named(
                items.imports@[k]->0.nodes@,
                0,
                false,
                sup.len() > 0,
            ),
    ensures
        own_paths(scope_of(items, sup).names.values),
        own_paths(scope_of(items, sup).names.types),
        forall|j: int|
            0 <= j < items.structs@.len() ==> has_key(
                scope_of(items, sup).names.types,
                (#[trigger] items.structs@[j]).name@,
            ),
        forall|j: int|
            0 <= j < items.enums@.len() ==> has_key(
                scope_of(items, sup).names.types,
                (#[trigger] items.enums@[j]).name@,
            ),
        forall|j: int|
            0 <= j < items.functions@.len() ==> has_key(
                scope_of(items, sup).names.values,
                (#[trigger] items.functions@[j]).name@,
            ),
        forall|j: int|
            0 <= j < items.children@.len() ==> has_key(
                scope_of(items, sup).names.types,
                (#[trigger] items.children@[j]).name@,
            ),
{
    let empty = ScopeState {
        values: Seq::empty(),
        types: Seq::empty(),
        names: UseState {
            values: Seq::empty(),
            types: Seq::empty(),
            globals: Seq::empty(),
            diagnostics: Seq::empty(),
        },
    };
    let s1 = declare_all(empty, items.structs@, DeclKind::Struct);
    let s2 = declare_all(s1, items.enums@, DeclKind::Enum);
    let s3 = declare_all(s2, items.functions@, DeclKind::Function);
    let s4 = declare_all(s3, items.children@, DeclKind::Child);
    let s5 = import_all(s4, items.imports@, sup);
    assert(names_ok(empty.names));
    lemma_declare_all_names(empty, items.structs@, DeclKind::Struct);
    lemma_declare_all_names(s1, items.enums@, DeclKind::Enum);
    lemma_declare_all_names(s2, items.functions@, DeclKind::Function);
    lemma_declare_all_names(s3, items.children@, DeclKind::Child);
    lemma_import_all_names(s4, items.imports@, sup);
    lemma_names_trans(s1.names, s2.names, s3.names);
    lemma_names_trans(s1.names, s3.names, s4.names);
    lemma_names_trans(s1.names, s4.names, s5.names);
    lemma_names_trans(s2.names, s3.names, s4.names);
    lemma_names_trans(s2.names, s4.names, s5.names);
    lemma_names_trans(s3.names, s4.names, s5.names);
    assert forall|j: int| 0 <= j < items.structs@.len() implies has_key(
        s5.names.types,
        (#[trigger] items.structs@[j]).name@,
    ) by {
        assert(has_key(decl_table(s1, DeclKind::Struct), items.structs@[j].name@));
    }
    assert forall|j: int| 0 <= j < items.enums@.len() implies has_key(
        s5.names.types,
        (#[trigger] items.enums@[j]).name@,
    ) by {
        assert(has_key(decl_table(s2, DeclKind::Enum), items.enums@[j].name@));
    }
    assert forall|j: int| 0 <= j < items.functions@.len() implies has_key(
        s5.names.values,
        (#[trigger] items.functions@[j]).name@,
    ) by {
        assert(has_key(decl_table(s3, DeclKind::Function), items.functions@[j].name@));
    }
    assert forall|j: int| 0 <= j < items.children@.len() implies has_key(
        s5.names.types,
        (#[trigger] items.children@[j]).name@,
    ) by {
        assert(has_key(decl_table(s4, DeclKind::Child), items.children@[j].name@));
    }
}

} // verus!
