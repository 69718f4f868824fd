//! The scopes of the names that patterns bind inside a function body.
use std::collections::HashMap;
use vstd::prelude::*;

verus! {

broadcast use vstd::std_specs::hash::group_hash_axioms;

/// A pattern of a body: a name it binds, `_`, or a path.
pub enum PatKind {
    Name(String),
    Wildcard,
    Path,
}

/// A statement of a block: `let` with its pattern and value, or an expression. Patterns and
/// expressions are given by their place in the body.
pub enum StmtKind {
    Let { pat: usize, expr: usize },
    Expr { expr: usize },
}

/// What follows `else`: a block, or another `if` (by its place among the body's `if`s).
pub enum ElseBranch {
    Block(usize),
    If(usize),
}

/// An `if` with its condition, its branch and what follows `else`.
pub struct IfExpr {
    pub cond: usize,
    pub if_branch: usize,
    pub else_branch: Option<ElseBranch>,
}

/// An expression of a body; the expressions in it are given by their place in the body.
pub enum ExprKind {
    Unit,
    Lit,
    Path,
    SelfExpr,
    As { expr: usize },
    Is { expr: usize, pat: usize },
    IsNot { expr: usize, pat: usize },
    Closure { params: Vec<usize>, body: usize },
    Field { expr: usize },
    Method { expr: usize, args: Vec<usize> },
    Record { fields: Vec<usize> },
    Binary { lhs: usize, rhs: usize },
    Unary { expr: usize },
    Index { base: usize, index: usize },
    Call { func: usize, args: Vec<usize> },
    Block { stmts: Vec<StmtKind> },
    Paren(usize),
    Return(usize),
    If(usize),
    Loop { block: usize },
    While { cond: usize, block: usize },
    For { loop_expr: usize, iterable: usize, block: usize },
    Tuple { exprs: Vec<usize> },
}

/// A function body: its expressions (each one's parts after it), patterns and `if`s (each
/// `else if` after the `if` it follows).
pub struct Body {
    pub exprs: Vec<ExprKind>,
    pub pats: Vec<PatKind>,
    pub ifs: Vec<IfExpr>,
}

/// A name bound in a scope, with the pattern that binds it.
pub struct ScopeEntry {
    pub name: String,
    pub pattern: usize,
}

/// A scope: the scope it is in, and the names bound in it, in order.
pub struct ScopeData {
    pub parent: Option<usize>,
    pub entries: Vec<ScopeEntry>,
}

/// The scopes of a body and the scope of each expression.
pub struct ExprScopes {
    pub scopes: Vec<ScopeData>,
    pub scope_by_expr: HashMap<usize, usize>,
}

/// The scopes of a body, as the contracts see them.
pub struct ScopesView {
    pub scopes: Seq<(Option<usize>, Seq<(Seq<char>, usize)>)>,
    pub by_expr: Map<usize, usize>,
}

/// A scope, as the contracts see it.
pub open spec fn scope_view(d: ScopeData) -> (Option<usize>, Seq<(Seq<char>, usize)>) {
    (d.parent, d.entries@.map_values(|x: ScopeEntry| (x.name@, x.pattern)))
}

/// The scopes, as the contracts see them.
pub open spec fn scopes_view(s: ExprScopes) -> ScopesView {
    ScopesView {
        scopes: s.scopes@.map_values(|d: ScopeData| scope_view(d)),
        by_expr: s.scope_by_expr@,
    }
}

/// A new scope in `parent`, with no names yet.
pub open spec fn with_scope(st: ScopesView, parent: int) -> ScopesView {
    ScopesView { scopes: st.scopes.push((Some(parent as usize), Seq::empty())), by_expr: st.by_expr }
}

/// The pattern `p` binds its name, if it is a name, in the scope `scope`.
pub open spec fn bind_pat(b: Body, p: int, scope: int, st: ScopesView) -> ScopesView {
    if 0 <= p < b.pats@.len() && 0 <= scope < st.scopes.len() {
        match b.pats@[p] {
            PatKind::Name(n) => ScopesView {
                scopes: st.scopes.update(
                    scope,
                    (st.scopes[scope].0, st.scopes[scope].1.push((n@, p as usize))),
                ),
                by_expr: st.by_expr,
            },
            _ => st,
        }
    } else {
        st
    }
}

/// The patterns `ps`, from the `j`th on, bind their names in the scope `scope`, in order.
pub open spec fn bind_pats(b: Body, ps: Seq<usize>, j: int, scope: int, st: ScopesView) -> ScopesView
    decreases ps.len() - j,
{
    if j < 0 || j >= ps.len() {
        st
    } else {
        bind_pats(b, ps, j + 1, scope, bind_pat(b, ps[j] as int, scope, st))
    }
}

/// The expression `c` inside the expression `e` is walked (it comes after `e`).
pub open spec fn walk_in(b: Body, e: int, c: int, scope: int, st: ScopesView) -> ScopesView
    decreases b.exprs@.len() - e, 0int, 0int,
{
    if 0 <= e < c < b.exprs@.len() {
        walk(b, c, scope, st)
    } else {
        st
    }
}

/// Walking the expression `e` in the scope `scope`: `e` is in `scope`, a closure and a
/// block open a new scope in it (a closure's parameters and a block's `let`s bind their
/// names there), `is` and `!is` bind their pattern's names in `scope`, and every expression
/// inside is walked, in order.
pub open spec fn walk(b: Body, e: int, scope: int, st0: ScopesView) -> ScopesView
    decreases b.exprs@.len() - e, 4int, 0int,
{
    if !(0 <= e < b.exprs@.len()) {
        st0
    } else {
        let st = ScopesView { scopes: st0.scopes, by_expr: st0.by_expr.insert(e as usize, scope as usize) };
        match b.exprs@[e] {
            ExprKind::Unit => st,
            ExprKind::Lit => st,
            ExprKind::Path => st,
            ExprKind::SelfExpr => st,
            ExprKind::As { expr } => walk_in(b, e, expr as int, scope, st),
            ExprKind::Is { expr, pat } => bind_pat(b, pat as int, scope, walk_in(b, e, expr as int, scope, st)),
            ExprKind::IsNot { expr, pat } => bind_pat(b, pat as int, scope, walk_in(b, e, expr as int, scope, st)),
            ExprKind::Closure { params, body } => {
                let inner = st.scopes.len() as int;
                walk_in(b, e, body as int, inner, bind_pats(b, params@, 0, inner, with_scope(st, scope)))
            },
            ExprKind::Field { expr } => walk_in(b, e, expr as int, scope, st),
            ExprKind::Method { expr, args } => walk_list(b, e, args@, 0, scope, walk_in(b, e, expr as int, scope, st)),
            ExprKind::Record { fields } => walk_list(b, e, fields@, 0, scope, st),
            ExprKind::Binary { lhs, rhs } => walk_in(b, e, rhs as int, scope, walk_in(b, e, lhs as int, scope, st)),
            ExprKind::Unary { expr } => walk_in(b, e, expr as int, scope, st),
            ExprKind::Index { base, index } => walk_in(b, e, index as int, scope, walk_in(b, e, base as int, scope, st)),
            ExprKind::Call { func, args } => walk_list(b, e, args@, 0, scope, walk_in(b, e, func as int, scope, st)),
            ExprKind::Block { stmts } => {
                let inner = st.scopes.len() as int;
                walk_stmts(b, e, stmts@, 0, inner, with_scope(st, scope))
            },
            ExprKind::Paren(x) => walk_in(b, e, x as int, scope, st),
            ExprKind::Return(x) => walk_in(b, e, x as int, scope, st),
            ExprKind::If(i) => walk_if(b, e, i as int, scope, st),
            ExprKind::Loop { block } => walk_in(b, e, block as int, scope, st),
            ExprKind::While { cond, block } => walk_in(b, e, block as int, scope, walk_in(b, e, cond as int, scope, st)),
            ExprKind::For { loop_expr, iterable, block } => walk_in(
                b,
                e,
                block as int,
                scope,
                walk_in(b, e, iterable as int, scope, walk_in(b, e, loop_expr as int, scope, st)),
            ),
            ExprKind::Tuple { exprs } => walk_list(b, e, exprs@, 0, scope, st),
        }
    }
}

/// Walking the expressions `cs` inside `e`, from the `j`th on, in order.
pub open spec fn walk_list(b: Body, e: int, cs: Seq<usize>, j: int, scope: int, st: ScopesView) -> ScopesView
    decreases b.exprs@.len() - e, 2int, cs.len() - j,
{
    if !(0 <= e < b.exprs@.len()) || j < 0 || j >= cs.len() {
        st
    } else {
        walk_list(b, e, cs, j + 1, scope, walk_in(b, e, cs[j] as int, scope, st))
    }
}

/// Walking the statements `ss` of a block `e`, from the `j`th on, in order: a `let` binds
/// its pattern's names and then its value is walked.
pub open spec fn walk_stmts(b: Body, e: int, ss: Seq<StmtKind>, j: int, scope: int, st: ScopesView) -> ScopesView
    decreases b.exprs@.len() - e, 2int, ss.len() - j,
{
    if !(0 <= e < b.exprs@.len()) || j < 0 || j >= ss.len() {
        st
    } else {
        let next = match ss[j] {
            StmtKind::Let { pat, expr } => walk_in(b, e, expr as int, scope, bind_pat(b, pat as int, scope, st)),
            StmtKind::Expr { expr } => walk_in(b, e, expr as int, scope, st),
        };
        walk_stmts(b, e, ss, j + 1, scope, next)
    }
}

/// Walking the `if` `i` inside `e`: its condition, its branch, then what follows `else`.
pub open spec fn walk_if(b: Body, e: int, i: int, scope: int, st: ScopesView) -> ScopesView
    decreases b.exprs@.len() - e, 1int, b.ifs@.len() - i,
{
    if !(0 <= e < b.exprs@.len()) || !(0 <= i < b.ifs@.len()) {
        st
    } else {
        let f = b.ifs@[i];
        let st2 = walk_in(b, e, f.if_branch as int, scope, walk_in(b, e, f.cond as int, scope, st));
        match f.else_branch {
            None => st2,
            Some(ElseBranch::Block(x)) => walk_in(b, e, x as int, scope, st2),
            Some(ElseBranch::If(j)) => if i < j < b.ifs@.len() {
                walk_if(b, e, j as int, scope, st2)
            } else {
                st2
            },
        }
    }
}

/// Whether `c` is one of the expressions of the `if` `i` (its condition, its branch, what
/// follows `else`, and so on down an `else if` chain).
pub open spec fn if_part(b: Body, i: int, c: int) -> bool
    decreases b.ifs@.len() - i,
{
    if !(0 <= i < b.ifs@.len()) {
        false
    } else {
        let f = b.ifs@[i];
        ||| c == f.cond as int
        ||| c == f.if_branch as int
        ||| match f.else_branch {
            None => false,
            Some(ElseBranch::Block(x)) => c == x as int,
            Some(ElseBranch::If(j)) => i < j < b.ifs@.len() && if_part(b, j as int, c),
        }
    }
}

/// Whether `c` is among the expressions `cs`.
pub open spec fn listed(cs: Seq<usize>, c: int) -> bool {
    exists|j: int| 0 <= j < cs.len() && cs[j] as int == c
}

/// The expression of a statement.
pub open spec fn stmt_expr(st: StmtKind) -> int {
    match st {
        StmtKind::Let { expr, .. } => expr as int,
        StmtKind::Expr { expr } => expr as int,
    }
}

/// Whether the expression `c` is directly inside the expression `e` (and comes after it).
pub open spec fn child_of(b: Body, e: int, c: int) -> bool {
    &&& 0 <= e < c < b.exprs@.len()
    &&& match b.exprs@[e] {
        ExprKind::Unit => false,
        ExprKind::Lit => false,
        ExprKind::Path => false,
        ExprKind::SelfExpr => false,
        ExprKind::As { expr } => c == expr as int,
        ExprKind::Is { expr, .. } => c == expr as int,
        ExprKind::IsNot { expr, .. } => c == expr as int,
        ExprKind::Closure { body, .. } => c == body as int,
        ExprKind::Field { expr } => c == expr as int,
        ExprKind::Method { expr, args } => c == expr as int || listed(args@, c),
        ExprKind::Record { fields } => listed(fields@, c),
        ExprKind::Binary { lhs, rhs } => c == lhs as int || c == rhs as int,
        ExprKind::Unary { expr } => c == expr as int,
        ExprKind::Index { base, index } => c == base as int || c == index as int,
        ExprKind::Call { func, args } => c == func as int || listed(args@, c),
        ExprKind::Block { stmts } => exists|j: int| 0 <= j < stmts@.len() && stmt_expr(stmts@[j]) == c,
        ExprKind::Paren(x) => c == x as int,
        ExprKind::Return(x) => c == x as int,
        ExprKind::If(i) => if_part(b, i as int, c),
        ExprKind::Loop { block } => c == block as int,
        ExprKind::While { cond, block } => c == cond as int || c == block as int,
        ExprKind::For { loop_expr, iterable, block } => c == loop_expr as int || c == iterable as int
            || c == block as int,
        ExprKind::Tuple { exprs } => listed(exprs@, c),
    }
}

/// Whether a chain of expressions, each directly inside the one before, leads from `e` to
/// `c` (every expression reaches itself).
pub open spec fn reaches(b: Body, e: int, c: int) -> bool {
    exists|path: Seq<int>|
        path.len() >= 1 && path[0] == e && path.last() == c && forall|k: int|
            0 <= k < path.len() - 1 ==> child_of(b, #[trigger] path[k], path[k + 1])
}

/// Whether every expression that `d` reaches has a scope in `m`.
pub open spec fn covered(b: Body, d: int, m: Map<usize, usize>) -> bool {
    forall|c: int| #[trigger] reaches(b, d, c) ==> m.contains_key(c as usize)
}

/// Whether every expression with a scope in `m1` has one in `m2`.
pub open spec fn grows(m1: Map<usize, usize>, m2: Map<usize, usize>) -> bool {
    forall|x: usize| #[trigger] m1.contains_key(x) ==> m2.contains_key(x)
}

/// Growing twice is growing.
pub proof fn lemma_grows_trans(m1: Map<usize, usize>, m2: Map<usize, usize>, m3: Map<usize, usize>)
    requires
        grows(m1, m2),
        grows(m2, m3),
    ensures
        grows(m1, m3),
{
}

/// An expression with a scope, whose directly inner expressions have all that they reach
/// in scopes, has all that it reaches in scopes.
pub proof fn lemma_covered(b: Body, e: int, m: Map<usize, usize>)
    requires
        0 <= e < b.exprs@.len(),
        m.contains_key(e as usize),
        forall|d: int| #[trigger] child_of(b, e, d) ==> covered(b, d, m),
    ensures
        covered(b, e, m),
{
    assert forall|c: int| #[trigger] reaches(b, e, c) implies m.contains_key(c as usize) by {
        let path = choose|path: Seq<int>|
            path.len() >= 1 && path[0] == e && path.last() == c && forall|k: int|
                0 <= k < path.len() - 1 ==> child_of(b, #[trigger] path[k], path[k + 1]);
        if path.len() > 1 {
            let d = path[1];
            assert(child_of(b, path[0], path[1]));
            let rest = path.skip(1);
            assert forall|k: int| 0 <= k < rest.len() - 1 implies child_of(b, #[trigger] rest[k], rest[k + 1]) by {
                assert(rest[k] == path[k + 1]);
                assert(rest[k + 1] == path[k + 2]);
                assert(child_of(b, path[k + 1], path[k + 2]));
            }
            assert(rest.last() == c);
            assert(reaches(b, d, c));
        }
    }
}

/// Having a scope only grows: what `m1` covers, `m2` covers where it has all of `m1`'s keys.
pub proof fn lemma_covered_grows(b: Body, d: int, m1: Map<usize, usize>, m2: Map<usize, usize>)
    requires
        covered(b, d, m1),
        grows(m1, m2),
    ensures
        covered(b, d, m2),
{
}

/// Binding patterns gives no expression a scope and takes none away.
proof fn lemma_bind_pats_keeps(b: Body, ps: Seq<usize>, j: int, scope: int, st: ScopesView)
    ensures
        bind_pats(b, ps, j, scope, st).by_expr == st.by_expr,
    decreases ps.len() - j,
{
    if 0 <= j < ps.len() {
        lemma_bind_pats_keeps(b, ps, j + 1, scope, bind_pat(b, ps[j] as int, scope, st));
    }
}

/// Walking an expression inside `e` keeps every scope given and, where the expression is
/// there, gives a scope to all that it reaches.
pub proof fn lemma_walk_in_covers(b: Body, e: int, c: int, scope: int, st: ScopesView)
    ensures
        grows(st.by_expr, walk_in(b, e, c, scope, st).by_expr),
        0 <= e < c < b.exprs@.len() ==> covered(b, c, walk_in(b, e, c, scope, st).by_expr),
    decreases b.exprs@.len() - e, 0int, 0int,
{
    if 0 <= e < c < b.exprs@.len() {
        lemma_walk_covers(b, c, scope, st);
    }
}

/// Walking the expressions of a list inside `e` keeps every scope given and gives a scope
/// to all that each of them reaches.
pub proof fn lemma_walk_list_covers(b: Body, e: int, cs: Seq<usize>, j: int, scope: int, st: ScopesView)
    requires
        0 <= j,
    ensures
        grows(st.by_expr, walk_list(b, e, cs, j, scope, st).by_expr),
        0 <= e < b.exprs@.len() ==> forall|k: int|
            j <= k < cs.len() && e < #[trigger] cs[k] < b.exprs@.len() ==> covered(
                b,
                cs[k] as int,
                walk_list(b, e, cs, j, scope, st).by_expr,
            ),
    decreases b.exprs@.len() - e, 2int, cs.len() - j,
{
    if 0 <= e < b.exprs@.len() && j < cs.len() {
        let st1 = walk_in(b, e, cs[j] as int, scope, st);
        lemma_walk_in_covers(b, e, cs[j] as int, scope, st);
        lemma_walk_list_covers(b, e, cs, j + 1, scope, st1);
        let r = walk_list(b, e, cs, j, scope, st);
        lemma_grows_trans(st.by_expr, st1.by_expr, r.by_expr);
        if e < cs[j] < b.exprs@.len() {
            lemma_covered_grows(b, cs[j] as int, st1.by_expr, r.by_expr);
        }
    }
}

/// Walking the statements of a block `e` keeps every scope given and gives a scope to all
/// that each statement's expression reaches.
pub proof fn lemma_walk_stmts_covers(b: Body, e: int, ss: Seq<StmtKind>, j: int, scope: int, st: ScopesView)
    requires
        0 <= j,
    ensures
        grows(st.by_expr, walk_stmts(b, e, ss, j, scope, st).by_expr),
        0 <= e < b.exprs@.len() ==> forall|k: int|
            j <= k < ss.len() && e < stmt_expr(#[trigger] ss[k]) < b.exprs@.len() ==> covered(
                b,
                stmt_expr(ss[k]),
                walk_stmts(b, e, ss, j, scope, st).by_expr,
            ),
    decreases b.exprs@.len() - e, 2int, ss.len() - j,
{
    if 0 <= e < b.exprs@.len() && j < ss.len() {
        let st0 = match ss[j] {
            StmtKind::Let { pat, .. } => bind_pat(b, pat as int, scope, st),
            StmtKind::Expr { .. } => st,
        };
        assert(st0.by_expr == st.by_expr);
        let st1 = walk_in(b, e, stmt_expr(ss[j]), scope, st0);
        lemma_walk_in_covers(b, e, stmt_expr(ss[j]), scope, st0);
        lemma_walk_stmts_covers(b, e, ss, j + 1, scope, st1);
        let r = walk_stmts(b, e, ss, j, scope, st);
        lemma_grows_trans(st.by_expr, st1.by_expr, r.by_expr);
        if e < stmt_expr(ss[j]) < b.exprs@.len() {
            lemma_covered_grows(b, stmt_expr(ss[j]), st1.by_expr, r.by_expr);
        }
    }
}

/// Walking an `if` inside `e` keeps every scope given and gives a scope to all that each
/// of its expressions reaches.
pub proof fn lemma_walk_if_covers(b: Body, e: int, i: int, scope: int, st: ScopesView)
    ensures
        grows(st.by_expr, walk_if(b, e, i, scope, st).by_expr),
        forall|c: int|
            e < c < b.exprs@.len() && 0 <= e && #[trigger] if_part(b, i, c) ==> covered(
                b,
                c,
                walk_if(b, e, i, scope, st).by_expr,
            ),
    decreases b.exprs@.len() - e, 1int, b.ifs@.len() - i,
{
    if 0 <= e < b.exprs@.len() && 0 <= i < b.ifs@.len() {
        let f = b.ifs@[i];
        let st1 = walk_in(b, e, f.cond as int, scope, st);
        let st2 = walk_in(b, e, f.if_branch as int, scope, st1);
        lemma_walk_in_covers(b, e, f.cond as int, scope, st);
        lemma_walk_in_covers(b, e, f.if_branch as int, scope, st1);
        let r = walk_if(b, e, i, scope, st);
        match f.else_branch {
            None => {},
            Some(ElseBranch::Block(x)) => {
                lemma_walk_in_covers(b, e, x as int, scope, st2);
            },
            Some(ElseBranch::If(j)) => {
                if i < j < b.ifs@.len() {
                    lemma_walk_if_covers(b, e, j as int, scope, st2);
                }
            },
        }
        lemma_grows_trans(st1.by_expr, st2.by_expr, r.by_expr);
        lemma_grows_trans(st.by_expr, st1.by_expr, r.by_expr);
        if e < f.cond < b.exprs@.len() {
            lemma_covered_grows(b, f.cond as int, st1.by_expr, r.by_expr);
        }
        if e < f.if_branch < b.exprs@.len() {
            lemma_covered_grows(b, f.if_branch as int, st2.by_expr, r.by_expr);
        }
        assert forall|c: int|
            e < c < b.exprs@.len() && 0 <= e && #[trigger] if_part(b, i, c) implies covered(b, c, r.by_expr) by {
            if c == f.cond as int || c == f.if_branch as int {
            } else {
                match f.else_branch {
                    None => {},
                    Some(ElseBranch::Block(x)) => {
                        assert(c == x as int);
                    },
                    Some(ElseBranch::If(j)) => {
                        assert(i < j < b.ifs@.len() && if_part(b, j as int, c));
                    },
                }
            }
        }
    }
}

/// Walking an expression gives a scope to every expression it reaches (through the
/// expressions inside it, each after the one it is in), and keeps every scope given.
pub proof fn lemma_walk_covers(b: Body, e: int, scope: int, st0: ScopesView)
    ensures
        grows(st0.by_expr, walk(b, e, scope, st0).by_expr),
        0 <= e < b.exprs@.len() ==> covered(b, e, walk(b, e, scope, st0).by_expr),
    decreases b.exprs@.len() - e, 4int, 0int,
{
    if 0 <= e < b.exprs@.len() {
        let st = ScopesView { scopes: st0.scopes, by_expr: st0.by_expr.insert(e as usize, scope as usize) };
        let r = walk(b, e, scope, st0);
        assert(grows(st0.by_expr, st.by_expr));
        match b.exprs@[e] {
            ExprKind::Unit => {},
            ExprKind::Lit => {},
            ExprKind::Path => {},
            ExprKind::SelfExpr => {},
            ExprKind::As { expr } => {
                lemma_walk_in_covers(b, e, expr as int, scope, st);
                assert(grows(st.by_expr, r.by_expr));
            },
            ExprKind::Is { expr, pat } => {
                lemma_walk_in_covers(b, e, expr as int, scope, st);
                assert(grows(st.by_expr, r.by_expr));
            },
            ExprKind::IsNot { expr, pat } => {
                lemma_walk_in_covers(b, e, expr as int, scope, st);
                assert(grows(st.by_expr, r.by_expr));
            },
            ExprKind::Closure { params, body } => {
                let inner = st.scopes.len() as int;
                let sp = bind_pats(b, params@, 0, inner, with_scope(st, scope));
                lemma_bind_pats_keeps(b, params@, 0, inner, with_scope(st, scope));
                lemma_walk_in_covers(b, e, body as int, inner, sp);
                assert(grows(st.by_expr, r.by_expr));
            },
            ExprKind::Field { expr } => {
                lemma_walk_in_covers(b, e, expr as int, scope, st);
                assert(grows(st.by_expr, r.by_expr));
            },
            ExprKind::Method { expr, args } => {
                let st1 = walk_in(b, e, expr as int, scope, st);
                lemma_walk_in_covers(b, e, expr as int, scope, st);
                lemma_walk_list_covers(b, e, args@, 0, scope, st1);
                lemma_grows_trans(st.by_expr, st1.by_expr, r.by_expr);
                if e < expr < b.exprs@.len() {
                    lemma_covered_grows(b, expr as int, st1.by_expr, r.by_expr);
                }
                assert(grows(st.by_expr, r.by_expr));
            },
            ExprKind::Record { fields } => {
                lemma_walk_list_covers(b, e, fields@, 0, scope, st);
                assert(grows(st.by_expr, r.by_expr));
            },
            ExprKind::Binary { lhs, rhs } => {
                let st1 = walk_in(b, e, lhs as int, scope, st);
                lemma_walk_in_covers(b, e, lhs as int, scope, st);
                lemma_walk_in_covers(b, e, rhs as int, scope, st1);
                lemma_grows_trans(st.by_expr, st1.by_expr, r.by_expr);
                if e < lhs < b.exprs@.len() {
                    lemma_covered_grows(b, lhs as int, st1.by_expr, r.by_expr);
                }
                assert(grows(st.by_expr, r.by_expr));
            },
            ExprKind::Unary { expr } => {
                lemma_walk_in_covers(b, e, expr as int, scope, st);
                assert(grows(st.by_expr, r.by_expr));
            },
            ExprKind::Index { base, index } => {
                let st1 = walk_in(b, e, base as int, scope, st);
                lemma_walk_in_covers(b, e, base as int, scope, st);
                lemma_walk_in_covers(b, e, index as int, scope, st1);
                lemma_grows_trans(st.by_expr, st1.by_expr, r.by_expr);
                if e < base < b.exprs@.len() {
                    lemma_covered_grows(b, base as int, st1.by_expr, r.by_expr);
                }
                assert(grows(st.by_expr, r.by_expr));
            },
            ExprKind::Call { func, args } => {
                let st1 = walk_in(b, e, func as int, scope, st);
                lemma_walk_in_covers(b, e, func as int, scope, st);
                lemma_walk_list_covers(b, e, args@, 0, scope, st1);
                lemma_grows_trans(st.by_expr, st1.by_expr, r.by_expr);
                if e < func < b.exprs@.len() {
                    lemma_covered_grows(b, func as int, st1.by_expr, r.by_expr);
                }
                assert(grows(st.by_expr, r.by_expr));
            },
            ExprKind::Block { stmts } => {
                let inner = st.scopes.len() as int;
                lemma_walk_stmts_covers(b, e, stmts@, 0, inner, with_scope(st, scope));
                assert(grows(st.by_expr, r.by_expr));
            },
            ExprKind::Paren(x) => {
                lemma_walk_in_covers(b, e, x as int, scope, st);
                assert(grows(st.by_expr, r.by_expr));
            },
            ExprKind::Return(x) => {
                lemma_walk_in_covers(b, e, x as int, scope, st);
                assert(grows(st.by_expr, r.by_expr));
            },
            ExprKind::If(i) => {
                lemma_walk_if_covers(b, e, i as int, scope, st);
                assert(grows(st.by_expr, r.by_expr));
            },
            ExprKind::Loop { block } => {
                lemma_walk_in_covers(b, e, block as int, scope, st);
                assert(grows(st.by_expr, r.by_expr));
            },
            ExprKind::While { cond, block } => {
                let st1 = walk_in(b, e, cond as int, scope, st);
                lemma_walk_in_covers(b, e, cond as int, scope, st);
                lemma_walk_in_covers(b, e, block as int, scope, st1);
                lemma_grows_trans(st.by_expr, st1.by_expr, r.by_expr);
                if e < cond < b.exprs@.len() {
                    lemma_covered_grows(b, cond as int, st1.by_expr, r.by_expr);
                }
                assert(grows(st.by_expr, r.by_expr));
            },
            ExprKind::For { loop_expr, iterable, block } => {
                let st1 = walk_in(b, e, loop_expr as int, scope, st);
                let st2 = walk_in(b, e, iterable as int, scope, st1);
                lemma_walk_in_covers(b, e, loop_expr as int, scope, st);
                lemma_walk_in_covers(b, e, iterable as int, scope, st1);
                lemma_walk_in_covers(b, e, block as int, scope, st2);
                lemma_grows_trans(st1.by_expr, st2.by_expr, r.by_expr);
                lemma_grows_trans(st.by_expr, st1.by_expr, r.by_expr);
                if e < loop_expr < b.exprs@.len() {
                    lemma_covered_grows(b, loop_expr as int, st1.by_expr, r.by_expr);
                }
                if e < iterable < b.exprs@.len() {
                    lemma_covered_grows(b, iterable as int, st2.by_expr, r.by_expr);
                }
                assert(grows(st.by_expr, r.by_expr));
            },
            ExprKind::Tuple { exprs } => {
                lemma_walk_list_covers(b, e, exprs@, 0, scope, st);
                assert(grows(st.by_expr, r.by_expr));
            },
        }
        lemma_grows_trans(st0.by_expr, st.by_expr, r.by_expr);
        assert(st.by_expr.contains_key(e as usize));
        assert(r.by_expr.contains_key(e as usize));
        lemma_covered(b, e, r.by_expr);
    }
}

/// The pattern `p` binds its name, if it is a name, in the scope `scope`.
pub fn traverse_pat(scopes: &mut ExprScopes, b: &Body, p: usize, scope: usize)
    ensures
        scopes_view(*final(scopes)) == bind_pat(*b, p as int, scope as int, scopes_view(*old(scopes))),
        final(scopes).scope_by_expr@ == old(scopes).scope_by_expr@,
{
    if p < b.pats.len() && scope < scopes.scopes.len() {
        match &b.pats[p] {
            PatKind::Name(n) => {
                let ghost before = scopes.scopes@;
                let mut d = scopes.scopes.remove(scope);
                d.entries.push(ScopeEntry { name: n.clone(), pattern: p });
                let ghost dv = scope_view(d);
                scopes.scopes.insert(scope, d);
                proof {
                    assert(scopes.scopes@ =~= before.update(scope as int, d));
                    assert(scopes.scopes@.map_values(|d: ScopeData| scope_view(d)) =~= before.map_values(
                        |d: ScopeData| scope_view(d),
                    ).update(scope as int, dv));
                    assert(dv.1 =~= scope_view(before[scope as int]).1.push((n@, p)));
                }
            },
            _ => {},
        }
    }
}

/// A new scope in `parent`; its place.
fn open_scope(scopes: &mut ExprScopes, parent: usize) -> (r: usize)
    ensures
        r == old(scopes).scopes@.len(),
        scopes_view(*final(scopes)) == with_scope(scopes_view(*old(scopes)), parent as int),
        final(scopes).scope_by_expr@ == old(scopes).scope_by_expr@,
{
    let r = scopes.scopes.len();
    let ghost before = scopes.scopes@;
    scopes.scopes.push(ScopeData { parent: Some(parent), entries: Vec::new() });
    proof {
        assert(scopes.scopes@[r as int].entries@.map_values(|x: ScopeEntry| (x.name@, x.pattern))
            =~= Seq::<(Seq<char>, usize)>::empty());
        assert(scopes.scopes@.map_values(|d: ScopeData| scope_view(d)) =~= before.map_values(
            |d: ScopeData| scope_view(d),
        ).push((Some(parent), Seq::<(Seq<char>, usize)>::empty())));
    }
    r
}

/// Walks the expression `c` inside `e`, where it comes after `e`.
fn traverse_in(scopes: &mut ExprScopes, b: &Body, e: usize, c: usize, scope: usize)
    ensures
        scopes_view(*final(scopes)) == walk_in(*b, e as int, c as int, scope as int, scopes_view(*old(scopes))),
        grows(old(scopes).scope_by_expr@, final(scopes).scope_by_expr@),
        e < c < b.exprs@.len() ==> covered(*b, c as int, final(scopes).scope_by_expr@),
    decreases b.exprs@.len() - e, 0int,
{
    if e < c && c < b.exprs.len() {
        traverse_expr(scopes, b, c, scope);
    }
}

/// Walks the expressions `cs` inside `e`, in order.
fn traverse_list(scopes: &mut ExprScopes, b: &Body, e: usize, cs: &Vec<usize>, scope: usize)
    requires
        e < b.exprs@.len(),
    ensures
        scopes_view(*final(scopes)) == walk_list(*b, e as int, cs@, 0, scope as int, scopes_view(*old(scopes))),
        grows(old(scopes).scope_by_expr@, final(scopes).scope_by_expr@),
        forall|j: int|
            0 <= j < cs@.len() && e < #[trigger] cs@[j] < b.exprs@.len() ==> covered(
                *b,
                cs@[j] as int,
                final(scopes).scope_by_expr@,
            ),
    decreases b.exprs@.len() - e, 2int,
{
    let ghost st0 = scopes_view(*scopes);
    let ghost m0 = scopes.scope_by_expr@;
    let mut j: usize = 0;
    while j < cs.len()
        invariant
            e < b.exprs@.len(),
            j <= cs@.len(),
            grows(m0, scopes.scope_by_expr@),
            forall|jj: int|
                0 <= jj < j && e < #[trigger] cs@[jj] < b.exprs@.len() ==> covered(
                    *b,
                    cs@[jj] as int,
                    scopes.scope_by_expr@,
                ),
            walk_list(*b, e as int, cs@, 0, scope as int, st0) == walk_list(
                *b,
                e as int,
                cs@,
                j as int,
                scope as int,
                scopes_view(*scopes),
            ),
        decreases cs@.len() - j,
    {
        let ghost m1 = scopes.scope_by_expr@;
        traverse_in(scopes, b, e, cs[j], scope);
        proof {
            lemma_grows_trans(m0, m1, scopes.scope_by_expr@);
            assert forall|jj: int|
                0 <= jj < j + 1 && e < #[trigger] cs@[jj] < b.exprs@.len() implies covered(
                *b,
                cs@[jj] as int,
                scopes.scope_by_expr@,
            ) by {
                if jj < j {
                    lemma_covered_grows(*b, cs@[jj] as int, m1, scopes.scope_by_expr@);
                }
            }
        }
        j = j + 1;
    }
}

/// Walks the `if` `i` inside `e`: its condition, its branch, then what follows `else`.
pub fn traverse_if_expr(scopes: &mut ExprScopes, b: &Body, e: usize, i: usize, scope: usize)
    ensures
        scopes_view(*final(scopes)) == walk_if(*b, e as int, i as int, scope as int, scopes_view(*old(scopes))),
        grows(old(scopes).scope_by_expr@, final(scopes).scope_by_expr@),
        forall|c: int|
            e < c < b.exprs@.len() && #[trigger] if_part(*b, i as int, c) ==> covered(
                *b,
                c,
                final(scopes).scope_by_expr@,
            ),
    decreases b.exprs@.len() - e, 1int, b.ifs@.len() - i,
{
    if e < b.exprs.len() && i < b.ifs.len() {
        let f = &b.ifs[i];
        traverse_in(scopes, b, e, f.cond, scope);
        let ghost m1 = scopes.scope_by_expr@;
        traverse_in(scopes, b, e, f.if_branch, scope);
        let ghost m2 = scopes.scope_by_expr@;
        match &f.else_branch {
            None => {},
            Some(ElseBranch::Block(x)) => traverse_in(scopes, b, e, *x, scope),
            Some(ElseBranch::If(j)) => {
                if i < *j && *j < b.ifs.len() {
                    traverse_if_expr(scopes, b, e, *j, scope);
                }
            },
        }
        proof {
            let mf = scopes.scope_by_expr@;
            lemma_grows_trans(m1, m2, mf);
            lemma_grows_trans(old(scopes).scope_by_expr@, m1, mf);
            if e < f.cond && f.cond < b.exprs@.len() {
                lemma_covered_grows(*b, f.cond as int, m1, mf);
            }
            if e < f.if_branch && f.if_branch < b.exprs@.len() {
                lemma_covered_grows(*b, f.if_branch as int, m2, mf);
            }
            assert forall|c: int|
                e < c < b.exprs@.len() && #[trigger] if_part(*b, i as int, c) implies covered(*b, c, mf) by {
                if c == f.cond as int || c == f.if_branch as int {
                } else {
                    match f.else_branch {
                        None => {},
                        Some(ElseBranch::Block(x)) => {
                            assert(c == x as int);
                        },
                        Some(ElseBranch::If(j)) => {
                            assert(i < j < b.ifs@.len() && if_part(*b, j as int, c));
                        },
                    }
                }
            }
        }
    }
}

/// Walks the expression `e` in the scope `scope`, as `walk` says: each expression gets its
/// scope, closures and blocks open new scopes, and patterns bind their names.
pub fn traverse_expr(scopes: &mut ExprScopes, b: &Body, e: usize, scope: usize)
    ensures
        scopes_view(*final(scopes)) == walk(*b, e as int, scope as int, scopes_view(*old(scopes))),
        grows(old(scopes).scope_by_expr@, final(scopes).scope_by_expr@),
        e < b.exprs@.len() ==> covered(*b, e as int, final(scopes).scope_by_expr@),
    decreases b.exprs@.len() - e, 4int,
{
    if e >= b.exprs.len() {
        return;
    }
    let ghost m0 = scopes.scope_by_expr@;
    scopes.scope_by_expr.insert(e, scope);
    proof {
        assert(scopes_view(*scopes) == ScopesView {
            scopes: scopes_view(*old(scopes)).scopes,
            by_expr: m0.insert(e, scope),
        });
    }
    let ghost mi = scopes.scope_by_expr@;
    match &b.exprs[e] {
        ExprKind::Unit => {},
        ExprKind::Lit => {},
        ExprKind::Path => {},
        ExprKind::SelfExpr => {},
        ExprKind::As { expr } => traverse_in(scopes, b, e, *expr, scope),
        ExprKind::Is { expr, pat } => {
            traverse_in(scopes, b, e, *expr, scope);
            traverse_pat(scopes, b, *pat, scope);
        },
        ExprKind::IsNot { expr, pat } => {
            traverse_in(scopes, b, e, *expr, scope);
            traverse_pat(scopes, b, *pat, scope);
        },
        ExprKind::Closure { params, body } => {
            let inner = open_scope(scopes, scope);
            let ghost st1 = scopes_view(*scopes);
            let ghost mo = scopes.scope_by_expr@;
            let mut j: usize = 0;
            while j < params.len()
                invariant
                    j <= params@.len(),
                    scopes.scope_by_expr@ == mo,
                    bind_pats(*b, params@, 0, inner as int, st1) == bind_pats(
                        *b,
                        params@,
                        j as int,
                        inner as int,
                        scopes_view(*scopes),
                    ),
                decreases params@.len() - j,
            {
                traverse_pat(scopes, b, params[j], inner);
                j = j + 1;
            }
            traverse_in(scopes, b, e, *body, inner);
        },
        ExprKind::Field { expr } => traverse_in(scopes, b, e, *expr, scope),
        ExprKind::Method { expr, args } => {
            traverse_in(scopes, b, e, *expr, scope);
            let ghost m1 = scopes.scope_by_expr@;
            traverse_list(scopes, b, e, args, scope);
            proof {
                lemma_grows_trans(mi, m1, scopes.scope_by_expr@);
                if e < *expr && *expr < b.exprs@.len() {
                    lemma_covered_grows(*b, *expr as int, m1, scopes.scope_by_expr@);
                }
            }
        },
        ExprKind::Record { fields } => traverse_list(scopes, b, e, fields, scope),
        ExprKind::Binary { lhs, rhs } => {
            traverse_in(scopes, b, e, *lhs, scope);
            let ghost m1 = scopes.scope_by_expr@;
            traverse_in(scopes, b, e, *rhs, scope);
            proof {
                lemma_grows_trans(mi, m1, scopes.scope_by_expr@);
                if e < *lhs && *lhs < b.exprs@.len() {
                    lemma_covered_grows(*b, *lhs as int, m1, scopes.scope_by_expr@);
                }
            }
        },
        ExprKind::Unary { expr } => traverse_in(scopes, b, e, *expr, scope),
        ExprKind::Index { base, index } => {
            traverse_in(scopes, b, e, *base, scope);
            let ghost m1 = scopes.scope_by_expr@;
            traverse_in(scopes, b, e, *index, scope);
            proof {
                lemma_grows_trans(mi, m1, scopes.scope_by_expr@);
                if e < *base && *base < b.exprs@.len() {
                    lemma_covered_grows(*b, *base as int, m1, scopes.scope_by_expr@);
                }
            }
        },
        ExprKind::Call { func, args } => {
            traverse_in(scopes, b, e, *func, scope);
            let ghost m1 = scopes.scope_by_expr@;
            traverse_list(scopes, b, e, args, scope);
            proof {
                lemma_grows_trans(mi, m1, scopes.scope_by_expr@);
                if e < *func && *func < b.exprs@.len() {
                    lemma_covered_grows(*b, *func as int, m1, scopes.scope_by_expr@);
                }
            }
        },
        ExprKind::Block { stmts } => {
            let inner = open_scope(scopes, scope);
            let ghost st1 = scopes_view(*scopes);
            let mut j: usize = 0;
            while j < stmts.len()
                invariant
                    e < b.exprs@.len(),
                    j <= stmts@.len(),
                    grows(mi, scopes.scope_by_expr@),
                    forall|jj: int|
                        0 <= jj < j && e < stmt_expr(#[trigger] stmts@[jj]) < b.exprs@.len() ==> covered(
                            *b,
                            stmt_expr(stmts@[jj]),
                            scopes.scope_by_expr@,
                        ),
                    walk_stmts(*b, e as int, stmts@, 0, inner as int, st1) == walk_stmts(
                        *b,
                        e as int,
                        stmts@,
                        j as int,
                        inner as int,
                        scopes_view(*scopes),
                    ),
                decreases stmts@.len() - j,
            {
                let ghost m1 = scopes.scope_by_expr@;
                match &stmts[j] {
                    StmtKind::Let { pat, expr } => {
                        traverse_pat(scopes, b, *pat, inner);
                        traverse_in(scopes, b, e, *expr, inner);
                    },
                    StmtKind::Expr { expr } => traverse_in(scopes, b, e, *expr, inner),
                }
                proof {
                    lemma_grows_trans(mi, m1, scopes.scope_by_expr@);
                    assert forall|jj: int|
                        0 <= jj < j + 1 && e < stmt_expr(#[trigger] stmts@[jj]) < b.exprs@.len() implies covered(
                        *b,
                        stmt_expr(stmts@[jj]),
                        scopes.scope_by_expr@,
                    ) by {
                        if jj < j {
                            lemma_covered_grows(*b, stmt_expr(stmts@[jj]), m1, scopes.scope_by_expr@);
                        }
                    }
                }
                j = j + 1;
            }
        },
        ExprKind::Paren(x) => traverse_in(scopes, b, e, *x, scope),
        ExprKind::Return(x) => traverse_in(scopes, b, e, *x, scope),
        ExprKind::If(i) => traverse_if_expr(scopes, b, e, *i, scope),
        ExprKind::Loop { block } => traverse_in(scopes, b, e, *block, scope),
        ExprKind::While { cond, block } => {
            traverse_in(scopes, b, e, *cond, scope);
            let ghost m1 = scopes.scope_by_expr@;
            traverse_in(scopes, b, e, *block, scope);
            proof {
                lemma_grows_trans(mi, m1, scopes.scope_by_expr@);
                if e < *cond && *cond < b.exprs@.len() {
                    lemma_covered_grows(*b, *cond as int, m1, scopes.scope_by_expr@);
                }
            }
        },
        ExprKind::For { loop_expr, iterable, block } => {
            traverse_in(scopes, b, e, *loop_expr, scope);
            let ghost m1 = scopes.scope_by_expr@;
            traverse_in(scopes, b, e, *iterable, scope);
            let ghost m2 = scopes.scope_by_expr@;
            traverse_in(scopes, b, e, *block, scope);
            proof {
                lemma_grows_trans(m1, m2, scopes.scope_by_expr@);
                lemma_grows_trans(mi, m1, scopes.scope_by_expr@);
                if e < *loop_expr && *loop_expr < b.exprs@.len() {
                    lemma_covered_grows(*b, *loop_expr as int, m1, scopes.scope_by_expr@);
                }
                if e < *iterable && *iterable < b.exprs@.len() {
                    lemma_covered_grows(*b, *iterable as int, m2, scopes.scope_by_expr@);
                }
            }
        },
        ExprKind::Tuple { exprs } => traverse_list(scopes, b, e, exprs, scope),
    }
    proof {
        assert(grows(old(scopes).scope_by_expr@, mi));
        lemma_grows_trans(old(scopes).scope_by_expr@, mi, scopes.scope_by_expr@);
        assert(mi.contains_key(e));
        assert(scopes.scope_by_expr@.contains_key(e));
        lemma_covered(*b, e as int, scopes.scope_by_expr@);
    }
}

/// The scopes of a body whose value is the expression `root`: one root scope, and each
/// expression walked from there; every expression that `root` reaches through the
/// expressions inside it (each after the one it is in) gets a scope.
pub fn expr_scopes(b: &Body, root: usize) -> (r: ExprScopes)
    ensures
        root < b.exprs@.len() ==> forall|c: int|
            #[trigger] reaches(*b, root as int, c) ==> r.scope_by_expr@.contains_key(c as usize),
        scopes_view(r) == walk(
            *b,
            root as int,
            0,
            ScopesView { scopes: seq![(None, Seq::empty())], by_expr: Map::empty() },
        ),
{
    let mut scopes = ExprScopes { scopes: Vec::new(), scope_by_expr: HashMap::new() };
    scopes.scopes.push(ScopeData { parent: None, entries: Vec::new() });
    proof {
        assert(scopes.scopes@[0].entries@.map_values(|x: ScopeEntry| (x.name@, x.pattern))
            =~= Seq::<(Seq<char>, usize)>::empty());
        assert(scopes.scopes@.map_values(|d: ScopeData| scope_view(d)) =~= seq![
            (None::<usize>, Seq::<(Seq<char>, usize)>::empty()),
        ]);
    }
    traverse_expr(&mut scopes, b, root, 0);
    scopes
}

/// Whether each scope's parent comes before it.
pub open spec fn parents_first(sv: ScopesView) -> bool {
    forall|k: int|
        0 <= k < sv.scopes.len() && (#[trigger] sv.scopes[k]).0 is Some ==> sv.scopes[k].0->0 < k
}

/// The last of the first `k` names in `es` that is `name`.
pub open spec fn last_named(es: Seq<(Seq<char>, usize)>, name: Seq<char>, k: int) -> Option<int>
    decreases k,
{
    if k <= 0 || k > es.len() {
        None
    } else if es[k - 1].0 == name {
        Some(k - 1)
    } else {
        last_named(es, name, k - 1)
    }
}

/// The binding that `name` refers to in the scope `scope`: the last one of that name in
/// the scope, else the one it refers to in the scope's parent.
pub open spec fn resolved(sv: ScopesView, scope: int, name: Seq<char>) -> Option<(int, int)>
    decreases scope,
{
    if !(0 <= scope < sv.scopes.len()) {
        None
    } else {
        match last_named(sv.scopes[scope].1, name, sv.scopes[scope].1.len() as int) {
            Some(i) => Some((scope, i)),
            None => match sv.scopes[scope].0 {
                Some(p) => if p < scope {
                    resolved(sv, p as int, name)
                } else {
                    None
                },
                None => None,
            },
        }
    }
}

impl ExprScopes {
    /// The names bound in the scope `scope`, in order.
    pub fn entries(&self, scope: usize) -> (r: &[ScopeEntry])
        requires
            scope < self.scopes@.len(),
        ensures
            r@ == self.scopes@[scope as int].entries@,
    {
        self.scopes[scope].entries.as_slice()
    }

    /// The scope of the expression `expr_id`, if it was walked.
    pub fn scope_for_expr(&self, expr_id: usize) -> (r: Option<usize>)
        ensures
            r == (if self.scope_by_expr@.contains_key(expr_id) {
                Some(self.scope_by_expr@[expr_id])
            } else {
                None
            }),
    {
        match self.scope_by_expr.get(&expr_id) {
            Some(s) => Some(*s),
            None => None,
        }
    }

    /// The binding that `name` refers to in the scope `scope`: the last one of that name in
    /// the scope or, failing that, in the scopes around it, innermost first.
    pub fn resolve_name_in_scope(&self, scope: usize, name: &String) -> (r: Option<&ScopeEntry>)
        requires
            parents_first(scopes_view(*self)),
        ensures
            ({
                let sv = scopes_view(*self);
                match resolved(sv, scope as int, name@) {
                    Some((s, i)) => r == Some(&self.scopes@[s].entries@[i]),
                    None => r is None,
                }
            }),
        decreases scope,
    {
        if scope >= self.scopes.len() {
            return None;
        }
        let es = &self.scopes[scope].entries;
        let ghost sv = scopes_view(*self);
        let ghost ev = sv.scopes[scope as int].1;
        proof {
            assert(ev == es@.map_values(|x: ScopeEntry| (x.name@, x.pattern)));
        }
        let mut k = es.len();
        while k > 0
            invariant
                k <= es@.len(),
                scope < self.scopes@.len(),
                es@ == self.scopes@[scope as int].entries@,
                sv == scopes_view(*self),
                ev == sv.scopes[scope as int].1,
                ev == es@.map_values(|x: ScopeEntry| (x.name@, x.pattern)),
                last_named(ev, name@, ev.len() as int) == last_named(ev, name@, k as int),
            decreases k,
        {
            if es[k - 1].name == *name {
                proof {
                    assert(ev[k - 1].0 == es@[k - 1].name@);
                    assert(last_named(ev, name@, k as int) == Some((k - 1) as int));
                    assert(resolved(sv, scope as int, name@) == Some((scope as int, (k - 1) as int)));
                    assert(es@[k - 1] == self.scopes@[scope as int].entries@[k - 1]);
                }
                return Some(&es[k - 1]);
            }
            proof {
                assert(ev[k - 1].0 == es@[k - 1].name@);
            }
            k = k - 1;
        }
        match self.scopes[scope].parent {
            Some(p) => {
                if p < scope {
                    self.resolve_name_in_scope(p, name)
                } else {
                    None
                }
            },
            None => None,
        }
    }
}

} // verus!
