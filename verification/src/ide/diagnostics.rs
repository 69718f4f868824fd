//! Problems found in a file, as they are shown to the user.
use std::ops::Range;
use vstd::prelude::*;

verus! {

/// The stage that found a problem.
#[derive(Debug, Clone, PartialEq, Eq, Hash, Structural)]
pub enum DiagnosticKind {
    SyntaxError,
    TypeError,
    ModuleError,
}

/// A problem with its message and the bytes of the file it is about.
#[derive(Debug, PartialEq, Eq, Hash)]
pub struct RenderedDiagnostic {
    pub message: String,
    pub range: Range<usize>,
    pub kind: DiagnosticKind,
}

impl Clone for RenderedDiagnostic {
    fn clone(&self) -> (r: Self)
        ensures
            r == *self,
    {
        RenderedDiagnostic {
            message: self.message.clone(),
            range: Range { start: self.range.start, end: self.range.end },
            kind: match self.kind {
                DiagnosticKind::SyntaxError => DiagnosticKind::SyntaxError,
                DiagnosticKind::TypeError => DiagnosticKind::TypeError,
                DiagnosticKind::ModuleError => DiagnosticKind::ModuleError,
            },
        }
    }
}

/// How serious a problem is.
#[derive(Debug, Copy, Clone, PartialEq, Eq, Structural)]
pub enum Severity {
    Error,
    Warning,
    Info,
}

impl RenderedDiagnostic {
    /// Every kind of problem is an error.
    pub fn severity(&self) -> (s: Severity)
        ensures
            s == Severity::Error,
    {
        match &self.kind {
            DiagnosticKind::SyntaxError => Severity::Error,
            DiagnosticKind::TypeError => Severity::Error,
            DiagnosticKind::ModuleError => Severity::Error,
        }
    }

    /// The code of the problem's kind, as the editor shows it.
    pub fn code(&self) -> (c: &'static str)
        ensures
            c@ == (match self.kind {
                DiagnosticKind::SyntaxError => "syntax_error"@,
                DiagnosticKind::TypeError => "type_error"@,
                DiagnosticKind::ModuleError => "module_error"@,
            }),
    {
        match &self.kind {
            DiagnosticKind::SyntaxError => "syntax_error",
            DiagnosticKind::TypeError => "type_error",
            DiagnosticKind::ModuleError => "module_error",
        }
    }
}

/// The bytes of an item's heading that the syntax tree holds: the whole item, and its
/// keyword and its name where it has them.
pub struct ItemSpans {
    pub node: Range<usize>,
    pub keyword: Option<Range<usize>>,
    pub name: Option<Range<usize>>,
}

/// Where a problem is, as the syntax tree answers for its location.
pub enum FoundAt {
    /// A node (a type expression, a module, an import tree): its bytes, or `None` where the
    /// tree holds no such node.
    Node(Option<Range<usize>>),
    /// A struct, an enum or a function: its heading, or `None` where the tree holds no such
    /// item.
    Item(Option<ItemSpans>),
    /// Bytes given with the problem.
    Bytes(Range<usize>),
    /// A parameter, which is not shown.
    Param,
}

/// A problem with the answer of the syntax tree for its location.
pub struct LocatedDiagnostic {
    pub message: String,
    pub at: FoundAt,
    pub kind: DiagnosticKind,
}

/// The bytes a problem is shown at, if it is shown: a node's bytes; for an item, from the
/// start of its keyword to the end of its name where it has both, else the whole item;
/// bytes given with it. A parameter, or a location the tree does not hold, is not shown.
pub open spec fn shown_at(at: FoundAt) -> Option<(int, int)> {
    match at {
        FoundAt::Node(Some(r)) => Some((r.start as int, r.end as int)),
        FoundAt::Node(None) => None,
        FoundAt::Item(Some(sp)) => match (sp.keyword, sp.name) {
            (Some(k), Some(n)) => Some((k.start as int, n.end as int)),
            _ => Some((sp.node.start as int, sp.node.end as int)),
        },
        FoundAt::Item(None) => None,
        FoundAt::Bytes(r) => Some((r.start as int, r.end as int)),
        FoundAt::Param => None,
    }
}

/// The problems that are shown, in order: message, first byte, byte past the end, kind.
pub open spec fn rendered(ds: Seq<LocatedDiagnostic>) -> Seq<(Seq<char>, int, int, DiagnosticKind)>
    decreases ds.len(),
{
    if ds.len() == 0 {
        Seq::empty()
    } else {
        let rest = rendered(ds.drop_last());
        match shown_at(ds.last().at) {
            Some(r) => rest.push((ds.last().message@, r.0, r.1, ds.last().kind)),
            None => rest,
        }
    }
}

/// Rendered problems, as the contracts see them.
pub open spec fn rendered_view(d: Seq<RenderedDiagnostic>) -> Seq<(Seq<char>, int, int, DiagnosticKind)> {
    d.map_values(
        |x: RenderedDiagnostic| (x.message@, x.range.start as int, x.range.end as int, x.kind),
    )
}

/// The problems of a file as the editor shows them: each with the bytes it is shown at, in
/// order; those on a parameter, or at a location the tree does not hold, are left out.
pub fn rendered_diagnostics(ds: &Vec<LocatedDiagnostic>) -> (r: Vec<RenderedDiagnostic>)
    ensures
        rendered_view(r@) == rendered(ds@),
{
    let mut r: Vec<RenderedDiagnostic> = Vec::new();
    let mut i: usize = 0;
    proof {
        assert(ds@.take(0) =~= Seq::<LocatedDiagnostic>::empty());
        assert(rendered_view(r@) =~= Seq::<(Seq<char>, int, int, DiagnosticKind)>::empty());
    }
    while i < ds.len()
        invariant
            i <= ds@.len(),
            rendered_view(r@) == rendered(ds@.take(i as int)),
        decreases ds@.len() - i,
    {
        let d = &ds[i];
        let range: Option<Range<usize>> = match &d.at {
            FoundAt::Node(Some(n)) => Some(Range { start: n.start, end: n.end }),
            FoundAt::Node(None) => None,
            FoundAt::Item(Some(sp)) => match (&sp.keyword, &sp.name) {
                (Some(k), Some(n)) => Some(Range { start: k.start, end: n.end }),
                _ => Some(Range { start: sp.node.start, end: sp.node.end }),
            },
            FoundAt::Item(None) => None,
            FoundAt::Bytes(b) => Some(Range { start: b.start, end: b.end }),
            FoundAt::Param => None,
        };
        let ghost before = r@;
        proof {
            assert(ds@.take(i + 1).drop_last() =~= ds@.take(i as int));
            assert(ds@.take(i + 1).last() == ds@[i as int]);
        }
        match range {
            Some(range) => {
                let kind = match d.kind {
                    DiagnosticKind::SyntaxError => DiagnosticKind::SyntaxError,
                    DiagnosticKind::TypeError => DiagnosticKind::TypeError,
                    DiagnosticKind::ModuleError => DiagnosticKind::ModuleError,
                };
                r.push(RenderedDiagnostic { message: d.message.clone(), range, kind });
                proof {
                    assert(rendered_view(r@) =~= rendered_view(before).push(
                        (d.message@, range.start as int, range.end as int, d.kind),
                    ));
                }
            },
            None => {},
        }
        i = i + 1;
    }
    proof {
        assert(ds@.take(ds@.len() as int) =~= ds@);
    }
    r
}

} // verus!
