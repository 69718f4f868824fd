//! Building the syntax tree from the parser's events, and parsing a whole source file.
use crate::parsing::grammar::{is_stuck_error, module_items, PathKind};
use crate::parsing::lexer::{lex_spec, token_view, tokens_view, LexToken, Syntax};
use crate::parsing::parser::{
    advances, balanced, consumed, depth, is_trivia, lemma_advances_concat, significant, Event,
    ParseError, Parser, lemma_balanced_empty, lemma_module_shaped, module_shaped, node_shaped,
};
use vstd::prelude::*;
use vstd::string::StringSliceAdditionalSpecFns;

verus! {

/// A `syntree` builder of a tree whose nodes carry a kind number.
#[verifier::external_body]
pub struct TreeBuilder {
    builder: syntree::Builder<u16>,
}

/// A syntax tree: nodes and tokens, each with its kind number, as `syntree` holds them.
#[verifier::external_body]
#[derive(Debug, PartialEq)]
pub struct Tree {
    tree: syntree::Tree<u16, syntree::FlavorDefault>,
}

/// One step of building a tree: `(0, kind, 0)` opens a node, `(1, 0, 0)` closes the open
/// node, `(2, kind, len)` adds a token of `len` bytes.
pub open spec fn open_step(kind: u16) -> (u8, u16, usize) {
    (0u8, kind, 0usize)
}

pub open spec fn close_step() -> (u8, u16, usize) {
    (1u8, 0u16, 0usize)
}

pub open spec fn token_step(kind: u16, len: usize) -> (u8, u16, usize) {
    (2u8, kind, len)
}

/// How a step changes the number of open nodes.
pub open spec fn step_weight(s: (u8, u16, usize)) -> int {
    if s.0 == 0u8 {
        1
    } else if s.0 == 1u8 {
        -1
    } else {
        0
    }
}

/// The number of nodes that the steps `s` leave open.
pub open spec fn step_depth(s: Seq<(u8, u16, usize)>) -> int
    decreases s.len(),
{
    if s.len() == 0 {
        0
    } else {
        step_depth(s.drop_last()) + step_weight(s.last())
    }
}

/// Whether every prefix of `s` of at least `lo` steps leaves at least `d` nodes open.
pub open spec fn open_from(s: Seq<(u8, u16, usize)>, lo: int, d: int) -> bool {
    forall|j: int| lo <= j <= s.len() ==> step_depth(#[trigger] s.take(j)) >= d
}

/// Whether the steps `s` nest: no prefix closes more nodes than it opens.
pub open spec fn steps_nest(s: Seq<(u8, u16, usize)>) -> bool {
    open_from(s, 0, 0)
}

/// Whether the steps build one module node that holds all the others: they open the
/// module first, close it last, and leave it open in between.
pub open spec fn rooted(s: Seq<(u8, u16, usize)>) -> bool {
    &&& s.len() >= 2
    &&& s[0] == open_step(Syntax::MODULE.spec_code())
    &&& s.last() == close_step()
    &&& open_from(s.drop_last(), 1, 1)
}

/// The number of nodes and tokens that the steps `s` add.
pub open spec fn step_count(s: Seq<(u8, u16, usize)>) -> int
    decreases s.len(),
{
    if s.len() == 0 {
        0
    } else if s.last().0 == 1u8 {
        step_count(s.drop_last())
    } else {
        step_count(s.drop_last()) + 1
    }
}

/// The number of bytes that the tokens of the steps `s` cover.
pub open spec fn step_bytes(s: Seq<(u8, u16, usize)>) -> int
    decreases s.len(),
{
    if s.len() == 0 {
        0
    } else if s.last().0 == 2u8 {
        step_bytes(s.drop_last()) + s.last().2
    } else {
        step_bytes(s.drop_last())
    }
}

/// The steps a builder has taken, in order.
pub uninterp spec fn builder_steps(b: TreeBuilder) -> Seq<(u8, u16, usize)>;

/// The steps that built a tree, in order.
pub uninterp spec fn tree_steps(t: Tree) -> Seq<(u8, u16, usize)>;

/// `syntree::Builder::new`: a builder that has taken no step.
#[verifier::external_body]
fn builder_new() -> (b: TreeBuilder)
    ensures
        builder_steps(b) == Seq::<(u8, u16, usize)>::empty(),
{
    TreeBuilder { builder: syntree::Builder::new() }
}

/// `syntree::Builder::open`: where it succeeds, the builder has opened a node of kind
/// `kind`. It fails exactly where it runs out of node numbers: the default flavor numbers
/// nodes and tokens by `usize`, and the number one past the largest is not a number.
#[verifier::external_body]
fn builder_open(b: &mut TreeBuilder, kind: u16) -> (ok: bool)
    ensures
        ok <==> step_count(builder_steps(*old(b))) < usize::MAX,
        ok ==> builder_steps(*final(b)) == builder_steps(*old(b)).push(open_step(kind)),
{
    b.builder.open(kind).is_ok()
}

/// `syntree::Builder::close`: it fails exactly where no node is open; where it succeeds,
/// the builder has closed the innermost open node.
#[verifier::external_body]
fn builder_close(b: &mut TreeBuilder) -> (ok: bool)
    ensures
        ok <==> step_depth(builder_steps(*old(b))) > 0,
        ok ==> builder_steps(*final(b)) == builder_steps(*old(b)).push(close_step()),
{
    b.builder.close().is_ok()
}

/// `syntree::Builder::token`: where it succeeds, the builder has added a token of kind
/// `kind` and `len` bytes. It is called with tokens of at least one byte only: a token of
/// no bytes would leave the builder as an opened and closed node does. It fails exactly
/// where the byte count (a `u32` in the default flavor) would pass `u32::MAX` or the node
/// numbers (`usize`) run out.
#[verifier::external_body]
fn builder_token(b: &mut TreeBuilder, kind: u16, len: usize) -> (ok: bool)
    requires
        len > 0,
    ensures
        ok <==> (step_bytes(builder_steps(*old(b))) + len <= u32::MAX && step_count(
            builder_steps(*old(b)),
        ) < usize::MAX),
        ok ==> builder_steps(*final(b)) == builder_steps(*old(b)).push(token_step(kind, len)),
{
    b.builder.token(kind, len).is_ok()
}

/// `syntree::Builder::build`: the tree, exactly where every node opened was closed; it
/// holds the steps the builder took.
#[verifier::external_body]
fn builder_build(b: TreeBuilder) -> (r: Option<Tree>)
    ensures
        r is Some <==> step_depth(builder_steps(b)) == 0,
        r matches Some(t) ==> tree_steps(t) == builder_steps(b),
{
    match b.builder.build() {
        Ok(tree) => Some(Tree { tree }),
        Err(_) => None,
    }
}

/// The kinds of the nodes and tokens that the steps `s` add, in order.
pub open spec fn step_kinds(s: Seq<(u8, u16, usize)>) -> Seq<u16>
    decreases s.len(),
{
    if s.len() == 0 {
        Seq::empty()
    } else if s.last().0 == 1u8 {
        step_kinds(s.drop_last())
    } else {
        step_kinds(s.drop_last()).push(s.last().1)
    }
}

/// The nodes and tokens of a tree in the order of a depth-first walk: kind number, first
/// byte and the byte past the end.
pub uninterp spec fn tree_nodes(t: Tree) -> Seq<(u16, usize, usize)>;

/// The byte count where the node that is open `d` deep at step `k` of `s` closes, with
/// `acc` bytes taken before step `k` (at the end of the steps where it never closes).
pub open spec fn close_bytes(s: Seq<(u8, u16, usize)>, k: int, d: int, acc: int) -> int
    decreases s.len() - k,
{
    if k < 0 || k >= s.len() {
        acc
    } else if s[k].0 == 1u8 {
        if d <= 1 {
            acc
        } else {
            close_bytes(s, k + 1, d - 1, acc)
        }
    } else if s[k].0 == 0u8 {
        close_bytes(s, k + 1, d + 1, acc)
    } else {
        close_bytes(s, k + 1, d, acc + s[k].2)
    }
}

/// The nodes and tokens that the steps of `s` from `k` on add, in order, with their spans: a
/// token covers its bytes after those of the steps before it; a node starts at the byte
/// count where it opens and ends at the one where it closes.
pub open spec fn walk_from(s: Seq<(u8, u16, usize)>, k: int) -> Seq<(u16, usize, usize)>
    decreases s.len() - k,
{
    if k < 0 || k >= s.len() {
        Seq::empty()
    } else if s[k].0 == 1u8 {
        walk_from(s, k + 1)
    } else {
        let start = step_bytes(s.take(k));
        let end = if s[k].0 == 0u8 {
            close_bytes(s, k + 1, 1, start)
        } else {
            start + s[k].2
        };
        seq![(s[k].1, start as usize, end as usize)] + walk_from(s, k + 1)
    }
}

/// `syntree::Tree::walk`: every node and token, depth first, with its kind and span. The
/// walk visits them in the order they were added, so their kinds are those of the steps
/// that built the tree. The builder's byte cursor moves only over tokens, a token spans
/// its bytes from the cursor, and a node spans from the cursor where it opened to the end
/// of its last child (the cursor where it closed), so the spans are those of `walk_from`.
#[verifier::external_body]
fn tree_walk(t: &Tree) -> (r: Vec<(u16, usize, usize)>)
    ensures
        r@ == tree_nodes(*t),
        r@.map_values(|n: (u16, usize, usize)| n.0) == step_kinds(tree_steps(*t)),
        r@ == walk_from(tree_steps(*t), 0),
{
    t.tree.walk().map(|n| (n.value(), n.span().start as usize, n.span().end as usize)).collect()
}

impl Clone for Tree {
    /// `syntree::Tree::clone`: a copy that holds the same steps and nodes.
    #[verifier::external_body]
    fn clone(&self) -> (r: Self)
        ensures
            tree_steps(r) == tree_steps(*self),
            tree_nodes(r) == tree_nodes(*self),
    {
        Tree { tree: self.tree.clone() }
    }
}

impl Tree {
    /// The nodes and tokens of the tree, depth first: kind number, first byte and the byte
    /// past the end.
    pub fn nodes(&self) -> (r: Vec<(u16, usize, usize)>)
        ensures
            r@ == tree_nodes(*self),
            r@ == walk_from(tree_steps(*self), 0),
            r@.map_values(|n: (u16, usize, usize)| n.0) == step_kinds(tree_steps(*self)),
    {
        tree_walk(self)
    }
}

// ---------------------------------------------------------------------------------------
// What tree the events describe
// ---------------------------------------------------------------------------------------

/// The step that adds the raw token `t`.
pub open spec fn raw_step(t: LexToken) -> (u8, u16, usize) {
    token_step(t.token.spec_code(), (t.range.end - t.range.start) as usize)
}

/// Where the run of whitespace tokens that starts at `next` ends.
pub open spec fn trivia_end(raw: Seq<LexToken>, next: int) -> int
    decreases raw.len() - next,
{
    if 0 <= next < raw.len() && is_trivia(raw[next].token) {
        trivia_end(raw, next + 1)
    } else {
        next
    }
}

/// The steps that add the raw tokens from `from` up to `to`.
pub open spec fn raw_steps(raw: Seq<LexToken>, from: int, to: int) -> Seq<(u8, u16, usize)> {
    raw.subrange(from, to).map_values(|t: LexToken| raw_step(t))
}

/// The steps that the events from `i` on describe, where the raw tokens from `next` on
/// are still to be placed. Whitespace goes before each node and token (but not before
/// the module), and after each token that does not end a node; a token of an `Advance`
/// takes the length of the next raw token and the kind of the event.
pub open spec fn tree_of(ev: Seq<Event>, i: int, raw: Seq<LexToken>, next: int) -> Seq<(u8, u16, usize)>
    decreases ev.len() - i,
{
    if i < 0 || i >= ev.len() || next < 0 || next > raw.len() {
        Seq::empty()
    } else {
        match ev[i] {
            Event::Open { node } => {
                let n1 = if node == Syntax::MODULE {
                    next
                } else {
                    trivia_end(raw, next)
                };
                raw_steps(raw, next, n1).push(open_step(node.spec_code())) + tree_of(
                    ev,
                    i + 1,
                    raw,
                    n1,
                )
            },
            Event::Close => seq![close_step()] + tree_of(ev, i + 1, raw, next),
            Event::Checkpoint => tree_of(ev, i + 1, raw, next),
            Event::Advance { token } => {
                let n1 = trivia_end(raw, next);
                if n1 >= raw.len() {
                    raw_steps(raw, next, n1) + tree_of(ev, i + 1, raw, n1)
                } else {
                    let n2 = n1 + 1;
                    let n3 = if i + 1 < ev.len() && ev[i + 1] == Event::Close {
                        n2
                    } else {
                        trivia_end(raw, n2)
                    };
                    raw_steps(raw, next, n1).push(
                        token_step(token.spec_code(), (raw[n1].range.end - raw[n1].range.start) as usize),
                    ) + raw_steps(raw, n2, n3) + tree_of(ev, i + 1, raw, n3)
                }
            },
        }
    }
}

proof fn lemma_step_depth_push(s: Seq<(u8, u16, usize)>, x: (u8, u16, usize))
    ensures
        step_depth(s.push(x)) == step_depth(s) + step_weight(x),
{
    assert(s.push(x).drop_last() =~= s);
}

proof fn lemma_step_depth_concat(a: Seq<(u8, u16, usize)>, b: Seq<(u8, u16, usize)>)
    ensures
        step_depth(a + b) == step_depth(a) + step_depth(b),
    decreases b.len(),
{
    if b.len() > 0 {
        lemma_step_depth_concat(a, b.drop_last());
        assert((a + b).drop_last() =~= a + b.drop_last());
    } else {
        assert(a + b =~= a);
    }
}

proof fn lemma_raw_steps_depth(raw: Seq<LexToken>, from: int, to: int)
    requires
        0 <= from <= to <= raw.len(),
    ensures
        step_depth(raw_steps(raw, from, to)) == 0,
    decreases to - from,
{
    if to > from {
        lemma_raw_steps_depth(raw, from, to - 1);
        assert(raw_steps(raw, from, to).drop_last() =~= raw_steps(raw, from, to - 1));
    } else {
        assert(raw_steps(raw, from, to).len() == 0);
    }
}

proof fn lemma_trivia_end_bounds(raw: Seq<LexToken>, next: int)
    requires
        0 <= next <= raw.len(),
    ensures
        next <= trivia_end(raw, next) <= raw.len(),
        trivia_end(raw, next) == raw.len() || !is_trivia(raw[trivia_end(raw, next)].token),
    decreases raw.len() - next,
{
    if next < raw.len() && is_trivia(raw[next].token) {
        lemma_trivia_end_bounds(raw, next + 1);
    }
}

proof fn lemma_open_push(s: Seq<(u8, u16, usize)>, x: (u8, u16, usize), lo: int, d: int)
    requires
        0 <= lo,
        open_from(s, lo, d),
        step_depth(s) + step_weight(x) >= d,
    ensures
        open_from(s.push(x), lo, d),
{
    let t = s.push(x);
    lemma_step_depth_push(s, x);
    assert forall|j: int| lo <= j <= t.len() implies step_depth(#[trigger] t.take(j)) >= d by {
        if j <= s.len() {
            assert(t.take(j) =~= s.take(j));
        } else {
            assert(t.take(j) =~= t);
        }
    }
}

proof fn lemma_open_raw(s: Seq<(u8, u16, usize)>, raw: Seq<LexToken>, from: int, to: int, lo: int, d: int)
    requires
        0 <= lo,
        open_from(s, lo, d),
        step_depth(s) >= d,
        0 <= from <= to <= raw.len(),
    ensures
        open_from(s + raw_steps(raw, from, to), lo, d),
        step_depth(s + raw_steps(raw, from, to)) == step_depth(s),
    decreases to - from,
{
    lemma_raw_steps_depth(raw, from, to);
    lemma_step_depth_concat(s, raw_steps(raw, from, to));
    if to > from {
        lemma_open_raw(s, raw, from, to - 1, lo, d);
        lemma_raw_steps_push(raw, from, to - 1);
        lemma_raw_steps_depth(raw, from, to - 1);
        lemma_step_depth_concat(s, raw_steps(raw, from, to - 1));
        assert(s + raw_steps(raw, from, to) =~= (s + raw_steps(raw, from, to - 1)).push(
            raw_step(raw[to - 1]),
        ));
        lemma_open_push(s + raw_steps(raw, from, to - 1), raw_step(raw[to - 1]), lo, d);
    } else {
        assert(s + raw_steps(raw, from, to) =~= s);
    }
}

/// The depth of the first `i + 1` events is that of the first `i` and the weight of
/// event `i`.
proof fn lemma_depth_take(ev: Seq<Event>, i: int)
    requires
        0 <= i < ev.len(),
    ensures
        depth(ev.take(i + 1)) == depth(ev.take(i)) + crate::parsing::parser::weight(ev[i]),
{
    assert(ev.take(i + 1).drop_last() =~= ev.take(i));
}

/// Whether `syntree` can take the steps `s`: fewer nodes and tokens than `usize` numbers,
/// and no more bytes than a `u32` counts.
pub open spec fn within_limits(s: Seq<(u8, u16, usize)>) -> bool {
    step_count(s) < usize::MAX && step_bytes(s) <= u32::MAX
}

proof fn lemma_count_concat(a: Seq<(u8, u16, usize)>, b: Seq<(u8, u16, usize)>)
    ensures
        step_count(a + b) == step_count(a) + step_count(b),
        step_bytes(a + b) == step_bytes(a) + step_bytes(b),
        step_count(b) >= 0,
        step_bytes(b) >= 0,
    decreases b.len(),
{
    if b.len() > 0 {
        lemma_count_concat(a, b.drop_last());
        assert((a + b).drop_last() =~= a + b.drop_last());
    } else {
        assert(a + b =~= a);
    }
}

/// Where `syntree` can take the steps `s`, one more step `x` and then `rest`, it can take
/// `x` after `s`.
proof fn lemma_within_push(s: Seq<(u8, u16, usize)>, x: (u8, u16, usize), rest: Seq<(u8, u16, usize)>)
    requires
        within_limits(s.push(x) + rest),
    ensures
        within_limits(s),
        within_limits(s.push(x)),
        x.0 != 1u8 ==> step_count(s) + 1 < usize::MAX,
        x.0 == 2u8 ==> step_bytes(s) + x.2 <= u32::MAX,
{
    lemma_count_concat(s.push(x), rest);
    lemma_count_concat(s, seq![x]);
    assert(s + seq![x] =~= s.push(x));
    assert(seq![x].drop_last() =~= Seq::<(u8, u16, usize)>::empty());
    lemma_count_concat(Seq::<(u8, u16, usize)>::empty(), Seq::<(u8, u16, usize)>::empty());
}

/// What `syntree` can take, it can take up to any point.
proof fn lemma_within_prefix(a: Seq<(u8, u16, usize)>, b: Seq<(u8, u16, usize)>)
    requires
        within_limits(a + b),
    ensures
        within_limits(a),
{
    lemma_count_concat(a, b);
}

proof fn lemma_raw_steps_split(raw: Seq<LexToken>, from: int, mid: int, to: int)
    requires
        0 <= from <= mid < to <= raw.len(),
    ensures
        raw_steps(raw, from, to) == raw_steps(raw, from, mid).push(raw_step(raw[mid])) + raw_steps(
            raw,
            mid + 1,
            to,
        ),
{
    let f = |t: LexToken| raw_step(t);
    assert(raw.subrange(from, to) =~= raw.subrange(from, mid).push(raw[mid]) + raw.subrange(
        mid + 1,
        to,
    ));
    assert(raw_steps(raw, from, to) =~= raw_steps(raw, from, mid).push(raw_step(raw[mid]))
        + raw_steps(raw, mid + 1, to));
}

proof fn lemma_raw_steps_push(raw: Seq<LexToken>, from: int, to: int)
    requires
        0 <= from <= to < raw.len(),
    ensures
        raw_steps(raw, from, to + 1) == raw_steps(raw, from, to).push(raw_step(raw[to])),
{
    let a = raw.subrange(from, to + 1);
    let c = raw.subrange(from, to);
    assert(a =~= c.push(raw[to]));
    let f = |t: LexToken| raw_step(t);
    assert(a.map_values(f) =~= c.map_values(f).push(f(raw[to])));
}

/// Placing the events from `i` on after steps `s` that keep the module open keeps it open
/// up to the last step, which closes it.
#[verifier::rlimit(60)]
proof fn lemma_tree_of_stays_open(
    ev: Seq<Event>,
    i: int,
    raw: Seq<LexToken>,
    next: int,
    s: Seq<(u8, u16, usize)>,
)
    requires
        module_shaped(ev),
        1 <= i < ev.len(),
        0 <= next <= raw.len(),
        s.len() >= 1,
        open_from(s, 1, 1),
        step_depth(s) == depth(ev.take(i)),
    ensures
        ({
            let all = s + tree_of(ev, i, raw, next);
            &&& all.len() >= s.len() + 1
            &&& all[0] == s[0]
            &&& all.last() == close_step()
            &&& open_from(all.drop_last(), 1, 1)
        }),
    decreases ev.len() - i,
{
    lemma_module_shaped(ev);
    lemma_depth_take(ev, i);
    lemma_trivia_end_bounds(raw, next);
    let t = tree_of(ev, i, raw, next);
    match ev[i] {
        Event::Open { node } => {
            let n1 = if node == Syntax::MODULE {
                next
            } else {
                trivia_end(raw, next)
            };
            let r = raw_steps(raw, next, n1);
            let o = open_step(node.spec_code());
            lemma_open_raw(s, raw, next, n1, 1, 1);
            lemma_open_push(s + r, o, 1, 1);
            lemma_step_depth_push(s + r, o);
            let s1 = (s + r).push(o);
            lemma_tree_of_stays_open(ev, i + 1, raw, n1, s1);
            assert(s + t =~= s1 + tree_of(ev, i + 1, raw, n1));
        },
        Event::Close => {
            let c = close_step();
            if i == ev.len() - 1 {
                assert(tree_of(ev, i + 1, raw, next) =~= Seq::<(u8, u16, usize)>::empty());
                assert(s + t =~= s.push(c));
                assert((s + t).drop_last() =~= s);
            } else {
                lemma_open_push(s, c, 1, 1);
                lemma_step_depth_push(s, c);
                lemma_tree_of_stays_open(ev, i + 1, raw, next, s.push(c));
                assert(s + t =~= s.push(c) + tree_of(ev, i + 1, raw, next));
            }
        },
        Event::Checkpoint => {
            lemma_tree_of_stays_open(ev, i + 1, raw, next, s);
        },
        Event::Advance { token } => {
            let n1 = trivia_end(raw, next);
            let r1 = raw_steps(raw, next, n1);
            lemma_open_raw(s, raw, next, n1, 1, 1);
            if n1 >= raw.len() {
                lemma_tree_of_stays_open(ev, i + 1, raw, n1, s + r1);
                assert(s + t =~= (s + r1) + tree_of(ev, i + 1, raw, n1));
            } else {
                let n2 = n1 + 1;
                lemma_trivia_end_bounds(raw, n2);
                let n3 = if i + 1 < ev.len() && ev[i + 1] == Event::Close {
                    n2
                } else {
                    trivia_end(raw, n2)
                };
                let tk = token_step(
                    token.spec_code(),
                    (raw[n1].range.end - raw[n1].range.start) as usize,
                );
                lemma_open_push(s + r1, tk, 1, 1);
                lemma_step_depth_push(s + r1, tk);
                let s2 = (s + r1).push(tk);
                lemma_open_raw(s2, raw, n2, n3, 1, 1);
                let s3 = s2 + raw_steps(raw, n2, n3);
                lemma_tree_of_stays_open(ev, i + 1, raw, n3, s3);
                assert(s + t =~= s3 + tree_of(ev, i + 1, raw, n3));
            }
        },
    }
}

/// The steps of one module node's events build a tree rooted at the module.
proof fn lemma_tree_of_rooted(ev: Seq<Event>, raw: Seq<LexToken>)
    requires
        module_shaped(ev),
    ensures
        rooted(tree_of(ev, 0, raw, 0)),
{
    lemma_module_shaped(ev);
    let o = open_step(Syntax::MODULE.spec_code());
    let e = Seq::<(u8, u16, usize)>::empty();
    assert(raw_steps(raw, 0, 0) =~= e);
    assert(tree_of(ev, 0, raw, 0) == raw_steps(raw, 0, 0).push(o) + tree_of(ev, 1, raw, 0));
    lemma_nest_empty();
    lemma_open_push(e, o, 1, 1);
    lemma_step_depth_push(e, o);
    assert(e.push(o) =~= seq![o]);
    assert(ev.take(1) =~= seq![ev[0]]);
    lemma_depth_take(ev, 0);
    assert(ev.take(0) =~= Seq::<Event>::empty());
    lemma_tree_of_stays_open(ev, 1, raw, 0, seq![o]);
    assert(tree_of(ev, 0, raw, 0) =~= seq![o] + tree_of(ev, 1, raw, 0));
}

/// Adds the whitespace tokens from `next` on to the tree and moves past them.
fn skip_trivia(b: &mut TreeBuilder, raw: &Vec<LexToken>, next: &mut usize) -> (ok: bool)
    requires
        *old(next) <= raw@.len(),
        forall|k: int| 0 <= k < raw@.len() ==> #[trigger] raw@[k].range.start < raw@[k].range.end,
    ensures
        *final(next) <= raw@.len(),
        ok ==> *final(next) == trivia_end(raw@, *old(next) as int),
        ok ==> builder_steps(*final(b)) == builder_steps(*old(b)) + raw_steps(
            raw@,
            *old(next) as int,
            *final(next) as int,
        ),
        within_limits(
            builder_steps(*old(b)) + raw_steps(
                raw@,
                *old(next) as int,
                trivia_end(raw@, *old(next) as int),
            ),
        ) ==> ok,
{
    let ghost start = *next as int;
    let ghost s0 = builder_steps(*b);
    assert(raw_steps(raw@, start, start) =~= Seq::<(u8, u16, usize)>::empty());
    assert(s0 + Seq::<(u8, u16, usize)>::empty() =~= s0);
    let mut cur: usize = *next;
    loop
        invariant
            start == *old(next) as int,
            0 <= start <= cur <= raw@.len(),
            forall|k: int| 0 <= k < raw@.len() ==> #[trigger] raw@[k].range.start < raw@[k].range.end,
            trivia_end(raw@, cur as int) == trivia_end(raw@, start),
            builder_steps(*b) == s0 + raw_steps(raw@, start, cur as int),
            s0 == builder_steps(*old(b)),
        ensures
            cur == trivia_end(raw@, start),
        decreases raw@.len() - cur,
    {
        if cur >= raw.len() {
            break;
        }
        let t = &raw[cur];
        if !t.token.is_whitespace() {
            break;
        }
        let len = t.range.end - t.range.start;
        proof {
            let te = trivia_end(raw@, start);
            if within_limits(s0 + raw_steps(raw@, start, te)) {
                assert(is_trivia(raw@[cur as int].token));
                assert(trivia_end(raw@, cur as int) == trivia_end(raw@, cur + 1));
                lemma_trivia_end_bounds(raw@, cur + 1);
                lemma_raw_steps_split(raw@, start, cur as int, te);
                let x = raw_step(raw@[cur as int]);
                let rest = raw_steps(raw@, cur + 1, te);
                assert(s0 + raw_steps(raw@, start, te) =~= (s0 + raw_steps(raw@, start, cur as int)).push(x) + rest);
                lemma_within_push(s0 + raw_steps(raw@, start, cur as int), x, rest);
            }
        }
        if !builder_token(b, t.token.code(), len) {
            *next = cur;
            return false;
        }
        proof {
            lemma_raw_steps_push(raw@, start, cur as int);
            assert(s0 + raw_steps(raw@, start, cur + 1) =~= (s0 + raw_steps(
                raw@,
                start,
                cur as int,
            )).push(raw_step(raw@[cur as int])));
        }
        cur = cur + 1;
    }
    *next = cur;
    true
}

/// Opens a node of kind `node`, after the whitespace that precedes it (none before the
/// module).
fn place_open(b: &mut TreeBuilder, raw: &Vec<LexToken>, next: &mut usize, node: Syntax) -> (ok: bool)
    requires
        *old(next) <= raw@.len(),
        forall|k: int| 0 <= k < raw@.len() ==> #[trigger] raw@[k].range.start < raw@[k].range.end,
    ensures
        *final(next) <= raw@.len(),
        ok ==> *final(next) == (if node == Syntax::MODULE {
            *old(next) as int
        } else {
            trivia_end(raw@, *old(next) as int)
        }),
        ok ==> builder_steps(*final(b)) == (builder_steps(*old(b)) + raw_steps(
            raw@,
            *old(next) as int,
            *final(next) as int,
        )).push(open_step(node.spec_code())),
        within_limits(
            (builder_steps(*old(b)) + raw_steps(
                raw@,
                *old(next) as int,
                if node == Syntax::MODULE {
                    *old(next) as int
                } else {
                    trivia_end(raw@, *old(next) as int)
                },
            )).push(open_step(node.spec_code())),
        ) ==> ok,
{
    let ghost n0 = *next as int;
    let ghost s0 = builder_steps(*b);
    proof {
        lemma_trivia_end_bounds(raw@, n0);
        let n1 = if node == Syntax::MODULE {
            n0
        } else {
            trivia_end(raw@, n0)
        };
        let pre = s0 + raw_steps(raw@, n0, n1);
        if within_limits(pre.push(open_step(node.spec_code()))) {
            assert(pre.push(open_step(node.spec_code())) + Seq::<(u8, u16, usize)>::empty()
                =~= pre.push(open_step(node.spec_code())));
            lemma_within_push(pre, open_step(node.spec_code()), Seq::<(u8, u16, usize)>::empty());
        }
    }
    if node != Syntax::MODULE {
        if !skip_trivia(b, raw, next) {
            return false;
        }
    } else {
        assert(raw_steps(raw@, n0, n0) =~= Seq::<(u8, u16, usize)>::empty());
        assert(builder_steps(*b) + raw_steps(raw@, n0, n0) =~= builder_steps(*b));
    }
    builder_open(b, node.code())
}

/// Adds the token of an `Advance` of kind `token`: the whitespace before it, then the next
/// raw token with the kind `token`, then (unless a node ends right after it) the
/// whitespace after it.
fn place_token(
    b: &mut TreeBuilder,
    raw: &Vec<LexToken>,
    next: &mut usize,
    token: Syntax,
    closes: bool,
) -> (ok: bool)
    requires
        *old(next) <= raw@.len(),
        forall|k: int| 0 <= k < raw@.len() ==> #[trigger] raw@[k].range.start < raw@[k].range.end,
    ensures
        *final(next) <= raw@.len(),
        ok ==> ({
            let n0 = *old(next) as int;
            let n1 = trivia_end(raw@, n0);
            let s0 = builder_steps(*old(b));
            if n1 >= raw@.len() {
                &&& *final(next) == n1
                &&& builder_steps(*final(b)) == s0 + raw_steps(raw@, n0, n1)
            } else {
                let n2 = n1 + 1;
                let n3 = if closes {
                    n2
                } else {
                    trivia_end(raw@, n2)
                };
                &&& *final(next) == n3
                &&& builder_steps(*final(b)) == (s0 + raw_steps(raw@, n0, n1)).push(
                    token_step(token.spec_code(), (raw@[n1].range.end - raw@[n1].range.start) as usize),
                ) + raw_steps(raw@, n2, n3)
            }
        }),
        ({
            let n0 = *old(next) as int;
            let n1 = trivia_end(raw@, n0);
            let s0 = builder_steps(*old(b));
            if n1 >= raw@.len() {
                within_limits(s0 + raw_steps(raw@, n0, n1))
            } else {
                let n2 = n1 + 1;
                let n3 = if closes {
                    n2
                } else {
                    trivia_end(raw@, n2)
                };
                within_limits(
                    (s0 + raw_steps(raw@, n0, n1)).push(
                        token_step(token.spec_code(), (raw@[n1].range.end - raw@[n1].range.start) as usize),
                    ) + raw_steps(raw@, n2, n3),
                )
            }
        }) ==> ok,
{
    let ghost n0 = *next as int;
    let ghost s0 = builder_steps(*b);
    let ghost n1 = trivia_end(raw@, n0);
    let ghost whole_ok = ({
        if n1 >= raw@.len() {
            within_limits(s0 + raw_steps(raw@, n0, n1))
        } else {
            let n2 = n1 + 1;
            let n3 = if closes {
                n2
            } else {
                trivia_end(raw@, n2)
            };
            within_limits(
                (s0 + raw_steps(raw@, n0, n1)).push(
                    token_step(token.spec_code(), (raw@[n1].range.end - raw@[n1].range.start) as usize),
                ) + raw_steps(raw@, n2, n3),
            )
        }
    });
    proof {
        lemma_trivia_end_bounds(raw@, n0);
        if whole_ok && n1 < raw@.len() {
            let n2 = n1 + 1;
            let n3 = if closes {
                n2
            } else {
                trivia_end(raw@, n2)
            };
            let tk = token_step(token.spec_code(), (raw@[n1].range.end - raw@[n1].range.start) as usize);
            lemma_within_push(s0 + raw_steps(raw@, n0, n1), tk, raw_steps(raw@, n2, n3));
        }
    }
    if !skip_trivia(b, raw, next) {
        return false;
    }
    if *next >= raw.len() {
        return true;
    }
    let t = &raw[*next];
    if !builder_token(b, token.code(), t.range.end - t.range.start) {
        return false;
    }
    *next = *next + 1;
    let ghost s1 = builder_steps(*b);
    let ghost n2 = *next as int;
    proof {
        if whole_ok && !closes {
            let tk = token_step(token.spec_code(), (raw@[n1].range.end - raw@[n1].range.start) as usize);
            assert(s1 == (s0 + raw_steps(raw@, n0, n1)).push(tk));
        }
    }
    if !closes {
        if !skip_trivia(b, raw, next) {
            return false;
        }
    } else {
        assert(raw_steps(raw@, n2, n2) =~= Seq::<(u8, u16, usize)>::empty());
        assert(s1 + raw_steps(raw@, n2, n2) =~= s1);
    }
    true
}

/// The byte lengths of the tokens that the steps `s` add, in order.
pub open spec fn token_lens(s: Seq<(u8, u16, usize)>) -> Seq<int>
    decreases s.len(),
{
    if s.len() == 0 {
        Seq::empty()
    } else if s.last().0 == 2u8 {
        token_lens(s.drop_last()).push(s.last().2 as int)
    } else {
        token_lens(s.drop_last())
    }
}

/// The byte lengths of the tokens (kind, first byte, byte past the end), in order.
pub open spec fn lexed_lens(t: Seq<(Syntax, int, int)>) -> Seq<int> {
    t.map_values(|x: (Syntax, int, int)| x.2 - x.1)
}

/// The byte lengths of raw tokens, in order.
pub open spec fn raw_lens(r: Seq<LexToken>) -> Seq<int> {
    r.map_values(|t: LexToken| t.range.end - t.range.start)
}

/// Where the raw tokens that `tree_of(ev, i, raw, next)` places end.
pub open spec fn tree_end(ev: Seq<Event>, i: int, raw: Seq<LexToken>, next: int) -> int
    decreases ev.len() - i,
{
    if i < 0 || i >= ev.len() || next < 0 || next > raw.len() {
        next
    } else {
        match ev[i] {
            Event::Open { node } => tree_end(
                ev,
                i + 1,
                raw,
                if node == Syntax::MODULE {
                    next
                } else {
                    trivia_end(raw, next)
                },
            ),
            Event::Close => tree_end(ev, i + 1, raw, next),
            Event::Checkpoint => tree_end(ev, i + 1, raw, next),
            Event::Advance { .. } => {
                let n1 = trivia_end(raw, next);
                if n1 >= raw.len() {
                    tree_end(ev, i + 1, raw, n1)
                } else {
                    let n2 = n1 + 1;
                    let n3 = if i + 1 < ev.len() && ev[i + 1] == Event::Close {
                        n2
                    } else {
                        trivia_end(raw, n2)
                    };
                    tree_end(ev, i + 1, raw, n3)
                }
            },
        }
    }
}

proof fn lemma_token_lens_concat(a: Seq<(u8, u16, usize)>, b: Seq<(u8, u16, usize)>)
    ensures
        token_lens(a + b) == token_lens(a) + token_lens(b),
    decreases b.len(),
{
    if b.len() > 0 {
        lemma_token_lens_concat(a, b.drop_last());
        assert((a + b).drop_last() =~= a + b.drop_last());
    } else {
        assert(a + b =~= a);
        assert(token_lens(a) + token_lens(b) =~= token_lens(a));
    }
}

proof fn lemma_token_lens_raw(raw: Seq<LexToken>, from: int, to: int)
    requires
        0 <= from <= to <= raw.len(),
        forall|k: int| 0 <= k < raw.len() ==> #[trigger] raw[k].range.start < raw[k].range.end,
    ensures
        token_lens(raw_steps(raw, from, to)) == raw_lens(raw.subrange(from, to)),
    decreases to - from,
{
    if to > from {
        lemma_token_lens_raw(raw, from, to - 1);
        lemma_raw_steps_push(raw, from, to - 1);
        let s = raw_steps(raw, from, to);
        assert(s.drop_last() =~= raw_steps(raw, from, to - 1));
        assert(raw_lens(raw.subrange(from, to)) =~= raw_lens(raw.subrange(from, to - 1)).push(
            raw[to - 1].range.end - raw[to - 1].range.start,
        ));
    } else {
        assert(raw_steps(raw, from, to) =~= Seq::<(u8, u16, usize)>::empty());
        assert(raw_lens(raw.subrange(from, to)) =~= Seq::<int>::empty());
    }
}

proof fn lemma_raw_lens_split(raw: Seq<LexToken>, a: int, b: int, c: int)
    requires
        0 <= a <= b <= c <= raw.len(),
    ensures
        raw_lens(raw.subrange(a, b)) + raw_lens(raw.subrange(b, c)) == raw_lens(raw.subrange(a, c)),
{
    assert(raw_lens(raw.subrange(a, b)) + raw_lens(raw.subrange(b, c)) =~= raw_lens(
        raw.subrange(a, c),
    ));
}

/// The tree that balanced events describe holds the raw tokens from `next` up to
/// `tree_end`, each once and in order: its tokens have their lengths.
#[verifier::rlimit(60)]
proof fn lemma_tree_of_tokens(ev: Seq<Event>, i: int, raw: Seq<LexToken>, next: int)
    requires
        0 <= next <= raw.len(),
        0 <= i,
        forall|k: int| 0 <= k < raw.len() ==> #[trigger] raw[k].range.start < raw[k].range.end,
    ensures
        next <= tree_end(ev, i, raw, next) <= raw.len(),
        token_lens(tree_of(ev, i, raw, next)) == raw_lens(
            raw.subrange(next, tree_end(ev, i, raw, next)),
        ),
    decreases ev.len() - i,
{
    if i >= ev.len() {
        assert(raw_lens(raw.subrange(next, next)) =~= Seq::<int>::empty());
        assert(token_lens(Seq::<(u8, u16, usize)>::empty()) =~= Seq::<int>::empty());
    } else {
        lemma_trivia_end_bounds(raw, next);
        match ev[i] {
            Event::Open { node } => {
                let n1 = if node == Syntax::MODULE {
                    next
                } else {
                    trivia_end(raw, next)
                };
                lemma_tree_of_tokens(ev, i + 1, raw, n1);
                let r = raw_steps(raw, next, n1);
                let o = open_step(node.spec_code());
                let t = tree_of(ev, i + 1, raw, n1);
                lemma_token_lens_concat(r.push(o), t);
                assert(r.push(o).drop_last() == r);
                lemma_token_lens_raw(raw, next, n1);
                lemma_raw_lens_split(raw, next, n1, tree_end(ev, i + 1, raw, n1));
            },
            Event::Close => {
                lemma_tree_of_tokens(ev, i + 1, raw, next);
                let c = seq![close_step()];
                lemma_token_lens_concat(c, tree_of(ev, i + 1, raw, next));
                assert(c.drop_last() =~= Seq::<(u8, u16, usize)>::empty());
                assert(c.last() == close_step());
                assert(token_lens(Seq::<(u8, u16, usize)>::empty()) == Seq::<int>::empty());
                assert(token_lens(c) == token_lens(c.drop_last()));
                assert(token_lens(c) =~= Seq::<int>::empty());
                assert(Seq::<int>::empty() + token_lens(tree_of(ev, i + 1, raw, next)) =~= token_lens(
                    tree_of(ev, i + 1, raw, next),
                ));
            },
            Event::Checkpoint => {
                lemma_tree_of_tokens(ev, i + 1, raw, next);
            },
            Event::Advance { token } => {
                let n1 = trivia_end(raw, next);
                let r1 = raw_steps(raw, next, n1);
                lemma_token_lens_raw(raw, next, n1);
                if n1 >= raw.len() {
                    lemma_tree_of_tokens(ev, i + 1, raw, n1);
                    let t = tree_of(ev, i + 1, raw, n1);
                    lemma_token_lens_concat(r1, t);
                    lemma_raw_lens_split(raw, next, n1, tree_end(ev, i + 1, raw, n1));
                } else {
                    let n2 = n1 + 1;
                    lemma_trivia_end_bounds(raw, n2);
                    let n3 = if i + 1 < ev.len() && ev[i + 1] == Event::Close {
                        n2
                    } else {
                        trivia_end(raw, n2)
                    };
                    lemma_tree_of_tokens(ev, i + 1, raw, n3);
                    let tk = token_step(
                        token.spec_code(),
                        (raw[n1].range.end - raw[n1].range.start) as usize,
                    );
                    let r2 = raw_steps(raw, n2, n3);
                    let t = tree_of(ev, i + 1, raw, n3);
                    let e = tree_end(ev, i + 1, raw, n3);
                    lemma_token_lens_concat(r1.push(tk) + r2, t);
                    lemma_token_lens_concat(r1.push(tk), r2);
                    assert(r1.push(tk).drop_last() == r1);
                    lemma_token_lens_raw(raw, n2, n3);
                    lemma_raw_lens_split(raw, next, n1, n2);
                    assert(raw_lens(raw.subrange(n1, n2)) =~= seq![
                        raw[n1].range.end - raw[n1].range.start,
                    ]);
                    lemma_raw_lens_split(raw, next, n2, n3);
                    lemma_raw_lens_split(raw, next, n3, e);
                    assert(token_lens(r1.push(tk)) =~= raw_lens(raw.subrange(next, n1)).push(
                        raw[n1].range.end - raw[n1].range.start,
                    ));
                    assert(raw_lens(raw.subrange(next, n1)).push(
                        raw[n1].range.end - raw[n1].range.start,
                    ) =~= raw_lens(raw.subrange(next, n2)));
                }
            },
        }
    }
}

/// The number of raw tokens from `k` on that are not whitespace.
pub open spec fn sig_from(raw: Seq<LexToken>, k: int) -> int
    decreases raw.len() - k,
{
    if k < 0 || k >= raw.len() {
        0
    } else if is_trivia(raw[k].token) {
        sig_from(raw, k + 1)
    } else {
        1 + sig_from(raw, k + 1)
    }
}

/// Whitespace does not count, and where nothing counts, all is whitespace.
proof fn lemma_sig_from(raw: Seq<LexToken>, k: int)
    requires
        0 <= k <= raw.len(),
    ensures
        sig_from(raw, k) >= 0,
        sig_from(raw, trivia_end(raw, k)) == sig_from(raw, k),
        sig_from(raw, k) == 0 ==> forall|j: int| k <= j < raw.len() ==> is_trivia(#[trigger] raw[j].token),
    decreases raw.len() - k,
{
    if k < raw.len() {
        lemma_sig_from(raw, k + 1);
    }
}

/// The whitespace-free tokens of the first `k` raw tokens and those from `k` on make up all
/// of them.
proof fn lemma_significant_count(raw: Seq<LexToken>, k: int)
    requires
        0 <= k <= raw.len(),
    ensures
        significant(raw.take(k)).len() + sig_from(raw, k) == sig_from(raw, 0),
    decreases k,
{
    if k == 0 {
        assert(raw.take(0).len() == 0);
    } else {
        lemma_significant_count(raw, k - 1);
        assert(raw.take(k).drop_last() =~= raw.take(k - 1));
        assert(raw.take(k).last() == raw[k - 1]);
    }
}

/// An event adds one consumed token if it is an `Advance`.
proof fn lemma_advances_skip(ev: Seq<Event>, i: int)
    requires
        0 <= i < ev.len(),
    ensures
        advances(ev.skip(i)) == advances(ev.skip(i + 1)) + if ev[i] is Advance {
            1int
        } else {
            0int
        },
{
    let one = seq![ev[i]];
    lemma_advances_concat(one, ev.skip(i + 1));
    assert(ev.skip(i) =~= one + ev.skip(i + 1));
    assert(one.drop_last() =~= Seq::<Event>::empty());
    assert(advances(Seq::<Event>::empty()) == 0);
}

/// Where the events from `i` on consume at least as many tokens as there are tokens other
/// than whitespace from `next` on, every raw token that the tree leaves out is whitespace.
#[verifier::rlimit(40)]
proof fn lemma_tree_end_covers(ev: Seq<Event>, i: int, raw: Seq<LexToken>, next: int)
    requires
        0 <= next <= raw.len(),
        0 <= i <= ev.len(),
        advances(ev.skip(i)) >= sig_from(raw, next),
    ensures
        forall|j: int| tree_end(ev, i, raw, next) <= j < raw.len() ==> is_trivia(#[trigger] raw[j].token),
    decreases ev.len() - i,
{
    lemma_sig_from(raw, next);
    lemma_trivia_end_bounds(raw, next);
    if i == ev.len() {
        assert(ev.skip(i) =~= Seq::<Event>::empty());
        assert(advances(Seq::<Event>::empty()) == 0);
    } else {
        lemma_advances_skip(ev, i);
        lemma_advances_concat(Seq::<Event>::empty(), ev.skip(i + 1));
        match ev[i] {
            Event::Open { node } => {
                let n1 = if node == Syntax::MODULE {
                    next
                } else {
                    trivia_end(raw, next)
                };
                lemma_tree_end_covers(ev, i + 1, raw, n1);
            },
            Event::Close => {
                lemma_tree_end_covers(ev, i + 1, raw, next);
            },
            Event::Checkpoint => {
                lemma_tree_end_covers(ev, i + 1, raw, next);
            },
            Event::Advance { .. } => {
                let n1 = trivia_end(raw, next);
                if n1 >= raw.len() {
                    lemma_sig_from(raw, n1);
                    lemma_tree_end_covers(ev, i + 1, raw, n1);
                } else {
                    let n2 = n1 + 1;
                    lemma_sig_from(raw, n2);
                    lemma_trivia_end_bounds(raw, n2);
                    let n3 = if i + 1 < ev.len() && ev[i + 1] == Event::Close {
                        n2
                    } else {
                        trivia_end(raw, n2)
                    };
                    assert(sig_from(raw, n1) == 1 + sig_from(raw, n2));
                    lemma_tree_end_covers(ev, i + 1, raw, n3);
                }
            },
        }
    }
}

/// Whether the tokens that the steps `s` add are, by their lengths and in order, the first
/// tokens of the bytes `bytes`, each once; where `all`, every token left out is whitespace.
pub open spec fn holds_tokens(s: Seq<(u8, u16, usize)>, bytes: Seq<u8>, all: bool) -> bool {
    exists|m: int|
        {
            &&& 0 <= m <= lex_spec(bytes).len()
            &&& token_lens(s) == lexed_lens(lex_spec(bytes).take(m))
            &&& all ==> forall|j: int|
                m <= j < lex_spec(bytes).len() ==> is_trivia(#[trigger] lex_spec(bytes)[j].0)
        }
}

/// The tree that balanced events describe over the tokens of `bytes` holds those tokens,
/// by their lengths and in order, up to where it ends; where the events consume all the
/// tokens other than whitespace, it leaves out only whitespace.
proof fn lemma_tree_holds_tokens(ev: Seq<Event>, raw: Seq<LexToken>, bytes: Seq<u8>, all: bool)
    requires
        tokens_view(raw) == lex_spec(bytes),
        forall|k: int| 0 <= k < raw.len() ==> #[trigger] raw[k].range.start < raw[k].range.end,
        all ==> advances(ev) >= significant(raw).len(),
    ensures
        holds_tokens(tree_of(ev, 0, raw, 0), bytes, all),
{
    lemma_tree_of_tokens(ev, 0, raw, 0);
    let m = tree_end(ev, 0, raw, 0);
    let t = lex_spec(bytes);
    assert(raw_lens(raw.subrange(0, m)) =~= lexed_lens(t.take(m))) by {
        assert forall|k: int| 0 <= k < m implies raw_lens(raw.subrange(0, m))[k] == lexed_lens(
            t.take(m),
        )[k] by {
            assert(t[k] == token_view(raw[k]));
        }
    }
    if all {
        lemma_significant_count(raw, raw.len() as int);
        assert(raw.take(raw.len() as int) =~= raw);
        lemma_sig_from(raw, raw.len() as int);
        assert(ev.skip(0) =~= ev);
        lemma_tree_end_covers(ev, 0, raw, 0);
        assert forall|j: int| m <= j < t.len() implies is_trivia(#[trigger] t[j].0) by {
            assert(t[j] == token_view(raw[j]));
            assert(is_trivia(raw[j].token));
        }
    }
    assert(0 <= m <= t.len());
}

proof fn lemma_nest_empty()
    ensures
        steps_nest(Seq::<(u8, u16, usize)>::empty()),
        step_depth(Seq::<(u8, u16, usize)>::empty()) == 0,
{
    let e = Seq::<(u8, u16, usize)>::empty();
    assert forall|j: int| 0 <= j <= e.len() implies step_depth(#[trigger] e.take(j)) >= 0 by {
        assert(e.take(j) =~= e);
    }
}

/// A tree with nothing in it.
fn empty_tree() -> (t: Tree)
    ensures
        tree_steps(t) == Seq::<(u8, u16, usize)>::empty(),
        steps_nest(tree_steps(t)),
        step_depth(tree_steps(t)) == 0,
{
    proof {
        lemma_nest_empty();
    }
    let b = builder_new();
    builder_build(b).unwrap()
}

/// Builds the tree that the balanced `events` describe over the raw tokens `raw`. The flag
/// is false where `syntree` refused a step (too many nodes or bytes); the tree is then
/// empty. Within `syntree`'s limits it never is.
#[verifier::spinoff_prover]
#[verifier::rlimit(60)]
fn build_tree(events: &Vec<Event>, raw: &Vec<LexToken>) -> (r: (Tree, bool))
    requires
        balanced(events@),
        forall|k: int| 0 <= k < raw@.len() ==> #[trigger] raw@[k].range.start < raw@[k].range.end,
    ensures
        r.1 ==> tree_steps(r.0) == tree_of(events@, 0, raw@, 0),
        !r.1 ==> tree_steps(r.0) == Seq::<(u8, u16, usize)>::empty(),
        steps_nest(tree_steps(r.0)),
        step_depth(tree_steps(r.0)) == 0,
        r.1 && module_shaped(events@) ==> rooted(tree_steps(r.0)),
        within_limits(tree_of(events@, 0, raw@, 0)) ==> r.1,
{
    let mut b = builder_new();
    let mut next: usize = 0;
    let mut i: usize = 0;
    let ghost whole = tree_of(events@, 0, raw@, 0);
    proof {
        assert(builder_steps(b) + whole =~= whole);
        assert(events@.take(0) =~= Seq::<Event>::empty());
        lemma_nest_empty();
    }
    while i < events.len()
        invariant
            i <= events@.len(),
            next <= raw@.len(),
            balanced(events@),
            forall|k: int| 0 <= k < raw@.len() ==> #[trigger] raw@[k].range.start < raw@[k].range.end,
            whole == tree_of(events@, 0, raw@, 0),
            builder_steps(b) + tree_of(events@, i as int, raw@, next as int) == whole,
            step_depth(builder_steps(b)) == depth(events@.take(i as int)),
            steps_nest(builder_steps(b)),
        decreases events@.len() - i,
    {
        let ghost s0 = builder_steps(b);
        let ghost n0 = next as int;
        let ghost ii = i as int;
        let ghost rest = tree_of(events@, ii + 1, raw@, 0);
        proof {
            lemma_depth_take(events@, ii);
        }
        match events[i] {
            Event::Open { node } => {
                proof {
                    if within_limits(whole) {
                        lemma_trivia_end_bounds(raw@, n0);
                        let n1 = if node == Syntax::MODULE {
                            n0
                        } else {
                            trivia_end(raw@, n0)
                        };
                        let r = raw_steps(raw@, n0, n1);
                        let o = open_step(node.spec_code());
                        let t = tree_of(events@, ii + 1, raw@, n1);
                        assert(tree_of(events@, ii, raw@, n0) == r.push(o) + t);
                        assert(whole =~= (s0 + r).push(o) + t);
                        lemma_within_prefix((s0 + r).push(o), t);
                    }
                }
                if !place_open(&mut b, raw, &mut next, node) {
                    return (empty_tree(), false);
                }
                proof {
                    lemma_trivia_end_bounds(raw@, n0);
                    let n1 = next as int;
                    let r = raw_steps(raw@, n0, n1);
                    let o = open_step(node.spec_code());
                    assert(tree_of(events@, ii, raw@, n0) == r.push(o) + tree_of(
                        events@,
                        ii + 1,
                        raw@,
                        n1,
                    ));
                    assert((s0 + r).push(o) + tree_of(events@, ii + 1, raw@, n1) =~= s0 + (r.push(o)
                        + tree_of(events@, ii + 1, raw@, n1)));
                    lemma_step_depth_concat(s0, r);
                    lemma_raw_steps_depth(raw@, n0, n1);
                    lemma_step_depth_push(s0 + r, o);
                    lemma_open_raw(s0, raw@, n0, n1, 0, 0);
                    lemma_open_push(s0 + r, o, 0, 0);
                }
            },
            Event::Close => {
                if !builder_close(&mut b) {
                    return (empty_tree(), false);
                }
                proof {
                    let c = close_step();
                    assert(s0.push(c) + tree_of(events@, ii + 1, raw@, n0) =~= s0 + (seq![c]
                        + tree_of(events@, ii + 1, raw@, n0)));
                    lemma_step_depth_push(s0, c);
                    lemma_open_push(s0, c, 0, 0);
                }
            },
            Event::Checkpoint => {},
            Event::Advance { token } => {
                let closes = i + 1 < events.len() && events[i + 1] == Event::Close;
                proof {
                    if within_limits(whole) {
                        lemma_trivia_end_bounds(raw@, n0);
                        let n1 = trivia_end(raw@, n0);
                        let r1 = raw_steps(raw@, n0, n1);
                        if n1 >= raw@.len() {
                            let t = tree_of(events@, ii + 1, raw@, n1);
                            assert(whole =~= (s0 + r1) + t);
                            lemma_within_prefix(s0 + r1, t);
                        } else {
                            let n2 = n1 + 1;
                            lemma_trivia_end_bounds(raw@, n2);
                            let n3 = if closes {
                                n2
                            } else {
                                trivia_end(raw@, n2)
                            };
                            let tk = token_step(
                                token.spec_code(),
                                (raw@[n1].range.end - raw@[n1].range.start) as usize,
                            );
                            let r2 = raw_steps(raw@, n2, n3);
                            let t = tree_of(events@, ii + 1, raw@, n3);
                            assert(tree_of(events@, ii, raw@, n0) == r1.push(tk) + r2 + t);
                            assert(whole =~= ((s0 + r1).push(tk) + r2) + t);
                            lemma_within_prefix((s0 + r1).push(tk) + r2, t);
                        }
                    }
                }
                if !place_token(&mut b, raw, &mut next, token, closes) {
                    return (empty_tree(), false);
                }
                proof {
                    lemma_trivia_end_bounds(raw@, n0);
                    let n1 = trivia_end(raw@, n0);
                    let r1 = raw_steps(raw@, n0, n1);
                    lemma_step_depth_concat(s0, r1);
                    lemma_raw_steps_depth(raw@, n0, n1);
                    lemma_open_raw(s0, raw@, n0, n1, 0, 0);
                    if n1 >= raw@.len() {
                        assert((s0 + r1) + tree_of(events@, ii + 1, raw@, n1) =~= s0 + (r1
                            + tree_of(events@, ii + 1, raw@, n1)));
                    } else {
                        let n2 = n1 + 1;
                        lemma_trivia_end_bounds(raw@, n2);
                        let n3 = next as int;
                        let tk = token_step(
                            token.spec_code(),
                            (raw@[n1].range.end - raw@[n1].range.start) as usize,
                        );
                        let r2 = raw_steps(raw@, n2, n3);
                        let t = tree_of(events@, ii + 1, raw@, n3);
                        assert(tree_of(events@, ii, raw@, n0) == r1.push(tk) + r2 + t);
                        assert((s0 + r1).push(tk) + r2 + t =~= s0 + (r1.push(tk) + r2 + t));
                        lemma_step_depth_push(s0 + r1, tk);
                        lemma_step_depth_concat((s0 + r1).push(tk), r2);
                        lemma_raw_steps_depth(raw@, n2, n3);
                        lemma_open_push(s0 + r1, tk, 0, 0);
                        lemma_open_raw((s0 + r1).push(tk), raw@, n2, n3, 0, 0);
                    }
                }
            },
        }
        i = i + 1;
    }
    proof {
        assert(events@.take(events@.len() as int) =~= events@);
        assert(tree_of(events@, i as int, raw@, next as int) =~= Seq::<(u8, u16, usize)>::empty());
        assert(builder_steps(b) + Seq::<(u8, u16, usize)>::empty() =~= builder_steps(b));
    }
    let t = builder_build(b).unwrap();
    proof {
        if module_shaped(events@) {
            lemma_tree_of_rooted(events@, raw@);
        }
    }
    (t, true)
}

/// Whether the steps `s` are those of balanced events over the tokens of the bytes
/// `bytes` (one module node around the rest, by the rule `Module`; one node of the rule's
/// kind, by a rule that records one), or none where
/// `syntree` could not take those steps (too many nodes or too many bytes).
pub open spec fn built_from(s: Seq<(u8, u16, usize)>, bytes: Seq<u8>, rule: Rule) -> bool {
    exists|ev: Seq<Event>, raw: Seq<LexToken>|
        {
            &&& balanced(ev)
            &&& tokens_view(raw) == lex_spec(bytes)
            &&& (rule == Rule::Module ==> module_shaped(ev))
            &&& (rule_node(rule) != Syntax::ERROR ==> node_shaped(ev, rule_node(rule)))
            &&& (s == tree_of(ev, 0, raw, 0) || (s == Seq::<(u8, u16, usize)>::empty()
                && !within_limits(tree_of(ev, 0, raw, 0))))
        }
}

/// Whether the steps `s` and the errors `errs` are those of a whole source file `bytes`
/// parsed item by item: the tree of one module node whose events inside are the items,
/// one after the other to the end of the tokens, each node the one of the token it begins
/// with (a function for `fn`, a module for `mod`, ...; a token that begins no item taken as
/// an error, with an `ExpectedItem` error in `errs`), or none where `syntree` could not
/// take those steps.
pub open spec fn parsed_items(s: Seq<(u8, u16, usize)>, errs: Seq<ParseError>, bytes: Seq<u8>) -> bool {
    exists|ev: Seq<Event>, raw: Seq<LexToken>, cuts: Seq<int>|
        {
            &&& tokens_view(raw) == lex_spec(bytes)
            &&& module_items(ev, significant(raw), 0, errs, 0, cuts)
            &&& (s == tree_of(ev, 0, raw, 0) || (s == Seq::<(u8, u16, usize)>::empty()
                && !within_limits(tree_of(ev, 0, raw, 0))))
        }
}

/// Whether the errors tell that the parser ran out of work.
pub open spec fn ran_out(errs: Seq<ParseError>) -> bool {
    exists|e: int| 0 <= e < errs.len() && is_stuck_error((#[trigger] errs[e]).kind)
}

/// The node that a parse by the rule `rule` records, where the rule records one node
/// whatever the input (`ERROR` for the rules that do not: a whole module, a type, a
/// pattern, an expression, an item's type and a list of attributes).
pub open spec fn rule_node(rule: Rule) -> Syntax {
    match rule {
        Rule::ModItem => Syntax::MOD_ITEM,
        Rule::ImplItem => Syntax::IMPL_ITEM,
        Rule::FnItem => Syntax::FN_ITEM,
        Rule::EnumItem => Syntax::ENUM_ITEM,
        Rule::StructItem => Syntax::STRUCT_ITEM,
        Rule::UseItem => Syntax::USE_ITEM,
        Rule::Name => Syntax::NAME,
        Rule::ReturnType => Syntax::RETURN_TYPE,
        Rule::Param => Syntax::PARAM,
        Rule::ParamList => Syntax::PARAM_LIST,
        Rule::ExprPath => Syntax::PATH,
        Rule::TypePath => Syntax::PATH,
        Rule::ExprPathSegment => Syntax::PATH_SEGMENT,
        Rule::TypePathSegment => Syntax::PATH_SEGMENT,
        Rule::Block => Syntax::BLOCK_EXPR,
        Rule::StmtExpr => Syntax::EXPR_STMT,
        Rule::StmtLet => Syntax::LET_STMT,
        Rule::LuaBlockExpr => Syntax::LUA_CHUNK_EXPR,
        _ => Syntax::ERROR,
    }
}

/// Whether every error of `errs` lies within the first `n` bytes.
pub open spec fn errors_within(errs: Seq<ParseError>, n: int) -> bool {
    forall|k: int| 0 <= k < errs.len() ==> #[trigger] errs[k].range.start <= errs[k].range.end <= n
}

/// A rule of the grammar that a parse can start from.
#[derive(Debug, Clone, Copy, PartialEq, Eq)]
pub enum Rule {
    Module,
    ModItem,
    ImplItem,
    FnItem,
    EnumItem,
    StructItem,
    UseItem,
    ItemTypeExpr,
    Name,
    ReturnType,
    Param,
    ParamList,
    TypeExpr,
    ExprPath,
    TypePath,
    ExprPathSegment,
    TypePathSegment,
    Pattern,
    Expr,
    Block,
    StmtExpr,
    StmtLet,
    CompilerAttribList,
    LuaBlockExpr,
}

impl<'a> Parser<'a> {
    /// Parses by the rule `rule`.
    fn start(&mut self, rule: Rule)
        requires
            old(self).wf(),
        ensures
            final(self).wf(),
            final(self).evolves(&*old(self)),
            rule == Rule::Module ==> module_shaped(
                final(self).events@.skip(old(self).events@.len() as int),
            ),
            rule == Rule::Module ==> final(self).pos >= final(self).tokens@.len(),
            old(self).steps > 1 && rule_node(rule) != Syntax::ERROR ==> node_shaped(
                final(self).recorded(&*old(self)),
                rule_node(rule),
            ),
            rule == Rule::Module && final(self).steps > 0 ==> exists|cuts: Seq<int>|
                module_items(
                    final(self).recorded(&*old(self)),
                    old(self).tokens@,
                    old(self).pos as int,
                    final(self).errors@,
                    old(self).errors@.len() as int,
                    cuts,
                ),
            rule == Rule::Module && final(self).steps == 0 ==> exists|e: int|
                old(self).errors@.len() <= e < final(self).errors@.len() && is_stuck_error(
                    (#[trigger] final(self).errors@[e]).kind,
                ),
    {
        match rule {
            Rule::Module => self.module(),
            Rule::ModItem => self.mod_item(),
            Rule::ImplItem => self.impl_item(),
            Rule::FnItem => self.fn_item(),
            Rule::EnumItem => self.enum_item(),
            Rule::StructItem => self.struct_item(),
            Rule::UseItem => self.use_item(),
            Rule::ItemTypeExpr => self.item_type_expr(),
            Rule::Name => self.name(),
            Rule::ReturnType => self.return_type(),
            Rule::Param => self.param(),
            Rule::ParamList => self.param_list(),
            Rule::TypeExpr => self.type_expr(),
            Rule::ExprPath => self.expr_path(),
            Rule::TypePath => self.type_path(),
            Rule::ExprPathSegment => self.path_segment(PathKind::Expr),
            Rule::TypePathSegment => self.path_segment(PathKind::Type),
            Rule::Pattern => self.pattern(),
            Rule::Expr => self.expr(),
            Rule::Block => self.block(),
            Rule::StmtExpr => self.stmt_expr(),
            Rule::StmtLet => self.stmt_let(),
            Rule::CompilerAttribList => self.compiler_attrib_list(),
            Rule::LuaBlockExpr => self.lua_chunk(),
        }
    }
}

/// Parses `input` by the rule `rule`: the syntax tree and the syntax errors.
///
/// The tree is that of balanced events over the tokens of `input` (whitespace placed as
/// `tree_of` says), or, only where `syntree` could not take those steps (more nodes than
/// `usize` numbers them, or more bytes than a `u32` counts), empty; either way its nodes
/// nest and all are closed. By the rule `Module`, one module node holds all the rest, its
/// items one after the other, each the node of the token it begins with (unless the parser
/// ran out of work, which an error then says); by a rule that records one node (an item, a
/// name, a parameter or their list, a return type, a path or a segment, a block, a
/// statement, a Lua block), the events are that one node.
/// A tree that is not empty holds the first tokens of `input`, each once and in order;
/// by the rule `Module` it leaves out no token but whitespace at the end.
/// Every error lies within the input.
pub fn parse_rule(input: &str, rule: Rule) -> (r: (Tree, Vec<ParseError>))
    ensures
        built_from(tree_steps(r.0), input.spec_bytes(), rule),
        steps_nest(tree_steps(r.0)),
        step_depth(tree_steps(r.0)) == 0,
        errors_within(r.1@, input.spec_bytes().len() as int),
        rule == Rule::Module ==> tree_steps(r.0) == Seq::<(u8, u16, usize)>::empty() || rooted(
            tree_steps(r.0),
        ),
        tree_steps(r.0).len() > 0 ==> holds_tokens(
            tree_steps(r.0),
            input.spec_bytes(),
            rule == Rule::Module,
        ),
        rule == Rule::Module ==> parsed_items(tree_steps(r.0), r.1@, input.spec_bytes()) || ran_out(
            r.1@,
        ),
{
    let mut p = Parser::new(input, u64::MAX);
    proof {
        lemma_balanced_empty(p.events@);
    }
    p.start(rule);
    proof {
        assert(p.events@.skip(0) =~= p.events@);
    }
    let ghost ev = p.events@;
    let ghost raw = p.raw@;
    assert(balanced(ev));
    assert(tokens_view(raw) == lex_spec(input.spec_bytes()));
    proof {
        reveal(consumed);
        lemma_tree_holds_tokens(ev, raw, input.spec_bytes(), rule == Rule::Module);
    }
    let (tree, complete) = build_tree(&p.events, &p.raw);
    assert(rule == Rule::Module ==> module_shaped(ev));
    assert(tree_steps(tree) == tree_of(ev, 0, raw, 0) || (tree_steps(tree) == Seq::<
        (u8, u16, usize),
    >::empty() && !within_limits(tree_of(ev, 0, raw, 0))));
    proof {
        if rule == Rule::Module {
            if p.steps > 0 {
                let cuts = choose|cuts: Seq<int>| module_items(ev, p.tokens@, 0, p.errors@, 0, cuts);
                assert(module_items(ev, significant(raw), 0, p.errors@, 0, cuts));
                assert(parsed_items(tree_steps(tree), p.errors@, input.spec_bytes()));
            } else {
                let e = choose|e: int| 0 <= e < p.errors@.len() && is_stuck_error((#[trigger] p.errors@[e]).kind);
                assert(ran_out(p.errors@));
            }
        }
    }
    let errors = p.errors;
    assert(errors_within(errors@, input.spec_bytes().len() as int));
    (tree, errors)
}

/// Parses a whole source file: its syntax tree, rooted at one module node, and its syntax
/// errors, as `parse_rule` with the rule `Module` gives them. The tree holds every token of
/// the file but whitespace at the end, each once and in order.
pub fn parse(input: &str) -> (r: (Tree, Vec<ParseError>))
    ensures
        built_from(tree_steps(r.0), input.spec_bytes(), Rule::Module),
        steps_nest(tree_steps(r.0)),
        step_depth(tree_steps(r.0)) == 0,
        errors_within(r.1@, input.spec_bytes().len() as int),
        tree_steps(r.0) == Seq::<(u8, u16, usize)>::empty() || rooted(tree_steps(r.0)),
        tree_steps(r.0).len() > 0 ==> holds_tokens(tree_steps(r.0), input.spec_bytes(), true),
        parsed_items(tree_steps(r.0), r.1@, input.spec_bytes()) || ran_out(r.1@),
{
    parse_rule(input, Rule::Module)
}

} // verus!
