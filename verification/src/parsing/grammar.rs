//! The grammar of the language: one routine per kind of node. Every routine records the
//! events of the nodes it parses and keeps the events balanced.
use crate::parsing::lexer::{LexToken, Syntax};
use crate::parsing::parser::{Event, ParseError, Parser, SyntaxErrorKind, keeps, advances, consumed, token_at, lemma_advances_concat, lemma_checkpoint_scope, module_shaped, node_shaped, one_node};
use std::ops::Range;
use vstd::string::StringSliceAdditionalSpecFns;
use crate::parsing::token_set::{fits, TokenSet};
use vstd::prelude::*;

verus! {

// ---------------------------------------------------------------------------------------
// Token sets that guide the parser
// ---------------------------------------------------------------------------------------

/// The tokens that can start an expression.
pub open spec fn expr_first_kinds() -> Seq<Syntax> {
    seq![
        Syntax::IDENT,
        Syntax::INT,
        Syntax::FLOAT,
        Syntax::STRING,
        Syntax::TRUE_KW,
        Syntax::FALSE_KW,
        Syntax::MINUS,
        Syntax::LUA_KW,
        Syntax::NIL_KW,
        Syntax::RETURN_KW,
        Syntax::IF_KW,
        Syntax::L_BRACE,
        Syntax::L_PAREN,
        Syntax::BAR,
        Syntax::SELF_KW,
        Syntax::BANG,
    ]
}

/// Neither `)` nor the end of input starts an expression.
proof fn lemma_expr_first_kinds(k: Syntax)
    requires
        expr_first_kinds().contains(k),
    ensures
        k != Syntax::R_PAREN,
        k != Syntax::EOF,
{
    let s = expr_first_kinds();
    let i = choose|i: int| 0 <= i < s.len() && s[i] == k;
    assert(0 <= i < 16);
    assert(i == 0 || i == 1 || i == 2 || i == 3 || i == 4 || i == 5 || i == 6 || i == 7 || i == 8
        || i == 9 || i == 10 || i == 11 || i == 12 || i == 13 || i == 14 || i == 15);
}

/// Neither `)` nor the end of input starts a type.
proof fn lemma_type_first_kinds(k: Syntax)
    requires
        type_first_kinds().contains(k),
    ensures
        k != Syntax::R_PAREN,
        k != Syntax::EOF,
{
    let s = type_first_kinds();
    let i = choose|i: int| 0 <= i < s.len() && s[i] == k;
    assert(0 <= i < 7);
    assert(i == 0 || i == 1 || i == 2 || i == 3 || i == 4 || i == 5 || i == 6);
}

/// The nodes that follow an operand and wrap it.
pub open spec fn postfix_kind(k: Syntax) -> bool {
    k == Syntax::CALL_EXPR || k == Syntax::INDEX_EXPR || k == Syntax::METHOD_EXPR || k
        == Syntax::SAFE_METHOD_EXPR || k == Syntax::FIELD_EXPR || k == Syntax::SAFE_FIELD_EXPR || k
        == Syntax::IS_NOT_EXPR || k == Syntax::IS_EXPR || k == Syntax::AS_EXPR
}

/// The literal tokens that an expression can be.
pub open spec fn literal_expr_token(k: Syntax) -> bool {
    k == Syntax::INT || k == Syntax::FLOAT || k == Syntax::STRING || k == Syntax::TRUE_KW || k
        == Syntax::FALSE_KW || k == Syntax::NIL_KW || k == Syntax::SINGLE_STRING || k
        == Syntax::BRACKET_STRING
}

/// How the events of an operand that starts with the token `t` begin: the node it opens
/// (after a checkpoint of its own for a parenthesized expression and a path), and, but for
/// a Lua chunk, a closure and a path, the token `t` that it consumes first.
pub open spec fn operand_begins(ev: Seq<Event>, t: Syntax) -> bool {
    if t == Syntax::FOR_KW {
        ev.len() > 1 && ev[0] == (Event::Open { node: Syntax::FOR_EXPR }) && ev[1] == (Event::Advance {
            token: t,
        })
    } else if t == Syntax::WHILE_KW {
        ev.len() > 1 && ev[0] == (Event::Open { node: Syntax::WHILE_EXPR }) && ev[1] == (Event::Advance {
            token: t,
        })
    } else if t == Syntax::LOOP_KW {
        ev.len() > 1 && ev[0] == (Event::Open { node: Syntax::LOOP_EXPR }) && ev[1] == (Event::Advance {
            token: t,
        })
    } else if t == Syntax::RETURN_KW {
        ev.len() > 1 && ev[0] == (Event::Open { node: Syntax::RETURN_EXPR }) && ev[1] == (Event::Advance {
            token: t,
        })
    } else if t == Syntax::IF_KW {
        ev.len() > 1 && ev[0] == (Event::Open { node: Syntax::IF_EXPR }) && ev[1] == (Event::Advance {
            token: t,
        })
    } else if literal_expr_token(t) {
        ev.len() > 1 && ev[0] == (Event::Open { node: Syntax::LIT_EXPR }) && ev[1] == (Event::Advance {
            token: t,
        })
    } else if t == Syntax::L_PAREN {
        ev.len() > 2 && ev[0] == Event::Checkpoint && (ev[1] is Open) && (ev[1]->node
            == Syntax::UNIT_EXPR || ev[1]->node == Syntax::PAREN_EXPR || ev[1]->node
            == Syntax::TUPLE_EXPR) && ev[2] == (Event::Advance { token: t })
    } else if t == Syntax::L_BRACE {
        ev.len() > 1 && ev[0] == (Event::Open { node: Syntax::BLOCK_EXPR }) && ev[1] == (Event::Advance {
            token: t,
        })
    } else if t == Syntax::LUA_KW {
        ev.len() > 0 && ev[0] == (Event::Open { node: Syntax::LUA_CHUNK_EXPR })
    } else if t == Syntax::BAR {
        ev.len() > 0 && ev[0] == (Event::Open { node: Syntax::CLOSURE_EXPR })
    } else if t == Syntax::SELF_KW {
        ev.len() > 1 && ev[0] == (Event::Open { node: Syntax::SELF_EXPR }) && ev[1] == (Event::Advance {
            token: Syntax::SELF_KW,
        })
    } else if t == Syntax::IDENT {
        ev.len() > 1 && ev[0] == Event::Checkpoint && (ev[1] is Open) && (ev[1]->node
            == Syntax::RECORD_EXPR || ev[1]->node == Syntax::PATH_EXPR)
    } else {
        false
    }
}

/// Whether the events after the checkpoint at `at` are `w` opened postfix nodes around an
/// operand that starts with the token `t`.
pub open spec fn operand_wrapped(ev: Seq<Event>, at: int, w: int, t: Syntax) -> bool {
    &&& 0 <= w
    &&& forall|i: int|
        at + 1 <= i < at + 1 + w ==> (#[trigger] ev[i] is Open) && postfix_kind(ev[i]->node)
    &&& operand_begins(ev.skip(at + 1 + w), t)
}

/// Whether the events are one whole operand: one node, or a checkpoint and then one node
/// (a path, a record and the parenthesized forms).
pub open spec fn one_operand(ev: Seq<Event>) -> bool {
    ||| one_node(ev)
    ||| ev.len() >= 1 && ev[0] == Event::Checkpoint && one_node(ev.skip(1))
}

/// Whether the `w` nodes that wrap an operand at `ck` begin as the token `t` after the
/// operand says: where `t` starts a call, an index, a field, a method, `is`, `!is` or `as`,
/// the innermost of them is the node it starts; else there are none.
pub open spec fn first_postfix(ev: Seq<Event>, ck: int, w: int, t: Syntax) -> bool {
    if postfix_loop_start(t) || postfix_test_start(t) {
        w >= 1 && (ev[ck + w - 1] is Open) && postfix_node_of(t, ev[ck + w - 1]->node)
    } else {
        w == 0
    }
}

/// The events with the `w` nodes that wrap the operand at `ck` taken out, up to the end of
/// the operand (before `n + w`): the events as they stood when the operand was complete.
pub open spec fn unwrapped(ev: Seq<Event>, ck: int, w: int, n: int) -> Seq<Event> {
    ev.take(ck) + ev.subrange(ck + w, n + w)
}

/// Whether the events of `p` after the checkpoint at `at` are an operand that starts with
/// the token `t`, whole between `at + 1 + w` and `n + w`, wrapped in `w` postfix nodes that
/// begin as the token after the operand says (unless, with no node, the parser had no room
/// left to look at it).
pub(crate) open spec fn operand_chain(p: Parser, at: int, w: int, n: int, t: Syntax) -> bool {
    &&& operand_wrapped(p.events@, at, w, t)
    &&& at + 1 <= n && n + w <= p.events@.len()
    &&& one_operand(p.events@.subrange(at + 1 + w, n + w))
    &&& first_postfix(
        p.events@,
        at + 1,
        w,
        token_at(p.tokens@, advances(unwrapped(p.events@, at + 1, w, n)), 0),
    ) || (w == 0 && !p.has_room(2))
}

/// The nodes that wrap an operand that is followed by a call, an index, a field or a
/// method: those of the language, or (where `lua`) those of the Lua code.
pub open spec fn wrap_kind(k: Syntax, lua: bool) -> bool {
    if lua {
        k == Syntax::LUA_CALL_EXPR || k == Syntax::LUA_INDEX_EXPR || k
            == Syntax::LUA_FIELD_ACCESS_EXPR
    } else {
        postfix_kind(k)
    }
}

/// Whether `after` holds, from `ck` on, `w` opened postfix nodes and then the events that
/// `before` held from `ck` on; before `ck` nothing changed.
pub open spec fn wrapped_at(before: Seq<Event>, after: Seq<Event>, ck: int, w: int) -> bool {
    wrapped_by(before, after, ck, w, false)
}

/// Whether `after` holds, from `ck` on, `w` opened nodes of the kinds `wrap_kind(_, lua)`
/// and then the events that `before` held from `ck` on; before `ck` nothing changed.
pub open spec fn wrapped_by(before: Seq<Event>, after: Seq<Event>, ck: int, w: int, lua: bool) -> bool {
    &&& 0 <= w
    &&& 0 <= ck <= before.len()
    &&& after.len() >= before.len() + w
    &&& forall|i: int| 0 <= i < ck ==> after[i] == #[trigger] before[i]
    &&& forall|i: int|
        ck <= i < ck + w ==> (#[trigger] after[i] is Open) && wrap_kind(after[i]->node, lua)
    &&& forall|i: int| ck <= i < before.len() ==> after[i + w] == #[trigger] before[i]
}

/// The node that the token `t` after an operand wraps around it first: a call, an index, a
/// method or a field, `!is`, `is` or `as`.
pub open spec fn postfix_node_of(t: Syntax, k: Syntax) -> bool {
    if t == Syntax::L_PAREN {
        k == Syntax::CALL_EXPR
    } else if t == Syntax::L_BRACKET {
        k == Syntax::INDEX_EXPR
    } else if t == Syntax::MARK || t == Syntax::DOT {
        k == Syntax::METHOD_EXPR || k == Syntax::FIELD_EXPR
    } else if t == Syntax::IS_NOT_KW {
        k == Syntax::IS_NOT_EXPR
    } else if t == Syntax::IS_KW {
        k == Syntax::IS_EXPR
    } else if t == Syntax::AS_KW {
        k == Syntax::AS_EXPR
    } else {
        false
    }
}

/// Nothing wrapped yet.
pub(crate) proof fn lemma_wrapped_none(before: Seq<Event>, ck: int, lua: bool)
    requires
        0 <= ck <= before.len(),
    ensures
        wrapped_by(before, before, ck, 0, lua),
{
}

/// Adding events after the end keeps the wrapped shape.
pub(crate) proof fn lemma_wrapped_keeps(
    before: Seq<Event>,
    mid: Seq<Event>,
    after: Seq<Event>,
    ck: int,
    w: int,
    lua: bool,
)
    requires
        wrapped_by(before, mid, ck, w, lua),
        keeps(mid, after),
    ensures
        wrapped_by(before, after, ck, w, lua),
        forall|i: int| 0 <= i < mid.len() ==> #[trigger] after[i] == mid[i],
{
    assert forall|i: int| 0 <= i < ck implies after[i] == #[trigger] before[i] by {
        assert(after[i] == mid[i]);
    }
    assert forall|i: int| ck <= i < ck + w implies (#[trigger] after[i] is Open) && wrap_kind(
        after[i]->node,
        lua,
    ) by {
        assert(after[i] == mid[i]);
    }
    assert forall|i: int| ck <= i < before.len() implies after[i + w] == #[trigger] before[i] by {
        assert(after[i + w] == mid[i + w]);
    }
}

/// Opening one more postfix node at `ck` (and then only adding events) keeps the wrapped
/// shape, one node deeper; the node opened before sits one place further on.
pub(crate) proof fn lemma_wrapped_step(
    before: Seq<Event>,
    mid: Seq<Event>,
    after: Seq<Event>,
    ck: int,
    w: int,
    k: Syntax,
    lua: bool,
)
    requires
        wrapped_by(before, mid, ck, w, lua),
        wrap_kind(k, lua),
        keeps(mid.take(ck).push(Event::Open { node: k }) + mid.skip(ck), after),
    ensures
        wrapped_by(before, after, ck, w + 1, lua),
        after[ck] == (Event::Open { node: k }),
        forall|i: int| ck < i <= mid.len() ==> #[trigger] after[i] == mid[i - 1],
{
    let ins = mid.take(ck).push(Event::Open { node: k }) + mid.skip(ck);
    assert(ins.len() == mid.len() + 1);
    assert forall|i: int| ck < i <= mid.len() implies #[trigger] after[i] == mid[i - 1] by {
        assert(after[i] == ins[i]);
    }
    assert(after[ck] == ins[ck]);
    assert forall|i: int| 0 <= i < ck implies after[i] == #[trigger] before[i] by {
        assert(after[i] == ins[i]);
        assert(mid[i] == before[i]);
    }
    assert forall|i: int| ck <= i < ck + w + 1 implies (#[trigger] after[i] is Open) && wrap_kind(
        after[i]->node,
        lua,
    ) by {
        if i > ck {
            assert(after[i] == mid[i - 1]);
            assert(mid[i - 1] is Open && wrap_kind(mid[i - 1]->node, lua));
        }
    }
    assert forall|i: int| ck <= i < before.len() implies after[i + w + 1] == #[trigger] before[i] by {
        assert(after[i + w + 1] == mid[i + w]);
    }
}

/// After one more wrapping node `k` is opened at `ck`, the innermost of the wrapping nodes
/// is still the first one that the token `t` made (or `k`, where there was none).
proof fn lemma_innermost_step(
    before: Seq<Event>,
    mid: Seq<Event>,
    after: Seq<Event>,
    ck: int,
    w: int,
    k: Syntax,
    t: Syntax,
)
    requires
        wrapped_by(before, mid, ck, w, false),
        after[ck] == (Event::Open { node: k }),
        w >= 1 ==> after[ck + w] == mid[ck + w - 1] && innermost(mid, ck, w, t),
        w == 0 ==> postfix_node_of(t, k),
    ensures
        innermost(after, ck, w + 1, t),
{
}

/// Whether the innermost of the `w` nodes that wrap an operand at `ck` is the one that the
/// token `t` after the operand starts.
pub open spec fn innermost(ev: Seq<Event>, ck: int, w: int, t: Syntax) -> bool {
    (ev[ck + w - 1] is Open) && postfix_node_of(t, ev[ck + w - 1]->node)
}

/// The tokens after an operand that start a call, an index, a field or a method.
pub open spec fn postfix_loop_start(k: Syntax) -> bool {
    k == Syntax::L_PAREN || k == Syntax::L_BRACKET || k == Syntax::MARK || k == Syntax::DOT
}

/// The nodes of `is`, `!is` and `as`, which end a chain of postfix nodes.
pub open spec fn postfix_test_kind(k: Syntax) -> bool {
    k == Syntax::IS_NOT_EXPR || k == Syntax::IS_EXPR || k == Syntax::AS_EXPR
}

/// Whether a chain of postfix nodes at `ck` has ended: it ends with `is`, `!is` or `as`, or
/// the next token starts no postfix node (or the parser can look no further).
pub(crate) open spec fn postfix_chain_ended(p: Parser, ck: int) -> bool {
    ||| (p.events@.len() > ck && (p.events@[ck] is Open) && postfix_test_kind(p.events@[ck]->node))
    ||| !(p.has_room(0) && (postfix_loop_start(p.next_token()) || postfix_test_start(
        p.next_token(),
    )))
}

/// What `postfix` did between `p0` and `p1` at `ck`: it wrapped `w` nodes around the
/// operand, the innermost of them the one that the next token starts, and at least one
/// where that token starts any (with room to look); with none it changed no event.
pub(crate) open spec fn postfix_wrapped(p0: Parser, p1: Parser, ck: int, w: int) -> bool {
    &&& wrapped_at(p0.events@, p1.events@, ck, w)
    &&& p0.has_room(2) && (postfix_loop_start(p0.next_token()) || postfix_test_start(
        p0.next_token(),
    )) ==> w >= 1
    &&& p0.has_room(2) && !(postfix_loop_start(p0.next_token()) || postfix_test_start(
        p0.next_token(),
    )) ==> w == 0
    &&& w >= 1 ==> innermost(p1.events@, ck, w, p0.next_token())
    &&& w == 0 ==> p1.events@ == p0.events@ && p1.fuel <= p0.fuel
}

/// The tokens after an operand that start `is`, `!is` or `as`.
pub open spec fn postfix_test_start(k: Syntax) -> bool {
    k == Syntax::IS_NOT_KW || k == Syntax::IS_KW || k == Syntax::AS_KW
}

pub fn expr_first() -> (r: TokenSet)
    ensures
        forall|k: Syntax| fits(k) ==> (r.has(k) <==> expr_first_kinds().contains(k)),
{
    TokenSet::new(
        &[
            Syntax::IDENT,
            Syntax::INT,
            Syntax::FLOAT,
            Syntax::STRING,
            Syntax::TRUE_KW,
            Syntax::FALSE_KW,
            Syntax::MINUS,
            Syntax::LUA_KW,
            Syntax::NIL_KW,
            Syntax::RETURN_KW,
            Syntax::IF_KW,
            Syntax::L_BRACE,
            Syntax::L_PAREN,
            Syntax::BAR,
            Syntax::SELF_KW,
            Syntax::BANG,
        ],
    )
}

/// The tokens of a literal pattern.
pub open spec fn literal_pattern_token(k: Syntax) -> bool {
    k == Syntax::INT || k == Syntax::FLOAT || k == Syntax::STRING || k == Syntax::TRUE_KW || k
        == Syntax::FALSE_KW || k == Syntax::SINGLE_STRING || k == Syntax::BRACKET_STRING
}

/// The nodes that a type in parentheses can be.
pub open spec fn paren_type_kind(k: Syntax) -> bool {
    k == Syntax::UNIT_TYPE || k == Syntax::PAREN_TYPE || k == Syntax::TUPLE_TYPE || k
        == Syntax::NILABLE_TYPE
}

/// The nodes that a path type can be.
pub open spec fn path_type_kind(k: Syntax) -> bool {
    k == Syntax::PATH_TYPE || k == Syntax::LIT_TYPE || k == Syntax::ANY_TYPE || k
        == Syntax::NILABLE_TYPE
}

/// The nodes that a type can be.
pub open spec fn type_kind(k: Syntax) -> bool {
    k == Syntax::FN_TYPE || k == Syntax::SELF_TYPE || k == Syntax::DYN_TYPE || paren_type_kind(k)
        || path_type_kind(k)
}

/// The tokens that start an operand of an expression.
pub open spec fn operand_start(k: Syntax) -> bool {
    k == Syntax::FOR_KW || k == Syntax::WHILE_KW || k == Syntax::LOOP_KW || k == Syntax::RETURN_KW
        || k == Syntax::IF_KW || k == Syntax::INT || k == Syntax::FLOAT || k == Syntax::STRING || k
        == Syntax::TRUE_KW || k == Syntax::FALSE_KW || k == Syntax::NIL_KW || k
        == Syntax::SINGLE_STRING || k == Syntax::BRACKET_STRING || k == Syntax::L_PAREN || k
        == Syntax::L_BRACE || k == Syntax::LUA_KW || k == Syntax::BAR || k == Syntax::SELF_KW || k
        == Syntax::IDENT
}

/// The tokens that can start a type.
pub open spec fn type_first_kinds() -> Seq<Syntax> {
    seq![
        Syntax::IDENT,
        Syntax::FN_KW,
        Syntax::L_PAREN,
        Syntax::SELF_TYPE_KW,
        Syntax::DYN_KW,
        Syntax::ROOT_KW,
        Syntax::SUPER_KW,
    ]
}

fn type_first() -> (r: TokenSet)
    ensures
        forall|k: Syntax| fits(k) ==> (r.has(k) <==> type_first_kinds().contains(k)),
{
    TokenSet::new(
        &[
            Syntax::IDENT,
            Syntax::FN_KW,
            Syntax::L_PAREN,
            Syntax::SELF_TYPE_KW,
            Syntax::DYN_KW,
            Syntax::ROOT_KW,
            Syntax::SUPER_KW,
        ],
    )
}

fn pattern_first() -> (r: TokenSet)
    ensures
        forall|k: Syntax|
            fits(k) ==> (r.has(k) <==> seq![
                Syntax::IDENT,
                Syntax::INT,
                Syntax::FLOAT,
                Syntax::STRING,
                Syntax::L_PAREN,
                Syntax::L_BRACKET,
            ].contains(k)),
{
    TokenSet::new(
        &[Syntax::IDENT, Syntax::INT, Syntax::FLOAT, Syntax::STRING, Syntax::L_PAREN, Syntax::L_BRACKET],
    )
}

fn item_type_first() -> (r: TokenSet)
    ensures
        forall|k: Syntax|
            fits(k) ==> (r.has(k) <==> (k == Syntax::STRUCT_KW || k == Syntax::ENUM_KW
                || type_first_kinds().contains(k))),
{
    TokenSet::new(&[Syntax::STRUCT_KW, Syntax::ENUM_KW]).union(type_first())
}

/// The node of the item that the token `t` begins, or `ERROR` where `t` begins no item.
pub open spec fn item_kind_of(t: Syntax) -> Syntax {
    if t == Syntax::FN_KW {
        Syntax::FN_ITEM
    } else if t == Syntax::MOD_KW {
        Syntax::MOD_ITEM
    } else if t == Syntax::STRUCT_KW {
        Syntax::STRUCT_ITEM
    } else if t == Syntax::IMPL_KW {
        Syntax::IMPL_ITEM
    } else if t == Syntax::ENUM_KW {
        Syntax::ENUM_ITEM
    } else if t == Syntax::USE_KW {
        Syntax::USE_ITEM
    } else {
        Syntax::ERROR
    }
}

/// What `item` records for an item, after its attributes, that begins with the token `t`:
/// one node of the item's kind, or, where `t` begins no item, that token as an error.
pub open spec fn item_body(ev: Seq<Event>, t: Syntax) -> bool {
    if item_kind_of(t) == Syntax::ERROR {
        ev == seq![Event::Advance { token: Syntax::ERROR }]
    } else {
        node_shaped(ev, item_kind_of(t))
    }
}

/// Whether `ev` is one item as `item` records it at the token position `p` of `toks`:
/// where `p` holds `@`, first one node of compiler attributes; then the item, by the token
/// it begins with.
#[verifier::opaque]
pub open spec fn item_record(ev: Seq<Event>, toks: Seq<LexToken>, p: int) -> bool {
    if token_at(toks, p, 0) == Syntax::AT {
        exists|n: int|
            2 <= n < ev.len() && node_shaped(ev.take(n), Syntax::COMPILER_ATTRIB_LIST) && item_body(
                ev.skip(n),
                token_at(toks, p + advances(ev.take(n)), 0),
            )
    } else {
        item_body(ev, token_at(toks, p, 0))
    }
}

/// Whether the events `ev`, cut at `cuts`, are items one after the other from the token
/// position `p` of `toks` on: each piece is one item as `item` records it where it begins.
pub open spec fn items_cut(ev: Seq<Event>, toks: Seq<LexToken>, p: int, cuts: Seq<int>) -> bool {
    &&& cuts.len() >= 1
    &&& cuts[0] == 0
    &&& cuts.last() == ev.len()
    &&& forall|k: int| 0 <= k < cuts.len() - 1 ==> #[trigger] cuts[k] < cuts[k + 1]
    &&& forall|k: int|
        0 <= k < cuts.len() - 1 ==> item_record(
            ev.subrange(cuts[k], #[trigger] cuts[k + 1]),
            toks,
            p + advances(ev.take(cuts[k])),
        )
}

/// Whether the events `ev` are the items that `module` records from the token position `p`
/// of `toks` on: cut at `cuts`, each piece is one item as `item` records it where it
/// begins, and together they reach the end of the tokens.
pub open spec fn items_cover(ev: Seq<Event>, toks: Seq<LexToken>, p: int, cuts: Seq<int>) -> bool {
    &&& items_cut(ev, toks, p, cuts)
    &&& p + advances(ev) >= toks.len()
}

/// Whether every piece of `ev` (cut at `cuts`) that is a token taken as an error has an
/// `ExpectedItem` error among the errors of `errs` from `from` on.
pub open spec fn items_reported(ev: Seq<Event>, cuts: Seq<int>, errs: Seq<ParseError>, from: int) -> bool {
    forall|k: int|
        0 <= k < cuts.len() - 1 && ev[#[trigger] cuts[k + 1] - 1] == (Event::Advance {
            token: Syntax::ERROR,
        }) ==> exists|e: int| from <= e < errs.len() && (#[trigger] errs[e]).kind == SyntaxErrorKind::ExpectedItem
}

/// Whether `ev` is one module node whose events inside are the items that `module`
/// records from the token position `p` of `toks` to the end (cut at `cuts`), every token
/// taken as an error there reported in `errs` from `from` on.
pub open spec fn module_items(
    ev: Seq<Event>,
    toks: Seq<LexToken>,
    p: int,
    errs: Seq<ParseError>,
    from: int,
    cuts: Seq<int>,
) -> bool {
    &&& items_cover(ev.subrange(1, ev.len() - 1), toks, p, cuts)
    &&& items_reported(ev.subrange(1, ev.len() - 1), cuts, errs, from)
}

/// Whether an error is the one that tells that the parser ran out of work.
pub open spec fn is_stuck_error(k: SyntaxErrorKind) -> bool {
    k matches SyntaxErrorKind::Other(text) && text@ == "parser is stuck"@
}

fn item_first() -> (r: TokenSet)
    ensures
        forall|k: Syntax|
            fits(k) ==> (r.has(k) <==> seq![
                Syntax::FN_KW,
                Syntax::MOD_KW,
                Syntax::STRUCT_KW,
                Syntax::IMPL_KW,
                Syntax::USE_KW,
                Syntax::ENUM_KW,
            ].contains(k)),
{
    TokenSet::new(
        &[
            Syntax::FN_KW,
            Syntax::MOD_KW,
            Syntax::STRUCT_KW,
            Syntax::IMPL_KW,
            Syntax::USE_KW,
            Syntax::ENUM_KW,
        ],
    )
}

fn element_first() -> (r: TokenSet)
    ensures
        forall|k: Syntax|
            fits(k) ==> (r.has(k) <==> seq![
                Syntax::FN_KW,
                Syntax::IDENT,
            ].contains(k)),
{
    TokenSet::new(&[Syntax::FN_KW, Syntax::IDENT])
}

fn use_first() -> (r: TokenSet)
    ensures
        forall|k: Syntax|
            fits(k) ==> (r.has(k) <==> seq![
                Syntax::L_BRACE,
                Syntax::IDENT,
                Syntax::STAR,
                Syntax::SELF_KW,
                Syntax::ROOT_KW,
                Syntax::SUPER_KW,
            ].contains(k)),
{
    TokenSet::new(
        &[
            Syntax::L_BRACE,
            Syntax::IDENT,
            Syntax::STAR,
            Syntax::SELF_KW,
            Syntax::ROOT_KW,
            Syntax::SUPER_KW,
        ],
    )
}

fn path_first() -> (r: TokenSet)
    ensures
        forall|k: Syntax|
            fits(k) ==> (r.has(k) <==> seq![
                Syntax::ROOT_KW,
                Syntax::SUPER_KW,
                Syntax::IDENT,
            ].contains(k)),
{
    TokenSet::new(&[Syntax::ROOT_KW, Syntax::SUPER_KW, Syntax::IDENT])
}

fn generic_anchor() -> (r: TokenSet)
    ensures
        forall|k: Syntax|
            fits(k) ==> (r.has(k) <==> seq![
                Syntax::SEMI,
                Syntax::L_BRACE,
                Syntax::L_PAREN,
                Syntax::R_PAREN,
                Syntax::COLON,
                Syntax::MARK,
            ].contains(k)),
{
    TokenSet::new(
        &[
            Syntax::SEMI,
            Syntax::L_BRACE,
            Syntax::L_PAREN,
            Syntax::R_PAREN,
            Syntax::COLON,
            Syntax::MARK,
        ],
    )
}

fn use_recovery() -> (r: TokenSet)
    ensures
        forall|k: Syntax|
            fits(k) ==> (r.has(k) <==> seq![
                Syntax::FN_KW,
                Syntax::MOD_KW,
                Syntax::STRUCT_KW,
                Syntax::IMPL_KW,
                Syntax::USE_KW,
                Syntax::ENUM_KW,
            ].contains(k)),
{
    TokenSet::new(&[]).union(item_first())
}

fn fn_type_param_list_recovery() -> (r: TokenSet)
    ensures
        forall|k: Syntax|
            fits(k) ==> (r.has(k) <==> seq![
                Syntax::ARROW,
                Syntax::R_PAREN,
                Syntax::IDENT,
            ].contains(k)),
{
    TokenSet::new(&[Syntax::ARROW, Syntax::R_PAREN, Syntax::IDENT])
}

fn param_list_recovery() -> (r: TokenSet)
    ensures
        forall|k: Syntax|
            fits(k) ==> (r.has(k) <==> seq![
                Syntax::ARROW,
                Syntax::L_BRACE,
                Syntax::SEMI,
                Syntax::FN_KW,
                Syntax::MOD_KW,
                Syntax::STRUCT_KW,
                Syntax::IMPL_KW,
                Syntax::USE_KW,
                Syntax::ENUM_KW,
            ].contains(k)),
{
    TokenSet::new(&[Syntax::ARROW, Syntax::L_BRACE, Syntax::SEMI]).union(item_first())
}

fn record_list_recovery() -> (r: TokenSet)
    ensures
        forall|k: Syntax|
            fits(k) ==> (r.has(k) <==> seq![
                Syntax::LET_KW,
                Syntax::R_BRACE,
                Syntax::COMMA,
            ].contains(k)),
{
    TokenSet::new(&[Syntax::LET_KW, Syntax::R_BRACE, Syntax::COMMA])
}

fn element_recovery() -> (r: TokenSet)
    ensures
        forall|k: Syntax|
            fits(k) ==> (r.has(k) <==> seq![
                Syntax::R_BRACE,
                Syntax::FN_KW,
                Syntax::MOD_KW,
                Syntax::STRUCT_KW,
                Syntax::IMPL_KW,
                Syntax::USE_KW,
                Syntax::ENUM_KW,
            ].contains(k)),
{
    TokenSet::new(&[Syntax::R_BRACE]).union(item_first())
}

fn closure_param_list_recovery() -> (r: TokenSet)
    ensures
        forall|k: Syntax|
            fits(k) ==> (r.has(k) <==> seq![
                Syntax::LET_KW,
                Syntax::BAR,
                Syntax::L_BRACE,
            ].contains(k)),
{
    TokenSet::new(&[Syntax::LET_KW, Syntax::BAR, Syntax::L_BRACE])
}

fn stmt_expr_recovery() -> (r: TokenSet)
    ensures
        forall|k: Syntax|
            fits(k) ==> (r.has(k) <==> seq![
                Syntax::LET_KW,
                Syntax::L_BRACE,
                Syntax::R_BRACE,
                Syntax::FN_KW,
                Syntax::MOD_KW,
                Syntax::STRUCT_KW,
                Syntax::IMPL_KW,
                Syntax::USE_KW,
                Syntax::ENUM_KW,
            ].contains(k)),
{
    TokenSet::new(&[Syntax::LET_KW, Syntax::L_BRACE, Syntax::R_BRACE]).union(item_first())
}

fn arg_list_recovery() -> (r: TokenSet)
    ensures
        forall|k: Syntax|
            fits(k) ==> (r.has(k) <==> seq![
                Syntax::LET_KW,
                Syntax::R_PAREN,
            ].contains(k)),
{
    TokenSet::new(&[Syntax::LET_KW, Syntax::R_PAREN])
}

fn compiler_attrib_recovery() -> (r: TokenSet)
    ensures
        forall|k: Syntax|
            fits(k) ==> (r.has(k) <==> seq![
                Syntax::R_PAREN,
                Syntax::AT,
                Syntax::FN_KW,
                Syntax::MOD_KW,
                Syntax::STRUCT_KW,
                Syntax::IMPL_KW,
                Syntax::USE_KW,
                Syntax::ENUM_KW,
            ].contains(k)),
{
    TokenSet::new(&[Syntax::R_PAREN, Syntax::AT]).union(item_first())
}

fn generics_recovery() -> (r: TokenSet)
    ensures
        forall|k: Syntax|
            fits(k) ==> (r.has(k) <==> seq![
                Syntax::L_BRACE,
                Syntax::GT,
                Syntax::FN_KW,
                Syntax::MOD_KW,
                Syntax::STRUCT_KW,
                Syntax::IMPL_KW,
                Syntax::USE_KW,
                Syntax::ENUM_KW,
            ].contains(k)),
{
    TokenSet::new(&[Syntax::L_BRACE, Syntax::GT]).union(item_first())
}

fn tuple_recovery() -> (r: TokenSet)
    ensures
        forall|k: Syntax|
            fits(k) ==> (r.has(k) <==> seq![
                Syntax::R_PAREN,
            ].contains(k)),
{
    let r = TokenSet::new(&[Syntax::R_PAREN]);
    proof {
        assert forall|k: Syntax| fits(k) implies (r.has(k) <==> seq![Syntax::R_PAREN].contains(
            k,
        )) by {
            if k == Syntax::R_PAREN {
                assert(seq![Syntax::R_PAREN][0] == k);
            }
        }
    }
    r
}

fn generic_args_stop() -> (r: TokenSet)
    ensures
        forall|k: Syntax|
            fits(k) ==> (r.has(k) <==> seq![
                Syntax::GT,
                Syntax::SEMI,
            ].contains(k)),
{
    TokenSet::new(&[Syntax::GT, Syntax::SEMI])
}

/// Whether a path is parsed in an expression or in a type.
#[derive(Debug, Clone, Copy, PartialEq, Eq)]
pub(crate) enum PathKind {
    Expr,
    Type,
}


impl<'a> Parser<'a> {
    /// `name := IDENT`
    pub(crate) fn name(&mut self)
        requires
            old(self).wf(),
        ensures
            final(self).wf(),
            final(self).evolves(&*old(self)),
            node_shaped(final(self).events@.skip(old(self).events@.len() as int), Syntax::NAME),
    {
        let ghost e0 = self.events@;
        let m = self.open(Syntax::NAME);
        self.expect(Syntax::IDENT);
        self.close(m, Ghost(e0));
    }

    /// `use_item := 'use' use_tree ';'`
    pub(crate) fn use_item(&mut self)
        requires
            old(self).wf(),
        ensures
            final(self).wf(),
            final(self).evolves(&*old(self)),
            node_shaped(final(self).events@.skip(old(self).events@.len() as int), Syntax::USE_ITEM),
    {
        let ghost e0 = self.events@;
        let m = self.open(Syntax::USE_ITEM);
        self.expect(Syntax::USE_KW);
        self.use_tree();
        self.expect(Syntax::SEMI);
        self.close(m, Ghost(e0));
    }

    /// One tree of a `use` declaration: a list, `*`, `self`, a path or a name.
    pub(crate) fn use_tree(&mut self)
        requires
            old(self).wf(),
        ensures
            final(self).wf(),
            final(self).evolves(&*old(self)),
            old(self).has_room(2) && old(self).next_token() == Syntax::L_BRACE ==> node_shaped(final(self).recorded(&*old(self)), Syntax::USE_TREE_LIST),
            old(self).has_room(2) && old(self).next_token() == Syntax::STAR ==> node_shaped(final(self).recorded(&*old(self)), Syntax::USE_GLOBAL),
            old(self).has_room(2) && old(self).next_token() == Syntax::SELF_KW ==> node_shaped(final(self).recorded(&*old(self)), Syntax::USE_SELF_NAME),
            old(self).has_room(2) && old(self).next_token() == Syntax::ROOT_KW ==> node_shaped(final(self).recorded(&*old(self)), Syntax::USE_ROOT_PATH),
            old(self).has_room(2) && old(self).next_token() == Syntax::SUPER_KW ==> node_shaped(final(self).recorded(&*old(self)), Syntax::USE_SUPER_PATH),
            old(self).has_room(2) && old(self).next_token() == Syntax::IDENT ==> node_shaped(final(self).recorded(&*old(self)), Syntax::USE_PATH) || node_shaped(final(self).recorded(&*old(self)), Syntax::USE_NAME),
            old(self).has_room(2) && !(old(self).next_token() == Syntax::L_BRACE || old(self).next_token() == Syntax::STAR || old(self).next_token() == Syntax::SELF_KW || old(self).next_token() == Syntax::ROOT_KW || old(self).next_token() == Syntax::SUPER_KW || old(self).next_token() == Syntax::IDENT) ==> (final(self).events@ == old(self).events@ && final(self).errors@ == old(self).errors@) || (final(self).events@ == old(self).events@.push(Event::Advance { token: Syntax::ERROR }) && final(self).errors@.len() == old(self).errors@.len() + 1 && final(self).errors@[old(self).errors@.len() as int].kind == SyntaxErrorKind::ExpectedUseDeclaration),
        decreases old(self).steps,
    {
        if !self.tick() {
            return;
        }
        let ghost e0 = self.events@;
        match self.peek() {
            Syntax::L_BRACE => self.use_tree_list(),
            Syntax::STAR => {
                let m = self.open(Syntax::USE_GLOBAL);
                self.expect(Syntax::STAR);
                self.close(m, Ghost(e0));
            },
            Syntax::SELF_KW => {
                let m = self.open(Syntax::USE_SELF_NAME);
                self.expect(Syntax::SELF_KW);
                self.close(m, Ghost(e0));
            },
            Syntax::ROOT_KW => {
                let m = self.open(Syntax::USE_ROOT_PATH);
                self.expect(Syntax::ROOT_KW);
                self.expect(Syntax::COLON);
                self.expect(Syntax::COLON);
                self.use_tree();
                self.close(m, Ghost(e0));
            },
            Syntax::SUPER_KW => {
                let m = self.open(Syntax::USE_SUPER_PATH);
                self.expect(Syntax::SUPER_KW);
                self.expect(Syntax::COLON);
                self.expect(Syntax::COLON);
                self.use_tree();
                self.close(m, Ghost(e0));
            },
            Syntax::IDENT => {
                if self.nth(1) == Syntax::COLON {
                    let m = self.open(Syntax::USE_PATH);
                    self.name();
                    self.expect(Syntax::COLON);
                    self.expect(Syntax::COLON);
                    self.use_tree();
                    self.close(m, Ghost(e0));
                } else {
                    let m = self.open(Syntax::USE_NAME);
                    self.name();
                    self.close(m, Ghost(e0));
                }
            },
            _ => {
                if self.at_any(use_recovery()) {
                    return;
                }
                self.advance_with_error(SyntaxErrorKind::ExpectedUseDeclaration);
            },
        }
    }

    /// `use_tree_list := '{' (use_tree ',')* '}'`
    pub(crate) fn use_tree_list(&mut self)
        requires
            old(self).wf(),
        ensures
            final(self).wf(),
            final(self).evolves(&*old(self)),
            old(self).steps > 0 ==> node_shaped(final(self).events@.skip(old(self).events@.len() as int), Syntax::USE_TREE_LIST),
        decreases old(self).steps,
    {
        if !self.tick() {
            return;
        }
        let ghost e0 = self.events@;
        let m = self.open(Syntax::USE_TREE_LIST);
        self.expect(Syntax::L_BRACE);
        let ghost snap = *self;
        loop
            invariant
                self.wf(),
                self.evolves(&snap),
                self.inside(e0, m@),
                snap.steps < old(self).steps,
            decreases self.steps,
        {
            if self.at(Syntax::R_BRACE) || self.eof() {
                break;
            }
            if self.at_any(use_first()) {
                self.use_tree();
            } else if self.at_any(use_recovery()) {
                break;
            } else {
                self.advance_with_error(SyntaxErrorKind::ExpectedUseDeclaration);
            }
            if !self.at(Syntax::R_BRACE) {
                self.expect(Syntax::COMMA);
            }
        }
        self.expect(Syntax::R_BRACE);
        self.close(m, Ghost(e0));
    }
}

impl<'a> Parser<'a> {
    /// Whether the bytes of `span` spell `lit`.
    pub(crate) fn span_is(&self, span: &Range<usize>, lit: &str) -> (r: bool)
        requires
            span.start <= span.end <= self.input.spec_bytes().len(),
        ensures
            r == (self.input.spec_bytes().subrange(span.start as int, span.end as int)
                == lit.spec_bytes()),
    {
        let bytes = self.input.as_bytes();
        let l = lit.as_bytes();
        if span.end - span.start != l.len() {
            return false;
        }
        let mut i: usize = 0;
        while i < l.len()
            invariant
                bytes@ == self.input.spec_bytes(),
                l@ == lit.spec_bytes(),
                span.start <= span.end <= bytes@.len(),
                span.end - span.start == l@.len(),
                i <= l@.len(),
                forall|j: int| 0 <= j < i ==> bytes@[span.start + j] == l@[j],
            decreases l@.len() - i,
        {
            if bytes[span.start + i] != l[i] {
                assert(self.input.spec_bytes().subrange(span.start as int, span.end as int)[i as int]
                    != lit.spec_bytes()[i as int]);
                assert(self.input.spec_bytes().subrange(span.start as int, span.end as int)
                    != lit.spec_bytes());
                return false;
            }
            i = i + 1;
        }
        assert(bytes@.subrange(span.start as int, span.end as int) =~= l@);
        true
    }

}

/// An item records at least one event.
proof fn lemma_item_record_nonempty(rec: Seq<Event>, toks: Seq<LexToken>, q: int)
    requires
        item_record(rec, toks, q),
    ensures
        rec.len() >= 1,
{
    reveal(item_record);
    if token_at(toks, q, 0) == Syntax::AT {
        let n = choose|n: int|
            2 <= n < rec.len() && node_shaped(rec.take(n), Syntax::COMPILER_ATTRIB_LIST) && item_body(
                rec.skip(n),
                token_at(toks, q + advances(rec.take(n)), 0),
            );
    }
}

/// Cuts that increase from 0 to the end lie within the events.
proof fn lemma_cuts_bounded(ev: Seq<Event>, cuts: Seq<int>, k: int)
    requires
        cuts.len() >= 1,
        cuts[0] == 0,
        cuts.last() == ev.len(),
        forall|j: int| 0 <= j < cuts.len() - 1 ==> #[trigger] cuts[j] < cuts[j + 1],
        0 <= k < cuts.len(),
    ensures
        0 <= cuts[k] <= ev.len(),
    decreases cuts.len() - k,
{
    if k > 0 {
        lemma_cuts_low(cuts, k);
    }
    if k < cuts.len() - 1 {
        lemma_cuts_bounded(ev, cuts, k + 1);
    }
}

/// Increasing cuts from 0 stay at or above 0.
proof fn lemma_cuts_low(cuts: Seq<int>, k: int)
    requires
        cuts.len() >= 1,
        cuts[0] == 0,
        forall|j: int| 0 <= j < cuts.len() - 1 ==> #[trigger] cuts[j] < cuts[j + 1],
        0 <= k < cuts.len(),
    ensures
        0 <= cuts[k],
    decreases k,
{
    if k > 0 {
        lemma_cuts_low(cuts, k - 1);
        assert(cuts[k - 1] < cuts[k]);
    }
}

/// One more item after items one after the other: the pieces cut before stay as they were,
/// and the new piece is the new item.
#[verifier::rlimit(50)]
proof fn lemma_items_step(
    i0: Seq<Event>,
    rec: Seq<Event>,
    toks: Seq<LexToken>,
    p: int,
    cuts: Seq<int>,
)
    requires
        items_cut(i0, toks, p, cuts),
        item_record(rec, toks, p + advances(i0)),
    ensures
        items_cut(i0 + rec, toks, p, cuts.push((i0 + rec).len() as int)),
{
    let i1 = i0 + rec;
    let nc = cuts.push(i1.len() as int);
    let c0 = i0.len() as int;
    lemma_item_record_nonempty(rec, toks, p + advances(i0));
    assert(i1.take(c0) =~= i0);
    assert(i1.subrange(c0, i1.len() as int) =~= rec);
    assert forall|k: int| 0 <= k < nc.len() - 1 implies #[trigger] nc[k] < nc[k + 1] by {
        if k < cuts.len() - 1 {
            assert(nc[k + 1] == cuts[k + 1]);
        }
    }
    assert forall|k: int| 0 <= k < nc.len() - 1 implies item_record(
        i1.subrange(nc[k], #[trigger] nc[k + 1]),
        toks,
        p + advances(i1.take(nc[k])),
    ) by {
        if k < cuts.len() - 1 {
            assert(nc[k + 1] == cuts[k + 1]);
            lemma_cuts_bounded(i0, cuts, k);
            lemma_cuts_bounded(i0, cuts, k + 1);
            assert(i1.subrange(cuts[k], cuts[k + 1]) =~= i0.subrange(cuts[k], cuts[k + 1]));
            assert(i1.take(cuts[k]) =~= i0.take(cuts[k]));
        }
    }
}

/// One more item after items one after the other: the errors reported for the pieces cut
/// before stay, and the new piece, if a token taken as an error, has its own.
#[verifier::rlimit(50)]
proof fn lemma_items_reported_step(
    i0: Seq<Event>,
    rec: Seq<Event>,
    cuts: Seq<int>,
    errs0: Seq<ParseError>,
    errs1: Seq<ParseError>,
    from: int,
)
    requires
        cuts.len() >= 1,
        cuts.last() == i0.len(),
        forall|k: int| 0 <= k < cuts.len() ==> 0 <= #[trigger] cuts[k] <= i0.len(),
        forall|j: int| 0 <= j < cuts.len() - 1 ==> #[trigger] cuts[j] < cuts[j + 1],
        rec.len() >= 1,
        items_reported(i0, cuts, errs0, from),
        rec.last() == (Event::Advance { token: Syntax::ERROR }) ==> exists|e: int|
            errs0.len() <= e < errs1.len() && (#[trigger] errs1[e]).kind == SyntaxErrorKind::ExpectedItem,
        keeps(errs0, errs1),
        0 <= from <= errs0.len(),
    ensures
        items_reported(i0 + rec, cuts.push((i0 + rec).len() as int), errs1, from),
{
    let i1 = i0 + rec;
    let nc = cuts.push(i1.len() as int);
    assert forall|k: int|
        0 <= k < nc.len() - 1 && i1[#[trigger] nc[k + 1] - 1] == (Event::Advance {
            token: Syntax::ERROR,
        }) implies exists|e: int| from <= e < errs1.len() && (#[trigger] errs1[e]).kind
        == SyntaxErrorKind::ExpectedItem by {
        if k < cuts.len() - 1 {
            assert(nc[k + 1] == cuts[k + 1]);
            assert(0 <= cuts[k] < cuts[k + 1] <= i0.len());
            assert(i1[cuts[k + 1] - 1] == i0[cuts[k + 1] - 1]);
            let e = choose|e: int|
                from <= e < errs0.len() && (#[trigger] errs0[e]).kind == SyntaxErrorKind::ExpectedItem;
            assert(errs1[e] == errs0[e]);
        } else {
            assert(rec.last() == i1[i1.len() - 1]);
        }
    }
}

impl<'a> Parser<'a> {
    /// `module := item*`, all of the input: one item after another, each as `item` records
    /// it, to the end of the tokens. Where the parser runs out of work, an error "parser is
    /// stuck" is recorded and the rest of the tokens are consumed as error tokens.
    pub(crate) fn module(&mut self)
        requires
            old(self).wf(),
        ensures
            final(self).wf(),
            final(self).evolves(&*old(self)),
            module_shaped(final(self).events@.skip(old(self).events@.len() as int)),
            final(self).pos >= final(self).tokens@.len(),
            final(self).pos == old(self).pos + advances(final(self).recorded(&*old(self))),
            final(self).steps > 0 ==> exists|cuts: Seq<int>|
                module_items(
                    final(self).recorded(&*old(self)),
                    old(self).tokens@,
                    old(self).pos as int,
                    final(self).errors@,
                    old(self).errors@.len() as int,
                    cuts,
                ),
            final(self).steps == 0 ==> exists|e: int|
                old(self).errors@.len() <= e < final(self).errors@.len() && is_stuck_error(
                    (#[trigger] final(self).errors@[e]).kind,
                ),
    {
        let ghost e0 = self.events@;
        let m = self.open(Syntax::MODULE);
        let ghost snap = *self;
        let ghost mut cuts: Seq<int> = seq![0];
        proof {
            assert(self.events@.skip(m@ + 1).len() == 0);
        }
        while !self.eof()
            invariant
                self.wf(),
                self.evolves(&snap),
                self.inside(e0, m@),
                m@ + 1 == snap.events@.len(),
                snap.pos == old(self).pos,
                snap.tokens@ == old(self).tokens@,
                snap.errors@ == old(self).errors@,
                consumed(snap.pos, snap.events@),
                self.steps > 0 ==> items_cut(self.events@.skip(m@ + 1), snap.tokens@, snap.pos as int, cuts),
                self.steps > 0 ==> items_reported(self.events@.skip(m@ + 1), cuts, self.errors@, snap.errors@.len() as int),
            decreases self.steps,
        {
            let ghost before = *self;
            self.item();
            proof {
                if self.steps > 0 {
                    let i0 = before.events@.skip(m@ + 1);
                    let i1 = self.events@.skip(m@ + 1);
                    let rec = self.recorded(&before);
                    assert(i1 =~= i0 + rec);
                    reveal(consumed);
                    lemma_advances_concat(snap.events@, i0);
                    assert(snap.events@ + i0 =~= before.events@);
                    lemma_items_step(i0, rec, snap.tokens@, snap.pos as int, cuts);
                    lemma_item_record_nonempty(rec, snap.tokens@, before.pos as int);
                    assert forall|k: int| 0 <= k < cuts.len() implies 0 <= #[trigger] cuts[k] <= i0.len() by {
                        lemma_cuts_bounded(i0, cuts, k);
                    }
                    lemma_items_reported_step(
                        i0,
                        rec,
                        cuts,
                        before.errors@,
                        self.errors@,
                        snap.errors@.len() as int,
                    );
                    cuts = cuts.push(i1.len() as int);
                }
            }
        }
        if self.steps == 0 {
            // Out of work before the end: the rest of the tokens are consumed as errors.
            self.error(SyntaxErrorKind::Other("parser is stuck".to_string()));
            proof {
                reveal_strlit("parser is stuck");
            }
            let ghost snap2 = *self;
            while self.pos < self.tokens.len()
                invariant
                    self.wf(),
                    self.evolves(&snap2),
                    self.inside(e0, m@),
                    self.steps == 0,
                    is_stuck_error(self.errors@[snap2.errors@.len() - 1].kind),
                    snap2.errors@.len() > old(self).errors@.len(),
                decreases self.tokens@.len() - self.pos,
            {
                self.advance(Syntax::ERROR);
            }
        }
        let ghost before = self.events@;
        self.close(m, Ghost(e0));
        proof {
            let ev = self.events@.skip(e0.len() as int);
            assert(ev.subrange(1, ev.len() - 1) =~= before.skip(m@ + 1));
            reveal(consumed);
            lemma_advances_concat(e0, ev);
            assert(e0 + ev =~= self.events@);
            if self.steps > 0 {
                lemma_advances_concat(snap.events@, before.skip(m@ + 1));
                assert(snap.events@ + before.skip(m@ + 1) =~= before);
                assert(module_items(
                    self.recorded(old(self)),
                    old(self).tokens@,
                    old(self).pos as int,
                    self.errors@,
                    old(self).errors@.len() as int,
                    cuts,
                ));
            }
        }
    }

    /// `item := compiler_attrib_list? (fn_item | mod_item | struct_item | impl_item |
    /// enum_item | use_item)`: the node is the one of the token after the attributes; any
    /// other token is taken as an error (`ExpectedItem`).
    pub(crate) fn item(&mut self)
        requires
            old(self).wf(),
        ensures
            final(self).wf(),
            final(self).evolves(&*old(self)),
            old(self).steps > 0 ==> final(self).steps < old(self).steps,
            final(self).steps > 0 ==> item_record(
                final(self).recorded(&*old(self)),
                old(self).tokens@,
                old(self).pos as int,
            ),
            final(self).steps > 0 && final(self).recorded(&*old(self)).last() == (Event::Advance {
                token: Syntax::ERROR,
            }) ==> exists|e: int|
                old(self).errors@.len() <= e < final(self).errors@.len() && (#[trigger] final(self).errors@[e]).kind
                    == SyntaxErrorKind::ExpectedItem,
        decreases old(self).steps,
    {
        if !self.tick() {
            return;
        }
        self.refuel();
        let ghost s1 = *self;
        self.compiler_attrib_list();
        self.refuel();
        let ghost s2 = *self;
        if self.at_any(item_first()) {
            let ghost s3 = *self;
            let t = self.peek();
            let ghost s4 = *self;
            match t {
                Syntax::FN_KW => self.fn_item(),
                Syntax::MOD_KW => self.mod_item(),
                Syntax::STRUCT_KW => self.struct_item(),
                Syntax::IMPL_KW => self.impl_item(),
                Syntax::ENUM_KW => self.enum_item(),
                Syntax::USE_KW => self.use_item(),
                _ => self.advance_with_error(SyntaxErrorKind::ExpectedItem),
            }
            proof {
                if self.steps > 0 {
                    assert(s4.steps > 0);
                    assert(s3.steps > 0);
                    assert(t == s2.next_token());
                    assert(item_body(self.events@.skip(s2.events@.len() as int), s2.next_token()));
                }
            }
        } else {
            let ghost e2 = self.events@;
            self.advance_with_error(SyntaxErrorKind::ExpectedItem);
            proof {
                if self.steps > 0 {
                    assert(!seq![
                        Syntax::FN_KW,
                        Syntax::MOD_KW,
                        Syntax::STRUCT_KW,
                        Syntax::IMPL_KW,
                        Syntax::USE_KW,
                        Syntax::ENUM_KW,
                    ].contains(s2.next_token()));
                    assert(self.events@.skip(s2.events@.len() as int) =~= seq![
                        Event::Advance { token: Syntax::ERROR },
                    ]);
                }
            }
        }
        proof {
            if self.steps > 0 {
                let ev = self.recorded(old(self));
                let a = s2.events@.len() - old(self).events@.len();
                assert(s1.steps > 1);
                assert(ev.skip(a) =~= self.events@.skip(s2.events@.len() as int));
                reveal(consumed);
                reveal(item_record);
                if s1.next_token() == Syntax::AT {
                    assert(ev.take(a) =~= s2.recorded(&s1));
                    lemma_advances_concat(s1.events@, s2.recorded(&s1));
                    assert(s1.events@ + s2.recorded(&s1) =~= s2.events@);
                    assert(item_record(ev, old(self).tokens@, old(self).pos as int));
                } else {
                    assert(a == 0);
                    assert(ev.skip(0) =~= ev);
                }
            }
        }
    }

    /// `enum_item := 'enum' name generics '{' enum_element* '}'`
    pub(crate) fn enum_item(&mut self)
        requires
            old(self).wf(),
        ensures
            final(self).wf(),
            final(self).evolves(&*old(self)),
            old(self).steps > 0 ==> node_shaped(final(self).events@.skip(old(self).events@.len() as int), Syntax::ENUM_ITEM),
        decreases old(self).steps,
    {
        if !self.tick() {
            return;
        }
        let ghost e0 = self.events@;
        let m = self.open(Syntax::ENUM_ITEM);
        self.expect(Syntax::ENUM_KW);
        self.name();
        self.generics();
        self.enum_elem_list();
        self.close(m, Ghost(e0));
    }

    /// The elements of an enum, between braces.
    pub(crate) fn enum_elem_list(&mut self)
        requires
            old(self).wf(),
        ensures
            final(self).wf(),
            final(self).evolves(&*old(self)),
            old(self).steps > 0 ==> final(self).began_with(&*old(self), Syntax::L_BRACE) && final(self).ended_with(&*old(self), Syntax::R_BRACE),
        decreases old(self).steps,
    {
        if !self.tick() {
            return;
        }
        self.expect(Syntax::L_BRACE);
        let ghost snap = *self;
        loop
            invariant
                self.wf(),
                self.evolves(&snap),
                snap.steps < old(self).steps,
            decreases self.steps,
        {
            if self.at(Syntax::R_BRACE) || self.eof() {
                break;
            }
            self.compiler_attrib_list();
            if self.at_any(element_first()) {
                self.enum_element();
            } else if self.at_any(element_recovery()) {
                break;
            } else {
                self.advance_with_error(SyntaxErrorKind::ExpectedEnumElement);
            }
        }
        self.expect(Syntax::R_BRACE);
    }

    /// A function or a field of an enum.
    pub(crate) fn enum_element(&mut self)
        requires
            old(self).wf(),
        ensures
            final(self).wf(),
            final(self).evolves(&*old(self)),
            old(self).has_room(2) && old(self).next_token() == Syntax::FN_KW ==> node_shaped(final(self).recorded(&*old(self)), Syntax::FN_ITEM),
            old(self).has_room(2) && old(self).next_token() != Syntax::FN_KW ==> final(self).events@.len() > old(self).events@.len() && final(self).events@[old(self).events@.len() as int] == (Event::Open { node: Syntax::FIELD }),
        decreases old(self).steps,
    {
        if !self.tick() {
            return;
        }
        if self.at(Syntax::FN_KW) {
            self.fn_item();
        } else {
            self.enum_field();
            if !self.at(Syntax::R_BRACE) {
                self.expect(Syntax::COMMA);
            }
        }
    }

    /// `enum_field := name (':' item_type_expr)? ('=' expr)?`
    pub(crate) fn enum_field(&mut self)
        requires
            old(self).wf(),
        ensures
            final(self).wf(),
            final(self).evolves(&*old(self)),
            old(self).steps > 0 ==> node_shaped(final(self).events@.skip(old(self).events@.len() as int), Syntax::FIELD),
        decreases old(self).steps,
    {
        if !self.tick() {
            return;
        }
        let ghost e0 = self.events@;
        let m = self.open(Syntax::FIELD);
        self.name();
        if self.ate(Syntax::COLON) {
            self.item_type_expr();
        }
        if self.ate(Syntax::EQ) {
            self.expr();
        }
        self.close(m, Ghost(e0));
    }

    /// `field := name ':' item_type_expr ('=' expr)?`
    pub(crate) fn field(&mut self)
        requires
            old(self).wf(),
        ensures
            final(self).wf(),
            final(self).evolves(&*old(self)),
            old(self).steps > 0 ==> node_shaped(final(self).events@.skip(old(self).events@.len() as int), Syntax::FIELD),
        decreases old(self).steps,
    {
        if !self.tick() {
            return;
        }
        let ghost e0 = self.events@;
        let m = self.open(Syntax::FIELD);
        self.name();
        self.expect(Syntax::COLON);
        self.item_type_expr();
        if self.ate(Syntax::EQ) {
            self.expr();
        }
        self.close(m, Ghost(e0));
    }

    /// `impl_item := 'impl' generics type_expr ('for' type_expr)? '{' fn_item* '}'`
    pub(crate) fn impl_item(&mut self)
        requires
            old(self).wf(),
        ensures
            final(self).wf(),
            final(self).evolves(&*old(self)),
            old(self).steps > 0 ==> node_shaped(final(self).events@.skip(old(self).events@.len() as int), Syntax::IMPL_ITEM),
        decreases old(self).steps,
    {
        if !self.tick() {
            return;
        }
        let ghost e0 = self.events@;
        let m = self.open(Syntax::IMPL_ITEM);
        self.expect(Syntax::IMPL_KW);
        self.generics();
        self.type_expr();
        if self.ate(Syntax::FOR_KW) {
            self.type_expr();
        }
        self.expect(Syntax::L_BRACE);
        let ghost snap = *self;
        loop
            invariant
                self.wf(),
                self.evolves(&snap),
                self.inside(e0, m@),
                snap.steps < old(self).steps,
            decreases self.steps,
        {
            if self.at(Syntax::R_BRACE) || self.eof() {
                break;
            }
            if self.at(Syntax::FN_KW) {
                self.fn_item();
            } else if self.at_any(item_first()) {
                break;
            } else {
                self.advance_with_error(SyntaxErrorKind::ExpectedItem);
            }
        }
        self.expect(Syntax::R_BRACE);
        self.close(m, Ghost(e0));
    }

    /// `struct_item := 'struct' name generics parent? '{' struct_element* '}'`
    pub(crate) fn struct_item(&mut self)
        requires
            old(self).wf(),
        ensures
            final(self).wf(),
            final(self).evolves(&*old(self)),
            old(self).steps > 0 ==> node_shaped(final(self).events@.skip(old(self).events@.len() as int), Syntax::STRUCT_ITEM),
        decreases old(self).steps,
    {
        if !self.tick() {
            return;
        }
        let ghost e0 = self.events@;
        let m = self.open(Syntax::STRUCT_ITEM);
        self.expect(Syntax::STRUCT_KW);
        self.name();
        self.generics();
        if self.at(Syntax::COLON) {
            self.parent();
        }
        self.struct_elem_list();
        self.close(m, Ghost(e0));
    }

    /// The elements of a struct, between braces.
    pub(crate) fn struct_elem_list(&mut self)
        requires
            old(self).wf(),
        ensures
            final(self).wf(),
            final(self).evolves(&*old(self)),
            old(self).steps > 0 ==> final(self).began_with(&*old(self), Syntax::L_BRACE) && final(self).ended_with(&*old(self), Syntax::R_BRACE),
        decreases old(self).steps,
    {
        if !self.tick() {
            return;
        }
        self.expect(Syntax::L_BRACE);
        let ghost snap = *self;
        loop
            invariant
                self.wf(),
                self.evolves(&snap),
                snap.steps < old(self).steps,
            decreases self.steps,
        {
            if self.at(Syntax::R_BRACE) || self.eof() {
                break;
            }
            self.compiler_attrib_list();
            if self.at_any(element_first()) {
                self.struct_element();
            } else if self.at_any(element_recovery()) {
                break;
            } else {
                self.advance_with_error(SyntaxErrorKind::ExpectedStructElement);
            }
        }
        self.expect(Syntax::R_BRACE);
    }

    /// A function or a field of a struct.
    pub(crate) fn struct_element(&mut self)
        requires
            old(self).wf(),
        ensures
            final(self).wf(),
            final(self).evolves(&*old(self)),
            old(self).has_room(2) && old(self).next_token() == Syntax::FN_KW ==> node_shaped(final(self).recorded(&*old(self)), Syntax::FN_ITEM),
            old(self).has_room(2) && old(self).next_token() != Syntax::FN_KW ==> final(self).events@.len() > old(self).events@.len() && final(self).events@[old(self).events@.len() as int] == (Event::Open { node: Syntax::FIELD }),
        decreases old(self).steps,
    {
        if !self.tick() {
            return;
        }
        if self.at(Syntax::FN_KW) {
            self.fn_item();
        } else {
            self.field();
            if !self.at(Syntax::R_BRACE) {
                self.expect(Syntax::COMMA);
            }
        }
    }

    /// `parent := ':' type_path`
    pub(crate) fn parent(&mut self)
        requires
            old(self).wf(),
        ensures
            final(self).wf(),
            final(self).evolves(&*old(self)),
            old(self).steps > 0 ==> node_shaped(final(self).events@.skip(old(self).events@.len() as int), Syntax::PARENT),
        decreases old(self).steps,
    {
        if !self.tick() {
            return;
        }
        let ghost e0 = self.events@;
        let m = self.open(Syntax::PARENT);
        self.expect(Syntax::COLON);
        self.type_path();
        self.close(m, Ghost(e0));
    }

    /// `mod_item := 'mod' name (';' | '{' item* '}')`
    pub(crate) fn mod_item(&mut self)
        requires
            old(self).wf(),
        ensures
            final(self).wf(),
            final(self).evolves(&*old(self)),
            old(self).steps > 0 ==> node_shaped(final(self).events@.skip(old(self).events@.len() as int), Syntax::MOD_ITEM),
        decreases old(self).steps,
    {
        if !self.tick() {
            return;
        }
        let ghost e0 = self.events@;
        let m = self.open(Syntax::MOD_ITEM);
        self.expect(Syntax::MOD_KW);
        self.name();
        if !self.ate(Syntax::SEMI) {
            self.expect(Syntax::L_BRACE);
            let ghost snap = *self;
            loop
                invariant
                    self.wf(),
                    self.evolves(&snap),
                    self.inside(e0, m@),
                    snap.steps < old(self).steps,
                decreases self.steps,
            {
                if self.at(Syntax::R_BRACE) || self.eof() {
                    break;
                }
                self.item();
            }
            self.expect(Syntax::R_BRACE);
        }
        self.close(m, Ghost(e0));
    }

    /// `fn_item := 'fn' name generics param_list return_type? (block | ';')`
    pub(crate) fn fn_item(&mut self)
        requires
            old(self).wf(),
        ensures
            final(self).wf(),
            final(self).evolves(&*old(self)),
            old(self).steps > 0 ==> node_shaped(final(self).recorded(&*old(self)), Syntax::FN_ITEM),
        decreases old(self).steps,
    {
        if !self.tick() {
            return;
        }
        let ghost e0 = self.events@;
        let m = self.open(Syntax::FN_ITEM);
        self.expect(Syntax::FN_KW);
        self.name();
        self.generics();
        self.param_list();
        if self.at(Syntax::ARROW) {
            self.return_type();
        }
        match self.peek() {
            Syntax::L_BRACE => self.block(),
            Syntax::SEMI => self.expect(Syntax::SEMI),
            _ => self.error(SyntaxErrorKind::ExpectedToken(Syntax::L_BRACE)),
        }
        self.close(m, Ghost(e0));
    }

    /// `param_list := '(' (param ',')* ')'`
    #[verifier::spinoff_prover]
    #[verifier::rlimit(30)]
    pub(crate) fn param_list(&mut self)
        requires
            old(self).wf(),
        ensures
            final(self).wf(),
            final(self).evolves(&*old(self)),
            old(self).steps > 0 ==> node_shaped(final(self).events@.skip(old(self).events@.len() as int), Syntax::PARAM_LIST),
        decreases old(self).steps,
    {
        if !self.tick() {
            return;
        }
        let ghost e0 = self.events@;
        let m = self.open(Syntax::PARAM_LIST);
        self.expect(Syntax::L_PAREN);
        let ghost snap = *self;
        loop
            invariant
                self.wf(),
                self.evolves(&snap),
                self.inside(e0, m@),
                snap.steps < old(self).steps,
            decreases self.steps,
        {
            if self.at(Syntax::R_PAREN) || self.eof() {
                break;
            }
            self.compiler_attrib_list();
            if self.at_any(pattern_first()) || self.at(Syntax::SELF_KW) {
                self.param();
                if !self.at(Syntax::R_PAREN) {
                    self.expect(Syntax::COMMA);
                }
            } else if self.at_any(param_list_recovery()) {
                break;
            } else {
                self.advance_with_error(SyntaxErrorKind::ExpectedParameter);
            }
        }
        self.expect(Syntax::R_PAREN);
        self.close(m, Ghost(e0));
    }

    /// `param := 'self' | pattern ':' type_expr ('=' expr)?`
    pub(crate) fn param(&mut self)
        requires
            old(self).wf(),
        ensures
            final(self).wf(),
            final(self).evolves(&*old(self)),
            old(self).steps > 0 ==> node_shaped(final(self).events@.skip(old(self).events@.len() as int), Syntax::PARAM),
        decreases old(self).steps,
    {
        if !self.tick() {
            return;
        }
        let ghost e0 = self.events@;
        let m = self.open(Syntax::PARAM);
        if !self.ate(Syntax::SELF_KW) {
            self.pattern();
            self.expect(Syntax::COLON);
            self.type_expr();
            if self.ate(Syntax::EQ) {
                self.expr();
            }
        }
        self.close(m, Ghost(e0));
    }

    /// A pattern: a literal, a path, a name or `_`.
    pub(crate) fn pattern(&mut self)
        requires
            old(self).wf(),
        ensures
            final(self).wf(),
            final(self).evolves(&*old(self)),
            old(self).has_room(1) && literal_pattern_token(old(self).next_token()) ==> node_shaped(final(self).recorded(&*old(self)), Syntax::LIT_PAT),
            old(self).has_room(1) && old(self).next_token() == Syntax::IDENT ==> node_shaped(final(self).recorded(&*old(self)), Syntax::PATH_PAT) || node_shaped(final(self).recorded(&*old(self)), Syntax::NAME_PAT),
            old(self).has_room(1) && old(self).next_token() == Syntax::WILDCARD ==> node_shaped(final(self).recorded(&*old(self)), Syntax::WILDCARD_PAT),
            old(self).has_room(1) && !literal_pattern_token(old(self).next_token()) && old(self).next_token() != Syntax::IDENT && old(self).next_token() != Syntax::WILDCARD ==> final(self).events@ == old(self).events@ && final(self).errors@.len() == old(self).errors@.len() + 1 && final(self).errors@[old(self).errors@.len() as int].kind == SyntaxErrorKind::ExpectedPattern,
        decreases old(self).steps,
    {
        if !self.tick() {
            return;
        }
        let ghost e0 = self.events@;
        let token = self.peek();
        match token {
            Syntax::INT | Syntax::FLOAT | Syntax::STRING | Syntax::TRUE_KW | Syntax::FALSE_KW
            | Syntax::SINGLE_STRING | Syntax::BRACKET_STRING => {
                let m = self.open(Syntax::LIT_PAT);
                self.ate(token);
                self.close(m, Ghost(e0));
            },
            Syntax::IDENT => {
                if self.nth(1) == Syntax::COLON && self.nth(2) == Syntax::COLON {
                    let ghost e1 = self.events@;
                    let m = self.open(Syntax::PATH_PAT);
                    self.expr_path();
                    self.close(m, Ghost(e1));
                } else {
                    let ghost e1 = self.events@;
                    let m = self.open(Syntax::NAME_PAT);
                    self.name();
                    self.close(m, Ghost(e1));
                }
            },
            Syntax::WILDCARD => {
                let m = self.open(Syntax::WILDCARD_PAT);
                self.expect(Syntax::WILDCARD);
                self.close(m, Ghost(e0));
            },
            _ => self.error(SyntaxErrorKind::ExpectedPattern),
        }
    }

    /// `return_type := '->' type_expr`
    pub(crate) fn return_type(&mut self)
        requires
            old(self).wf(),
        ensures
            final(self).wf(),
            final(self).evolves(&*old(self)),
            old(self).steps > 0 ==> node_shaped(final(self).events@.skip(old(self).events@.len() as int), Syntax::RETURN_TYPE),
        decreases old(self).steps,
    {
        if !self.tick() {
            return;
        }
        let ghost e0 = self.events@;
        let m = self.open(Syntax::RETURN_TYPE);
        self.expect(Syntax::ARROW);
        self.type_expr();
        self.close(m, Ghost(e0));
    }

    /// A type where an item may also stand: a struct, an enum, or a type expression.
    pub(crate) fn item_type_expr(&mut self)
        requires
            old(self).wf(),
        ensures
            final(self).wf(),
            final(self).evolves(&*old(self)),
            old(self).has_room(6) && old(self).next_token() == Syntax::STRUCT_KW ==> node_shaped(final(self).recorded(&*old(self)), Syntax::STRUCT_ITEM),
            old(self).has_room(6) && old(self).next_token() == Syntax::ENUM_KW ==> node_shaped(final(self).recorded(&*old(self)), Syntax::ENUM_ITEM),
            old(self).has_room(6) && type_first_kinds().contains(old(self).next_token()) ==> final(self).events@.len() > old(self).events@.len() as int && final(self).events@[old(self).events@.len() as int] == Event::Checkpoint,
            old(self).has_room(6) && !(old(self).next_token() == Syntax::STRUCT_KW || old(self).next_token() == Syntax::ENUM_KW || type_first_kinds().contains(old(self).next_token())) ==> final(self).events@ == old(self).events@.push(Event::Advance { token: Syntax::ERROR }) && final(self).errors@.len() == old(self).errors@.len() + 1 && final(self).errors@[old(self).errors@.len() as int].kind == SyntaxErrorKind::ExpectedType,
        decreases old(self).steps,
    {
        if !self.tick() {
            return;
        }
        if self.at_any(item_type_first()) {
            match self.peek() {
                Syntax::STRUCT_KW => self.struct_item(),
                Syntax::ENUM_KW => self.enum_item(),
                _ => self.type_expr(),
            }
        } else {
            self.advance_with_error(SyntaxErrorKind::ExpectedType);
        }
    }
}

impl<'a> Parser<'a> {
    /// A type expression.
    pub(crate) fn type_expr(&mut self)
        requires
            old(self).wf(),
        ensures
            final(self).wf(),
            final(self).evolves(&*old(self)),
            old(self).has_room(3) && type_first_kinds().contains(old(self).next_token()) ==> final(self).events@.len() > old(self).events@.len() as int && final(self).events@[old(self).events@.len() as int] == Event::Checkpoint && one_node(final(self).events@.skip(old(self).events@.len() as int + 1)) && type_kind(final(self).events@[old(self).events@.len() as int + 1]->node),
            old(self).has_room(1) && !type_first_kinds().contains(old(self).next_token()) ==> final(self).events@ == old(self).events@.push(Event::Advance { token: Syntax::ERROR }) && final(self).errors@.len() == old(self).errors@.len() + 1 && final(self).errors@[old(self).errors@.len() as int].kind == SyntaxErrorKind::ExpectedType,
        decreases old(self).steps,
    {
        if !self.tick() {
            return;
        }
        if !self.at_any(type_first()) {
            self.advance_with_error(SyntaxErrorKind::ExpectedType);
            return;
        }
        let ghost e0 = self.events@;
        let ck = self.checkpoint();
        match self.peek() {
            Syntax::FN_KW => self.fn_type(),
            Syntax::SELF_TYPE_KW => {
                let ghost e1 = self.events@;
                let m = self.open(Syntax::SELF_TYPE);
                self.expect(Syntax::SELF_TYPE_KW);
                self.close(m, Ghost(e1));
            },
            Syntax::DYN_KW => {
                let ghost e1 = self.events@;
                let m = self.open(Syntax::DYN_TYPE);
                self.expect(Syntax::DYN_KW);
                self.dyn_bounds();
                self.close(m, Ghost(e1));
            },
            Syntax::L_PAREN => self.paren_type(ck, Ghost(e0)),
            _ => self.path_type(ck, Ghost(e0)),
        }
        proof {
            lemma_checkpoint_scope(e0, self.events@);
        }
    }

    /// A unit, parenthesized or tuple type after the checkpoint `ck`, then `?` if any.
    #[verifier::rlimit(40)]
    pub(crate) fn paren_type(&mut self, ck: usize, e0: Ghost<Seq<Event>>)
        requires
            old(self).wf(),
            old(self).after_checkpoint(e0@, ck as int),
        ensures
            final(self).wf(),
            final(self).follows(&*old(self)),
            final(self).after_checkpoint(e0@, ck as int),
            old(self).steps > 0 ==> one_node(final(self).events@.skip(ck as int)) && paren_type_kind(final(self).events@[ck as int]->node),
        decreases old(self).steps,
    {
        if !self.tick() {
            return;
        }
        self.expect(Syntax::L_PAREN);
        if self.at(Syntax::R_PAREN) {
            self.open_at(ck, Syntax::UNIT_TYPE);
            self.expect(Syntax::R_PAREN);
            self.finish_node(Ghost(ck as int));
        } else {
            self.type_expr();
            if self.at(Syntax::R_PAREN) {
                self.open_at(ck, Syntax::PAREN_TYPE);
                self.expect(Syntax::R_PAREN);
                self.finish_node(Ghost(ck as int));
            } else {
                self.open_at(ck, Syntax::TUPLE_TYPE);
                self.ate(Syntax::COMMA);
                self.tuple_type();
                self.expect(Syntax::R_PAREN);
                self.finish_node(Ghost(ck as int));
            }
        }
        if self.ate(Syntax::MARK) {
            self.wrap_at(ck, Syntax::NILABLE_TYPE);
        }
    }

    /// A path type after the checkpoint `ck`, wrapped as a literal type where it is one of
    /// the built-in names, then `?` if any.
    #[verifier::spinoff_prover]
    #[verifier::rlimit(50)]
    pub(crate) fn path_type(&mut self, ck: usize, e0: Ghost<Seq<Event>>)
        requires
            old(self).wf(),
            old(self).after_checkpoint(e0@, ck as int),
        ensures
            final(self).wf(),
            final(self).follows(&*old(self)),
            final(self).after_checkpoint(e0@, ck as int),
            old(self).steps > 0 && old(self).events@.len() == ck ==> one_node(final(self).events@.skip(ck as int)) && path_type_kind(final(self).events@[ck as int]->node),
        decreases old(self).steps,
    {
        if !self.tick() {
            return;
        }
        let next_span = self.nth_span(0);
        let can_be_lit = self.at_path_sep(1);
        let ghost e1 = self.events@;
        let m = self.open(Syntax::PATH_TYPE);
        self.type_path();
        self.close(m, Ghost(e1));
        if !can_be_lit {
            if self.span_is(&next_span, "int") {
                self.wrap_at(ck, Syntax::LIT_TYPE_INT);
                self.wrap_at(ck, Syntax::LIT_TYPE);
            } else if self.span_is(&next_span, "float") {
                self.wrap_at(ck, Syntax::LIT_TYPE_FLOAT);
                self.wrap_at(ck, Syntax::LIT_TYPE);
            } else if self.span_is(&next_span, "bool") {
                self.wrap_at(ck, Syntax::LIT_TYPE_BOOL);
                self.wrap_at(ck, Syntax::LIT_TYPE);
            } else if self.span_is(&next_span, "string") {
                self.wrap_at(ck, Syntax::LIT_TYPE_STRING);
                self.wrap_at(ck, Syntax::LIT_TYPE);
            } else if self.span_is(&next_span, "any") {
                self.wrap_at(ck, Syntax::ANY_TYPE);
            }
        }
        if self.ate(Syntax::MARK) {
            self.wrap_at(ck, Syntax::NILABLE_TYPE);
        }
    }

    /// `dyn_bounds := type_expr ('+' type_expr)*`
    pub(crate) fn dyn_bounds(&mut self)
        requires
            old(self).wf(),
        ensures
            final(self).wf(),
            final(self).evolves(&*old(self)),
            old(self).has_room(4) ==> final(self).events@.len() > old(self).events@.len() as int && final(self).events@[old(self).events@.len() as int] == (if type_first_kinds().contains(old(self).next_token()) { Event::Checkpoint } else { Event::Advance { token: Syntax::ERROR } }),
        decreases old(self).steps,
    {
        if !self.tick() {
            return;
        }
        self.type_expr();
        let ghost snap = *self;
        while self.ate(Syntax::PLUS)
            invariant
                self.wf(),
                self.evolves(&snap),
                snap.steps < old(self).steps,
            decreases self.steps,
        {
            self.type_expr();
        }
    }

    /// The types of a tuple type, up to its `)`.
    pub(crate) fn tuple_type(&mut self)
        requires
            old(self).wf(),
        ensures
            final(self).wf(),
            final(self).evolves(&*old(self)),
            old(self).steps > 1 && old(self).fuel > 0 && old(self).next_token() == Syntax::R_PAREN
                ==> final(self).events@ == old(self).events@ && final(self).errors@ == old(self).errors@,
            old(self).has_room(6) && type_first_kinds().contains(old(self).next_token()) ==> final(self).events@.len() > old(self).events@.len() && final(self).events@[old(self).events@.len() as int] == Event::Checkpoint,
        decreases old(self).steps,
    {
        if !self.tick() {
            return;
        }
        let ghost snap = *self;
        proof {
            snap.lemma_next_fits();
            if type_first_kinds().contains(snap.next_token()) {
                lemma_type_first_kinds(snap.next_token());
            }
        }
        let ghost n = snap.events@.len() as int;
        loop
            invariant_except_break
                snap.steps > 0 && snap.fuel > 0 && snap.next_token() == Syntax::R_PAREN ==> self.events@
                    == snap.events@ && self.errors@ == snap.errors@ && self.steps == snap.steps
                    && self.fuel == snap.fuel && self.pos == snap.pos,
                snap.has_room(5) && type_first_kinds().contains(snap.next_token()) ==> (
                self.events@.len() > n && self.events@[n] == Event::Checkpoint) || (self.events@
                    == snap.events@ && self.steps == snap.steps && self.fuel == snap.fuel
                    && self.pos == snap.pos),
            invariant
                self.wf(),
                self.evolves(&snap),
                snap.steps < old(self).steps,
                snap.wf(),
                fits(snap.next_token()),
                type_first_kinds().contains(snap.next_token()) ==> snap.next_token()
                    != Syntax::R_PAREN && snap.next_token() != Syntax::EOF,
                n == snap.events@.len(),
            ensures
                snap.steps > 0 && snap.fuel > 0 && snap.next_token() == Syntax::R_PAREN ==> self.events@
                    == snap.events@ && self.errors@ == snap.errors@,
                snap.has_room(5) && type_first_kinds().contains(snap.next_token()) ==> self.events@.len()
                    > n && self.events@[n] == Event::Checkpoint,
            decreases self.steps,
        {
            if self.at(Syntax::R_PAREN) || self.eof() {
                break;
            }
            if self.at_any(type_first()) {
                self.type_expr();
                if !self.at(Syntax::R_PAREN) {
                    self.expect(Syntax::COMMA);
                }
            } else if self.at_any(tuple_recovery()) {
                break;
            } else {
                self.advance_with_error(SyntaxErrorKind::ExpectedType);
            }
        }
    }

    /// A path in an expression.
    pub(crate) fn expr_path(&mut self)
        requires
            old(self).wf(),
        ensures
            final(self).wf(),
            final(self).evolves(&*old(self)),
            old(self).steps > 1 ==> node_shaped(final(self).recorded(&*old(self)), Syntax::PATH),
        decreases old(self).steps,
    {
        if !self.tick() {
            return;
        }
        self.path(PathKind::Expr);
    }

    /// A path in a type.
    pub(crate) fn type_path(&mut self)
        requires
            old(self).wf(),
        ensures
            final(self).wf(),
            final(self).evolves(&*old(self)),
            old(self).steps > 1 ==> node_shaped(final(self).recorded(&*old(self)), Syntax::PATH),
        decreases old(self).steps,
    {
        if !self.tick() {
            return;
        }
        self.path(PathKind::Type);
    }

    /// `path := path_segment ('::' path_segment)*`
    #[verifier::spinoff_prover]
    #[verifier::rlimit(40)]
    pub(crate) fn path(&mut self, kind: PathKind)
        requires
            old(self).wf(),
        ensures
            final(self).wf(),
            final(self).evolves(&*old(self)),
            old(self).steps > 0 ==> node_shaped(final(self).events@.skip(old(self).events@.len() as int), Syntax::PATH),
        decreases old(self).steps,
    {
        if !self.tick() {
            return;
        }
        let ghost e0 = self.events@;
        let m = self.open(Syntax::PATH);
        if self.at_any(path_first()) {
            self.path_segment(kind);
            let ghost snap = *self;
            loop
                invariant
                    self.wf(),
                    self.evolves(&snap),
                    self.inside(e0, m@),
                    snap.steps < old(self).steps,
                decreases self.steps,
            {
                if !self.at_path_sep(0) || self.eof() {
                    break;
                }
                self.expect(Syntax::COLON);
                self.expect(Syntax::COLON);
                if self.at_any(path_first()) {
                    self.path_segment(kind);
                } else {
                    self.advance_with_error(SyntaxErrorKind::ExpectedPathSegment);
                    break;
                }
            }
        } else {
            self.advance_with_error(SyntaxErrorKind::ExpectedPath);
        }
        self.close(m, Ghost(e0));
    }

    /// Whether generic arguments can be parsed here without an error and with one of the
    /// tokens that may follow them after them. Nothing is recorded: the parser comes back
    /// to where it was.
    #[verifier::spinoff_prover]
    pub(crate) fn can_parse_generic_args(&mut self) -> (r: bool)
        requires
            old(self).wf(),
        ensures
            final(self).wf(),
            final(self).evolves(&*old(self)),
            final(self).events@ == old(self).events@,
            final(self).errors@ == old(self).errors@,
            final(self).pos == old(self).pos,
            r ==> old(self).steps > 0,
            r && old(self).steps > 1 ==> old(self).next_token() == Syntax::LT,
        decreases old(self).steps,
    {
        if !self.tick() {
            return false;
        }
        let pos = self.pos;
        let event_id = self.events.len();
        let error_id = self.errors.len();
        let ghost before = *self;
        self.generic_args();
        let mut result = true;
        if self.errors.len() > error_id {
            result = false;
        }
        let next = self.nth(0);
        if !generic_anchor().contains(next) {
            result = false;
        }
        self.errors.truncate(error_id);
        self.events.truncate(event_id);
        self.pos = pos;
        proof {
            assert(self.events@ =~= before.events@);
            assert(self.errors@ =~= before.errors@);
            self.lemma_evolves_refl(&before);
        }
        result
    }

    /// `path_segment := 'root' | 'super' | IDENT generic_args?`
    pub(crate) fn path_segment(&mut self, kind: PathKind)
        requires
            old(self).wf(),
        ensures
            final(self).wf(),
            final(self).evolves(&*old(self)),
            old(self).steps > 0 ==> node_shaped(final(self).events@.skip(old(self).events@.len() as int), Syntax::PATH_SEGMENT),
        decreases old(self).steps,
    {
        if !self.tick() {
            return;
        }
        let ghost e0 = self.events@;
        let m = self.open(Syntax::PATH_SEGMENT);
        if self.at(Syntax::ROOT_KW) {
            self.expect(Syntax::ROOT_KW);
        } else if self.at(Syntax::SUPER_KW) {
            self.expect(Syntax::SUPER_KW);
        } else {
            self.expect(Syntax::IDENT);
            if self.at(Syntax::LT) {
                match kind {
                    PathKind::Expr => {
                        if self.can_parse_generic_args() {
                            self.generic_args();
                        }
                    },
                    PathKind::Type => self.generic_args(),
                }
            }
        }
        self.close(m, Ghost(e0));
    }

    /// `fn_type := 'fn' fn_type_param_list return_type?`
    pub(crate) fn fn_type(&mut self)
        requires
            old(self).wf(),
        ensures
            final(self).wf(),
            final(self).evolves(&*old(self)),
            old(self).steps > 0 ==> node_shaped(final(self).recorded(&*old(self)), Syntax::FN_TYPE),
        decreases old(self).steps,
    {
        if !self.tick() {
            return;
        }
        let ghost e0 = self.events@;
        let m = self.open(Syntax::FN_TYPE);
        self.expect(Syntax::FN_KW);
        self.fn_type_param_list();
        if self.at(Syntax::ARROW) {
            self.return_type();
        }
        self.close(m, Ghost(e0));
    }

    /// `fn_type_param_list := '(' (fn_type_param ',')* ')'`
    pub(crate) fn fn_type_param_list(&mut self)
        requires
            old(self).wf(),
        ensures
            final(self).wf(),
            final(self).evolves(&*old(self)),
            old(self).steps > 0 ==> node_shaped(final(self).events@.skip(old(self).events@.len() as int), Syntax::FN_TYPE_PARAM_LIST),
        decreases old(self).steps,
    {
        if !self.tick() {
            return;
        }
        let ghost e0 = self.events@;
        let m = self.open(Syntax::FN_TYPE_PARAM_LIST);
        self.expect(Syntax::L_PAREN);
        let ghost snap = *self;
        loop
            invariant
                self.wf(),
                self.evolves(&snap),
                self.inside(e0, m@),
                snap.steps < old(self).steps,
            decreases self.steps,
        {
            if self.at(Syntax::R_PAREN) || self.eof() {
                break;
            }
            if self.at_any(type_first()) || self.at(Syntax::IDENT) {
                self.fn_type_param();
                if !self.at(Syntax::R_PAREN) {
                    self.expect(Syntax::COMMA);
                }
            } else if self.at_any(fn_type_param_list_recovery()) {
                break;
            } else {
                self.advance_with_error(SyntaxErrorKind::ExpectedParameter);
            }
        }
        self.expect(Syntax::R_PAREN);
        self.close(m, Ghost(e0));
    }

    /// `fn_type_param := (name ':')? type_expr`
    pub(crate) fn fn_type_param(&mut self)
        requires
            old(self).wf(),
        ensures
            final(self).wf(),
            final(self).evolves(&*old(self)),
            old(self).steps > 0 ==> node_shaped(final(self).events@.skip(old(self).events@.len() as int), Syntax::FN_TYPE_PARAM),
        decreases old(self).steps,
    {
        if !self.tick() {
            return;
        }
        let ghost e0 = self.events@;
        let m = self.open(Syntax::FN_TYPE_PARAM);
        if self.nth(1) == Syntax::COLON {
            self.name();
            self.expect(Syntax::COLON);
        }
        self.type_expr();
        self.close(m, Ghost(e0));
    }

    /// `generic_args := '<' (type_expr ',')* '>'`
    pub(crate) fn generic_args(&mut self)
        requires
            old(self).wf(),
        ensures
            final(self).wf(),
            final(self).evolves(&*old(self)),
            old(self).steps > 0 ==> node_shaped(final(self).events@.skip(old(self).events@.len() as int), Syntax::GENERIC_ARGUMENTS),
            old(self).steps > 0 && final(self).errors@.len() == old(self).errors@.len() ==> old(self).next_token() == Syntax::LT,
        decreases old(self).steps,
    {
        if !self.tick() {
            return;
        }
        let ghost e0 = self.events@;
        let m = self.open(Syntax::GENERIC_ARGUMENTS);
        self.expect(Syntax::LT);
        let ghost snap = *self;
        loop
            invariant
                self.wf(),
                self.evolves(&snap),
                self.inside(e0, m@),
                snap.steps < old(self).steps,
            decreases self.steps,
        {
            if self.at(Syntax::GT) || self.eof() {
                break;
            }
            if self.at_any(type_first()) {
                self.type_expr();
            } else if self.at_any(generic_args_stop()) {
                break;
            } else {
                self.advance_with_error(SyntaxErrorKind::ExpectedType);
            }
            if !self.at(Syntax::GT) {
                self.expect(Syntax::COMMA);
            }
        }
        self.expect(Syntax::GT);
        self.close(m, Ghost(e0));
    }

    /// `generics := '<' (type_param ',')* '>'`, where the next token is `<`.
    pub(crate) fn generics(&mut self)
        requires
            old(self).wf(),
        ensures
            final(self).wf(),
            final(self).evolves(&*old(self)),
            old(self).steps > 1 && old(self).fuel > 0 && old(self).next_token() == Syntax::LT ==> node_shaped(final(self).recorded(&*old(self)), Syntax::GENERICS),
            !(old(self).steps > 1 && old(self).fuel > 0 && old(self).next_token() == Syntax::LT) ==> final(self).events@ == old(self).events@ && final(self).errors@ == old(self).errors@,
        decreases old(self).steps,
    {
        if !self.tick() {
            return;
        }
        if !self.at(Syntax::LT) {
            return;
        }
        let ghost e0 = self.events@;
        let m = self.open(Syntax::GENERICS);
        self.expect(Syntax::LT);
        let ghost snap = *self;
        loop
            invariant
                self.wf(),
                self.evolves(&snap),
                self.inside(e0, m@),
                snap.steps < old(self).steps,
            decreases self.steps,
        {
            if self.at(Syntax::GT) || self.eof() {
                break;
            }
            if self.at(Syntax::IDENT) {
                self.type_param();
                if !self.at(Syntax::GT) {
                    self.expect(Syntax::COMMA);
                }
            } else if self.at_any(generics_recovery()) {
                break;
            } else {
                self.advance_with_error(SyntaxErrorKind::ExpectedGeneric);
            }
        }
        self.expect(Syntax::GT);
        self.close(m, Ghost(e0));
    }

    /// `type_param := name (':' type_expr ('+' type_expr)*)?`
    pub(crate) fn type_param(&mut self)
        requires
            old(self).wf(),
        ensures
            final(self).wf(),
            final(self).evolves(&*old(self)),
            old(self).steps > 0 ==> node_shaped(final(self).events@.skip(old(self).events@.len() as int), Syntax::TYPE_PARAM),
        decreases old(self).steps,
    {
        if !self.tick() {
            return;
        }
        let ghost e0 = self.events@;
        let m = self.open(Syntax::TYPE_PARAM);
        self.name();
        if self.at(Syntax::COLON) {
            self.expect(Syntax::COLON);
            self.type_expr();
            let ghost snap = *self;
            while self.at(Syntax::PLUS)
                invariant
                    self.wf(),
                    self.evolves(&snap),
                    self.inside(e0, m@),
                    snap.steps < old(self).steps,
                decreases self.steps,
            {
                self.expect(Syntax::PLUS);
                self.type_expr();
            }
        }
        self.close(m, Ghost(e0));
    }
}

impl<'a> Parser<'a> {
    /// An expression.
    pub(crate) fn expr(&mut self)
        requires
            old(self).wf(),
        ensures
            final(self).wf(),
            final(self).evolves(&*old(self)),
            old(self).has_room(3) ==> final(self).events@.len() > old(self).events@.len() as int + 1 && final(self).events@[old(self).events@.len() as int] == Event::Checkpoint,
        decreases old(self).steps,
    {
        if !self.tick() {
            return;
        }
        self.expr_bp(0);
    }

    /// An expression whose operators bind at least as tightly as `min_bp`.
    pub(crate) fn expr_bp(&mut self, min_bp: u8)
        requires
            old(self).wf(),
        ensures
            final(self).wf(),
            final(self).evolves(&*old(self)),
            old(self).has_room(2) ==> final(self).events@.len() > old(self).events@.len() as int + 1 && final(self).events@[old(self).events@.len() as int] == Event::Checkpoint,
        decreases old(self).steps,
    {
        if !self.tick() {
            return;
        }
        let ghost e0 = self.events@;
        let ck = self.checkpoint();
        let first = self.peek();
        let ok = match first.prefix_bp() {
            Some(rbp) => {
                let ghost e1 = self.events@;
                let m = self.open(Syntax::UNARY_EXPR);
                let op = self.peek();
                self.expect(op);
                self.expr_bp(rbp);
                self.close(m, Ghost(e1));
                true
            },
            None => self.prefix_expr(),
        };
        if ok {
            let ghost snap = *self;
            loop
                invariant
                    self.wf(),
                    self.follows(&snap),
                    self.after_checkpoint(e0, ck as int),
                    old(self).has_room(2) ==> self.events@.len() > e0.len() + 1,
                    snap.steps < old(self).steps,
                decreases self.steps,
            {
                let op = self.peek();
                let (left_bp, right_bp) = match op.infix_bp() {
                    Some(bp) => bp,
                    None => break,
                };
                if left_bp < min_bp {
                    break;
                }
                self.expect(op);
                if self.at_any(expr_first()) {
                    self.open_at(ck, Syntax::BINARY_EXPR);
                    self.expr_bp(right_bp);
                    self.finish_node(Ghost(ck as int));
                } else {
                    self.advance_with_error(SyntaxErrorKind::ExpectedExpression);
                }
            }
        }
        proof {
            lemma_checkpoint_scope(e0, self.events@);
        }
    }

    /// An operand with what follows it (calls, indexing, fields, methods, `is`, `as`).
    /// False where no expression starts here (an error was recorded).
    #[verifier::spinoff_prover]
    #[verifier::rlimit(100)]
    pub(crate) fn prefix_expr(&mut self) -> (ok: bool)
        requires
            old(self).wf(),
        ensures
            final(self).wf(),
            final(self).evolves(&*old(self)),
            old(self).steps > 0 ==> final(self).events@.len() > old(self).events@.len() as int && final(self).events@[old(self).events@.len() as int] == Event::Checkpoint,
            old(self).has_room(2) ==> (ok <==> operand_start(old(self).next_token())),
            old(self).has_room(2) && ok ==> final(self).events@.len() > old(self).events@.len() as int + 1,
            old(self).has_room(3) && ok ==> exists|w: int|
                operand_wrapped(final(self).events@, old(self).events@.len() as int, w, old(self).next_token()),
            old(self).has_room(3) && ok ==> postfix_chain_ended(*final(self), old(self).events@.len() as int + 1),
            old(self).has_room(3) && ok ==> exists|w: int, n: int|
                operand_chain(*final(self), old(self).events@.len() as int, w, n, old(self).next_token()),
            old(self).has_room(2) && !ok ==> final(self).events@ == old(self).events@.push(Event::Checkpoint).push(Event::Advance { token: Syntax::ERROR }) && final(self).errors@.len() == old(self).errors@.len() + 1 && final(self).errors@[old(self).errors@.len() as int].kind == SyntaxErrorKind::ExpectedExpression,
        decreases old(self).steps,
    {
        if !self.tick() {
            return false;
        }
        let token = self.peek();
        let ghost e0 = self.events@;
        let ck = self.checkpoint();
        let ok = match token {
            Syntax::FOR_KW => {
                self.for_expr();
                proof {
                    if old(self).has_room(3) {
                        assert(operand_begins(self.events@.skip(ck as int), token));
                        assert(self.events@.skip(ck as int).skip(1) =~= self.events@.skip(ck as int + 1));
                        assert(one_operand(self.events@.skip(ck as int)));
                    }
                }
                true
            },
            Syntax::WHILE_KW => {
                self.while_expr();
                proof {
                    if old(self).has_room(3) {
                        assert(operand_begins(self.events@.skip(ck as int), token));
                        assert(self.events@.skip(ck as int).skip(1) =~= self.events@.skip(ck as int + 1));
                        assert(one_operand(self.events@.skip(ck as int)));
                    }
                }
                true
            },
            Syntax::LOOP_KW => {
                self.loop_expr();
                proof {
                    if old(self).has_room(3) {
                        assert(operand_begins(self.events@.skip(ck as int), token));
                        assert(self.events@.skip(ck as int).skip(1) =~= self.events@.skip(ck as int + 1));
                        assert(one_operand(self.events@.skip(ck as int)));
                    }
                }
                true
            },
            Syntax::RETURN_KW => {
                self.return_expr();
                proof {
                    if old(self).has_room(3) {
                        assert(operand_begins(self.events@.skip(ck as int), token));
                        assert(self.events@.skip(ck as int).skip(1) =~= self.events@.skip(ck as int + 1));
                        assert(one_operand(self.events@.skip(ck as int)));
                    }
                }
                true
            },
            Syntax::IF_KW => {
                self.if_expr();
                proof {
                    if old(self).has_room(3) {
                        assert(operand_begins(self.events@.skip(ck as int), token));
                        assert(self.events@.skip(ck as int).skip(1) =~= self.events@.skip(ck as int + 1));
                        assert(one_operand(self.events@.skip(ck as int)));
                    }
                }
                true
            },
            Syntax::INT | Syntax::FLOAT | Syntax::STRING | Syntax::TRUE_KW | Syntax::FALSE_KW
            | Syntax::NIL_KW | Syntax::SINGLE_STRING | Syntax::BRACKET_STRING => {
                let ghost e1 = self.events@;
                let m = self.open(Syntax::LIT_EXPR);
                let ghost s1 = *self;
                proof {
                    if old(self).has_room(3) {
                        assert(e1.len() == ck);
                        assert(s1.has_room(1) && s1.next_token() == token && s1.sees(token));
                    }
                }
                self.ate(token);
                self.close(m, Ghost(e1));
                proof {
                    if old(self).has_room(3) {
                        assert(self.events@ == s1.events@.push(Event::Advance { token }).push(Event::Close));
                        assert(self.events@.skip(ck as int)[1] == Event::Advance { token });
                    }
                }
                proof {
                    if old(self).has_room(3) {
                        assert(operand_begins(self.events@.skip(ck as int), token));
                        assert(self.events@.skip(ck as int).skip(1) =~= self.events@.skip(ck as int + 1));
                        assert(one_operand(self.events@.skip(ck as int)));
                    }
                }
                true
            },
            Syntax::L_PAREN => {
                self.paren_expr();
                proof {
                    if old(self).has_room(3) {
                        assert(operand_begins(self.events@.skip(ck as int), token));
                        assert(self.events@.skip(ck as int).skip(1) =~= self.events@.skip(ck as int + 1));
                        assert(one_operand(self.events@.skip(ck as int)));
                    }
                }
                true
            },
            Syntax::L_BRACE => {
                self.block();
                proof {
                    if old(self).has_room(3) {
                        assert(operand_begins(self.events@.skip(ck as int), token));
                        assert(self.events@.skip(ck as int).skip(1) =~= self.events@.skip(ck as int + 1));
                        assert(one_operand(self.events@.skip(ck as int)));
                    }
                }
                true
            },
            Syntax::LUA_KW => {
                self.lua_chunk();
                proof {
                    if old(self).has_room(3) {
                        assert(operand_begins(self.events@.skip(ck as int), token));
                        assert(self.events@.skip(ck as int).skip(1) =~= self.events@.skip(ck as int + 1));
                        assert(one_operand(self.events@.skip(ck as int)));
                    }
                }
                true
            },
            Syntax::BAR => {
                self.closure_expr();
                proof {
                    if old(self).has_room(3) {
                        assert(operand_begins(self.events@.skip(ck as int), token));
                        assert(self.events@.skip(ck as int).skip(1) =~= self.events@.skip(ck as int + 1));
                        assert(one_operand(self.events@.skip(ck as int)));
                    }
                }
                true
            },
            Syntax::SELF_KW => {
                let ghost e1 = self.events@;
                let m = self.open(Syntax::SELF_EXPR);
                let ghost s1 = *self;
                proof {
                    if old(self).has_room(3) {
                        assert(e1.len() == ck);
                        assert(s1.has_room(1) && s1.next_token() == token && s1.sees(Syntax::SELF_KW));
                    }
                }
                self.expect(Syntax::SELF_KW);
                self.close(m, Ghost(e1));
                proof {
                    if old(self).has_room(3) {
                        assert(self.events@ == s1.events@.push(Event::Advance { token: Syntax::SELF_KW }).push(Event::Close));
                        assert(self.events@.skip(ck as int)[1] == Event::Advance { token: Syntax::SELF_KW });
                    }
                }
                proof {
                    if old(self).has_room(3) {
                        assert(operand_begins(self.events@.skip(ck as int), token));
                        assert(self.events@.skip(ck as int).skip(1) =~= self.events@.skip(ck as int + 1));
                        assert(one_operand(self.events@.skip(ck as int)));
                    }
                }
                true
            },
            Syntax::IDENT => {
                self.path_or_record_expr();
                proof {
                    if old(self).has_room(3) {
                        assert(operand_begins(self.events@.skip(ck as int), token));
                        assert(self.events@.skip(ck as int).skip(1) =~= self.events@.skip(ck as int + 1));
                        assert(one_operand(self.events@.skip(ck as int)));
                    }
                }
                true
            },
            _ => {
                self.advance_with_error(SyntaxErrorKind::ExpectedExpression);
                false
            },
        };
        let ghost pre = self.events@;
        let ghost ms = *self;
        proof {
            if old(self).has_room(3) && ok {
                assert(operand_begins(pre.skip(ck as int), token));
                assert(one_operand(pre.skip(ck as int)));
            }
        }
        if ok {
            self.postfix(ck, Ghost(e0));
        }
        proof {
            lemma_checkpoint_scope(e0, self.events@);
            if old(self).has_room(3) && ok {
                let w = choose|w: int| postfix_wrapped(ms, *self, ck as int, w);
                let fin = self.events@;
                assert(fin.skip(ck + w)[0] == pre.skip(ck as int)[0]);
                if pre.skip(ck as int).len() > 1 {
                    assert(fin.skip(ck + w)[1] == pre.skip(ck as int)[1]);
                }
                if pre.skip(ck as int).len() > 2 {
                    assert(fin.skip(ck + w)[2] == pre.skip(ck as int)[2]);
                }
                assert(operand_begins(fin.skip(ck + w), token));
                assert(operand_wrapped(fin, ck - 1, w, token));
                let n = pre.len() as int;
                assert(operand_chain(*self, ck - 1, w, n, token)) by {
                    assert(fin.subrange(ck + w, n + w) =~= pre.skip(ck as int));
                    assert(fin.take(ck as int) =~= pre.take(ck as int));
                    assert(unwrapped(fin, ck as int, w, n) =~= pre);
                    reveal(consumed);
                    assert(ms.pos == advances(pre));
                    assert(token_at(self.tokens@, advances(unwrapped(fin, ck as int, w, n)), 0)
                        == ms.next_token());
                    if w == 0 && self.has_room(2) {
                        assert(ms.has_room(2));
                    }
                }
            }
        }
        ok
    }

    /// `()`, a parenthesized expression or a tuple.
    pub(crate) fn paren_expr(&mut self)
        requires
            old(self).wf(),
        ensures
            final(self).wf(),
            final(self).evolves(&*old(self)),
            old(self).steps > 0 ==> final(self).events@.len() > old(self).events@.len() as int + 1 && final(self).events@[old(self).events@.len() as int] == Event::Checkpoint && one_node(final(self).events@.skip(old(self).events@.len() as int + 1)) && (final(self).events@[old(self).events@.len() as int + 1]->node == Syntax::UNIT_EXPR || final(self).events@[old(self).events@.len() as int + 1]->node == Syntax::PAREN_EXPR || final(self).events@[old(self).events@.len() as int + 1]->node == Syntax::TUPLE_EXPR),
            old(self).has_room(1) && old(self).next_token() == Syntax::L_PAREN ==> final(self).events@.len() > old(self).events@.len() as int + 2 && final(self).events@[old(self).events@.len() as int + 2] == (Event::Advance { token: Syntax::L_PAREN }),
        decreases old(self).steps,
    {
        if !self.tick() {
            return;
        }
        let ghost e0 = self.events@;
        let ck = self.checkpoint();
        self.expect(Syntax::L_PAREN);
        if self.at(Syntax::R_PAREN) {
            self.open_at(ck, Syntax::UNIT_EXPR);
            self.expect(Syntax::R_PAREN);
            self.finish_node(Ghost(ck as int));
        } else {
            self.expr();
            if self.at(Syntax::R_PAREN) {
                self.open_at(ck, Syntax::PAREN_EXPR);
                self.expect(Syntax::R_PAREN);
                self.finish_node(Ghost(ck as int));
            } else {
                self.open_at(ck, Syntax::TUPLE_EXPR);
                self.ate(Syntax::COMMA);
                self.tuple_expr();
                self.expect(Syntax::R_PAREN);
                self.finish_node(Ghost(ck as int));
            }
        }
        proof {
            lemma_checkpoint_scope(e0, self.events@);
        }
    }

    /// A path expression, or a record expression where `{` and a field follow the path.
    pub(crate) fn path_or_record_expr(&mut self)
        requires
            old(self).wf(),
        ensures
            final(self).wf(),
            final(self).evolves(&*old(self)),
            old(self).steps > 0 ==> final(self).events@.len() > old(self).events@.len() as int + 1 && final(self).events@[old(self).events@.len() as int] == Event::Checkpoint && one_node(final(self).events@.skip(old(self).events@.len() as int + 1)) && (final(self).events@[old(self).events@.len() as int + 1]->node == Syntax::RECORD_EXPR || final(self).events@[old(self).events@.len() as int + 1]->node == Syntax::PATH_EXPR),
        decreases old(self).steps,
    {
        if !self.tick() {
            return;
        }
        let ghost e0 = self.events@;
        let ck = self.checkpoint();
        self.expr_path();
        let record = if self.at(Syntax::L_BRACE) {
            let second = self.nth(1);
            (second == Syntax::IDENT && self.nth(2) == Syntax::COLON) || second == Syntax::R_BRACE
        } else {
            false
        };
        if record {
            self.open_at(ck, Syntax::RECORD_EXPR);
            self.record_field_list();
            self.finish_node(Ghost(ck as int));
        } else {
            self.wrap_at(ck, Syntax::PATH_EXPR);
        }
        proof {
            lemma_checkpoint_scope(e0, self.events@);
        }
    }

    /// What follows an operand that began at checkpoint `ck`: calls, indexing, fields and
    /// methods, then `is`, `!is` or `as`.
    #[verifier::spinoff_prover]
    #[verifier::rlimit(100)]
    pub(crate) fn postfix(&mut self, ck: usize, e0: Ghost<Seq<Event>>)
        requires
            old(self).wf(),
            old(self).after_checkpoint(e0@, ck as int),
        ensures
            final(self).wf(),
            final(self).follows(&*old(self)),
            final(self).after_checkpoint(e0@, ck as int),
            final(self).events@.len() >= old(self).events@.len(),
            final(self).events@ == old(self).events@ || (one_node(final(self).events@.skip(ck as int))
                && postfix_kind(final(self).events@[ck as int]->node)),
            old(self).has_room(2) && (postfix_loop_start(old(self).next_token()) || postfix_test_start(
                old(self).next_token(),
            )) ==> one_node(final(self).events@.skip(ck as int)) && postfix_kind(
                final(self).events@[ck as int]->node,
            ),
            postfix_chain_ended(*final(self), ck as int),
            exists|w: int| postfix_wrapped(*old(self), *final(self), ck as int, w),
        decreases old(self).steps,
    {
        proof {
            lemma_wrapped_none(self.events@, ck as int, false);
        }
        if !self.tick() {
            assert(postfix_wrapped(*old(self), *self, ck as int, 0));
            return;
        }
        let ghost snap = *self;
        let ghost mut w: int = 0;
        loop
            invariant_except_break
                snap.has_room(0) && postfix_loop_start(snap.next_token()) ==> w >= 1 || (
                self.steps == snap.steps && self.fuel == snap.fuel),
                snap.has_room(1) && !postfix_loop_start(snap.next_token()) ==> self.steps
                    == snap.steps && self.fuel == snap.fuel && w == 0,
            invariant
                wrapped_at(snap.events@, self.events@, ck as int, w),
                w == 0 ==> self.events@ == snap.events@ && self.pos == snap.pos && self.fuel
                    <= snap.fuel,
                w >= 1 ==> innermost(self.events@, ck as int, w, snap.next_token()),
                self.wf(),
                self.follows(&snap),
                self.after_checkpoint(e0@, ck as int),
                self.events@.len() >= old(self).events@.len(),
                snap.steps < old(self).steps,
                snap.tokens@ == old(self).tokens@,
                snap.events@ == old(self).events@,
                self.events@ == snap.events@ || (one_node(self.events@.skip(ck as int))
                    && postfix_kind(self.events@[ck as int]->node)),
            ensures
                self.has_room(0) ==> !postfix_loop_start(self.next_token()),
                snap.has_room(0) && postfix_loop_start(snap.next_token()) ==> one_node(
                    self.events@.skip(ck as int),
                ) && postfix_kind(self.events@[ck as int]->node),
                snap.has_room(0) && postfix_loop_start(snap.next_token()) ==> w >= 1,
                snap.has_room(1) && !postfix_loop_start(snap.next_token()) ==> self.events@
                    == snap.events@ && self.steps == snap.steps - 1 && self.fuel == snap.fuel - 1
                    && self.pos == snap.pos && w == 0,
            decreases self.steps,
        {
            let ghost head = self.events@;
            let ghost hs = *self;
            let t = self.peek();
            proof {
                if w == 0 && t != Syntax::EOF {
                    assert(hs.has_room(0));
                    assert(t == snap.next_token());
                }
            }
            match t {
                Syntax::L_PAREN => {
                    self.open_at(ck, Syntax::CALL_EXPR);
                    self.arg_list();
                    self.finish_node(Ghost(ck as int));
                    proof {
                        lemma_wrapped_step(snap.events@, head, self.events@, ck as int, w, Syntax::CALL_EXPR, false);
                        lemma_innermost_step(snap.events@, head, self.events@, ck as int, w, Syntax::CALL_EXPR, snap.next_token());
                        w = w + 1;
                    }
                },
                Syntax::L_BRACKET => {
                    self.open_at(ck, Syntax::INDEX_EXPR);
                    self.index();
                    self.finish_node(Ghost(ck as int));
                    proof {
                        lemma_wrapped_step(snap.events@, head, self.events@, ck as int, w, Syntax::INDEX_EXPR, false);
                        lemma_innermost_step(snap.events@, head, self.events@, ck as int, w, Syntax::INDEX_EXPR, snap.next_token());
                        w = w + 1;
                    }
                },
                Syntax::MARK | Syntax::DOT => {
                    let safe_call = self.ate(Syntax::MARK);
                    self.expect(Syntax::DOT);
                    self.name();
                    let mut is_method = false;
                    if self.at(Syntax::LT) && self.can_parse_generic_args() {
                        self.generic_args();
                        if self.at(Syntax::L_PAREN) {
                            self.arg_list();
                            is_method = true;
                        }
                    }
                    if !is_method && self.at(Syntax::L_PAREN) {
                        self.arg_list();
                        is_method = true;
                    }
                    let ghost cur = self.events@;
                    proof {
                        lemma_wrapped_keeps(snap.events@, head, cur, ck as int, w, false);
                    }
                    if is_method {
                        self.wrap_at(ck, Syntax::METHOD_EXPR);
                        proof {
                            lemma_wrapped_step(snap.events@, cur, self.events@, ck as int, w, Syntax::METHOD_EXPR, false);
                            lemma_innermost_step(snap.events@, cur, self.events@, ck as int, w, Syntax::METHOD_EXPR, snap.next_token());
                            w = w + 1;
                        }
                        if safe_call {
                            let ghost cur2 = self.events@;
                            self.wrap_at(ck, Syntax::SAFE_METHOD_EXPR);
                            proof {
                                lemma_wrapped_step(snap.events@, cur2, self.events@, ck as int, w, Syntax::SAFE_METHOD_EXPR, false);
                                lemma_innermost_step(snap.events@, cur2, self.events@, ck as int, w, Syntax::SAFE_METHOD_EXPR, snap.next_token());
                                w = w + 1;
                            }
                        }
                    } else {
                        self.wrap_at(ck, Syntax::FIELD_EXPR);
                        proof {
                            lemma_wrapped_step(snap.events@, cur, self.events@, ck as int, w, Syntax::FIELD_EXPR, false);
                            lemma_innermost_step(snap.events@, cur, self.events@, ck as int, w, Syntax::FIELD_EXPR, snap.next_token());
                            w = w + 1;
                        }
                        if safe_call {
                            let ghost cur2 = self.events@;
                            self.wrap_at(ck, Syntax::SAFE_FIELD_EXPR);
                            proof {
                                lemma_wrapped_step(snap.events@, cur2, self.events@, ck as int, w, Syntax::SAFE_FIELD_EXPR, false);
                                lemma_innermost_step(snap.events@, cur2, self.events@, ck as int, w, Syntax::SAFE_FIELD_EXPR, snap.next_token());
                                w = w + 1;
                            }
                        }
                    }
                },
                _ => break,
            }
        }
        let ghost ls = *self;
        let t2 = self.peek();
        proof {
            if w == 0 && t2 != Syntax::EOF {
                assert(ls.has_room(0));
                assert(t2 == snap.next_token());
            }
        }
        match t2 {
            Syntax::IS_NOT_KW => {
                let ghost mid = self.events@;
                self.open_at(ck, Syntax::IS_NOT_EXPR);
                self.expect(Syntax::IS_NOT_KW);
                self.pattern();
                self.finish_node(Ghost(ck as int));
                proof {
                    lemma_wrapped_step(snap.events@, mid, self.events@, ck as int, w, Syntax::IS_NOT_EXPR, false);
                    lemma_innermost_step(snap.events@, mid, self.events@, ck as int, w, Syntax::IS_NOT_EXPR, snap.next_token());
                    w = w + 1;
                }
            },
            Syntax::IS_KW => {
                let ghost mid = self.events@;
                self.open_at(ck, Syntax::IS_EXPR);
                self.expect(Syntax::IS_KW);
                self.pattern();
                self.finish_node(Ghost(ck as int));
                proof {
                    lemma_wrapped_step(snap.events@, mid, self.events@, ck as int, w, Syntax::IS_EXPR, false);
                    lemma_innermost_step(snap.events@, mid, self.events@, ck as int, w, Syntax::IS_EXPR, snap.next_token());
                    w = w + 1;
                }
            },
            Syntax::AS_KW => {
                let ghost mid = self.events@;
                self.open_at(ck, Syntax::AS_EXPR);
                self.expect(Syntax::AS_KW);
                self.type_expr();
                self.finish_node(Ghost(ck as int));
                proof {
                    lemma_wrapped_step(snap.events@, mid, self.events@, ck as int, w, Syntax::AS_EXPR, false);
                    lemma_innermost_step(snap.events@, mid, self.events@, ck as int, w, Syntax::AS_EXPR, snap.next_token());
                    w = w + 1;
                }
            },
            _ => {},
        }
        assert(postfix_wrapped(*old(self), *self, ck as int, w));
    }

    /// `loop_expr := 'loop' block`
    pub(crate) fn loop_expr(&mut self)
        requires
            old(self).wf(),
        ensures
            final(self).wf(),
            final(self).evolves(&*old(self)),
            old(self).steps > 0 ==> node_shaped(final(self).events@.skip(old(self).events@.len() as int), Syntax::LOOP_EXPR),
            old(self).has_room(1) && old(self).next_token() == Syntax::LOOP_KW ==> final(self).events@[old(self).events@.len() as int + 1] == (Event::Advance { token: Syntax::LOOP_KW }),
        decreases old(self).steps,
    {
        if !self.tick() {
            return;
        }
        let ghost e0 = self.events@;
        let m = self.open(Syntax::LOOP_EXPR);
        self.expect(Syntax::LOOP_KW);
        self.block();
        self.close(m, Ghost(e0));
    }

    /// `while_expr := 'while' expr block`
    pub(crate) fn while_expr(&mut self)
        requires
            old(self).wf(),
        ensures
            final(self).wf(),
            final(self).evolves(&*old(self)),
            old(self).steps > 0 ==> node_shaped(final(self).events@.skip(old(self).events@.len() as int), Syntax::WHILE_EXPR),
            old(self).has_room(1) && old(self).next_token() == Syntax::WHILE_KW ==> final(self).events@[old(self).events@.len() as int + 1] == (Event::Advance { token: Syntax::WHILE_KW }),
        decreases old(self).steps,
    {
        if !self.tick() {
            return;
        }
        let ghost e0 = self.events@;
        let m = self.open(Syntax::WHILE_EXPR);
        self.expect(Syntax::WHILE_KW);
        self.expr();
        self.block();
        self.close(m, Ghost(e0));
    }

    /// `for_expr := 'for' expr 'in' expr block`
    pub(crate) fn for_expr(&mut self)
        requires
            old(self).wf(),
        ensures
            final(self).wf(),
            final(self).evolves(&*old(self)),
            old(self).steps > 0 ==> node_shaped(final(self).events@.skip(old(self).events@.len() as int), Syntax::FOR_EXPR),
            old(self).has_room(1) && old(self).next_token() == Syntax::FOR_KW ==> final(self).events@[old(self).events@.len() as int + 1] == (Event::Advance { token: Syntax::FOR_KW }),
        decreases old(self).steps,
    {
        if !self.tick() {
            return;
        }
        let ghost e0 = self.events@;
        let m = self.open(Syntax::FOR_EXPR);
        self.expect(Syntax::FOR_KW);
        self.expr();
        self.expect(Syntax::IN_KW);
        self.expr();
        self.block();
        self.close(m, Ghost(e0));
    }

    /// The expressions of a tuple, up to its `)`.
    pub(crate) fn tuple_expr(&mut self)
        requires
            old(self).wf(),
        ensures
            final(self).wf(),
            final(self).evolves(&*old(self)),
            old(self).steps > 1 && old(self).fuel > 0 && old(self).next_token() == Syntax::R_PAREN
                ==> final(self).events@ == old(self).events@ && final(self).errors@ == old(self).errors@,
            old(self).has_room(6) && expr_first_kinds().contains(old(self).next_token()) ==> final(self).events@.len() > old(self).events@.len() && final(self).events@[old(self).events@.len() as int] == Event::Checkpoint,
        decreases old(self).steps,
    {
        if !self.tick() {
            return;
        }
        let ghost snap = *self;
        proof {
            snap.lemma_next_fits();
            if expr_first_kinds().contains(snap.next_token()) {
                lemma_expr_first_kinds(snap.next_token());
            }
        }
        let ghost n = snap.events@.len() as int;
        loop
            invariant_except_break
                snap.steps > 0 && snap.fuel > 0 && snap.next_token() == Syntax::R_PAREN ==> self.events@
                    == snap.events@ && self.errors@ == snap.errors@ && self.steps == snap.steps
                    && self.fuel == snap.fuel && self.pos == snap.pos,
                snap.has_room(5) && expr_first_kinds().contains(snap.next_token()) ==> (
                self.events@.len() > n && self.events@[n] == Event::Checkpoint) || (self.events@
                    == snap.events@ && self.steps == snap.steps && self.fuel == snap.fuel
                    && self.pos == snap.pos),
            invariant
                self.wf(),
                self.evolves(&snap),
                snap.steps < old(self).steps,
                snap.wf(),
                fits(snap.next_token()),
                expr_first_kinds().contains(snap.next_token()) ==> snap.next_token()
                    != Syntax::R_PAREN && snap.next_token() != Syntax::EOF,
                n == snap.events@.len(),
            ensures
                snap.steps > 0 && snap.fuel > 0 && snap.next_token() == Syntax::R_PAREN ==> self.events@
                    == snap.events@ && self.errors@ == snap.errors@,
                snap.has_room(5) && expr_first_kinds().contains(snap.next_token()) ==> self.events@.len()
                    > n && self.events@[n] == Event::Checkpoint,
            decreases self.steps,
        {
            if self.at(Syntax::R_PAREN) || self.eof() {
                break;
            }
            if self.at_any(expr_first()) {
                self.expr();
                if !self.at(Syntax::R_PAREN) {
                    self.expect(Syntax::COMMA);
                }
            } else if self.at_any(tuple_recovery()) {
                break;
            } else {
                self.advance_with_error(SyntaxErrorKind::ExpectedExpression);
            }
        }
    }

    /// The fields of a record expression, between braces.
    pub(crate) fn record_field_list(&mut self)
        requires
            old(self).wf(),
        ensures
            final(self).wf(),
            final(self).evolves(&*old(self)),
            old(self).steps > 0 ==> final(self).began_with(&*old(self), Syntax::L_BRACE) && final(self).ended_with(&*old(self), Syntax::R_BRACE),
        decreases old(self).steps,
    {
        if !self.tick() {
            return;
        }
        self.expect(Syntax::L_BRACE);
        let ghost snap = *self;
        loop
            invariant
                self.wf(),
                self.evolves(&snap),
                snap.steps < old(self).steps,
            decreases self.steps,
        {
            if self.at(Syntax::R_BRACE) || self.eof() {
                break;
            }
            if self.at(Syntax::IDENT) {
                self.record_field();
            } else if self.at_any(record_list_recovery()) {
                break;
            } else {
                self.advance_with_error(SyntaxErrorKind::ExpectedField);
            }
        }
        self.expect(Syntax::R_BRACE);
    }

    /// `record_field := name ':' expr ','?`
    pub(crate) fn record_field(&mut self)
        requires
            old(self).wf(),
        ensures
            final(self).wf(),
            final(self).evolves(&*old(self)),
            old(self).steps > 0 ==> node_shaped(final(self).events@.skip(old(self).events@.len() as int), Syntax::RECORD_FIELD),
        decreases old(self).steps,
    {
        if !self.tick() {
            return;
        }
        let ghost e0 = self.events@;
        let m = self.open(Syntax::RECORD_FIELD);
        self.name();
        self.expect(Syntax::COLON);
        self.expr();
        if !self.at(Syntax::R_BRACE) {
            self.expect(Syntax::COMMA);
        }
        self.close(m, Ghost(e0));
    }

    /// `closure_expr := closure_param_list return_type? expr`
    pub(crate) fn closure_expr(&mut self)
        requires
            old(self).wf(),
        ensures
            final(self).wf(),
            final(self).evolves(&*old(self)),
            old(self).steps > 0 ==> node_shaped(final(self).recorded(&*old(self)), Syntax::CLOSURE_EXPR),
        decreases old(self).steps,
    {
        if !self.tick() {
            return;
        }
        let ghost e0 = self.events@;
        let m = self.open(Syntax::CLOSURE_EXPR);
        self.closure_param_list();
        if self.at(Syntax::ARROW) {
            self.return_type();
        }
        self.expr();
        self.close(m, Ghost(e0));
    }

    /// `closure_param_list := '|' closure_param* '|'`
    pub(crate) fn closure_param_list(&mut self)
        requires
            old(self).wf(),
        ensures
            final(self).wf(),
            final(self).evolves(&*old(self)),
            old(self).steps > 0 ==> node_shaped(final(self).events@.skip(old(self).events@.len() as int), Syntax::CLOSURE_PARAM_LIST),
        decreases old(self).steps,
    {
        if !self.tick() {
            return;
        }
        let ghost e0 = self.events@;
        let m = self.open(Syntax::CLOSURE_PARAM_LIST);
        self.expect(Syntax::BAR);
        let ghost snap = *self;
        loop
            invariant
                self.wf(),
                self.evolves(&snap),
                self.inside(e0, m@),
                snap.steps < old(self).steps,
            decreases self.steps,
        {
            if self.at(Syntax::BAR) || self.eof() {
                break;
            }
            if self.at_any(pattern_first()) {
                self.closure_param();
            } else if self.at_any(closure_param_list_recovery()) {
                break;
            } else {
                self.advance_with_error(SyntaxErrorKind::ExpectedParameter);
            }
        }
        self.expect(Syntax::BAR);
        self.close(m, Ghost(e0));
    }

    /// `closure_param := pattern (':' type_expr)? ','?`
    pub(crate) fn closure_param(&mut self)
        requires
            old(self).wf(),
        ensures
            final(self).wf(),
            final(self).evolves(&*old(self)),
            old(self).steps > 0 ==> node_shaped(final(self).events@.skip(old(self).events@.len() as int), Syntax::CLOSURE_PARAM),
        decreases old(self).steps,
    {
        if !self.tick() {
            return;
        }
        let ghost e0 = self.events@;
        let m = self.open(Syntax::CLOSURE_PARAM);
        self.pattern();
        if self.ate(Syntax::COLON) {
            self.type_expr();
        }
        if !self.at(Syntax::BAR) {
            self.expect(Syntax::COMMA);
        }
        self.close(m, Ghost(e0));
    }

    /// `if_expr := 'if' expr block ('else' (if_expr | block))?`
    pub(crate) fn if_expr(&mut self)
        requires
            old(self).wf(),
        ensures
            final(self).wf(),
            final(self).evolves(&*old(self)),
            old(self).steps > 0 ==> node_shaped(final(self).events@.skip(old(self).events@.len() as int), Syntax::IF_EXPR),
            old(self).has_room(1) && old(self).next_token() == Syntax::IF_KW ==> final(self).events@[old(self).events@.len() as int + 1] == (Event::Advance { token: Syntax::IF_KW }),
        decreases old(self).steps,
    {
        if !self.tick() {
            return;
        }
        let ghost e0 = self.events@;
        let m = self.open(Syntax::IF_EXPR);
        self.expect(Syntax::IF_KW);
        self.expr();
        self.block();
        if self.ate(Syntax::ELSE_KW) {
            if self.at(Syntax::IF_KW) {
                self.if_expr();
            } else {
                self.block();
            }
        }
        self.close(m, Ghost(e0));
    }

    /// `return_expr := 'return' expr?`
    pub(crate) fn return_expr(&mut self)
        requires
            old(self).wf(),
        ensures
            final(self).wf(),
            final(self).evolves(&*old(self)),
            old(self).steps > 0 ==> node_shaped(final(self).events@.skip(old(self).events@.len() as int), Syntax::RETURN_EXPR),
            old(self).has_room(1) && old(self).next_token() == Syntax::RETURN_KW ==> final(self).events@[old(self).events@.len() as int + 1] == (Event::Advance { token: Syntax::RETURN_KW }),
        decreases old(self).steps,
    {
        if !self.tick() {
            return;
        }
        let ghost e0 = self.events@;
        let m = self.open(Syntax::RETURN_EXPR);
        self.expect(Syntax::RETURN_KW);
        if self.at_any(expr_first()) {
            self.expr();
        }
        self.close(m, Ghost(e0));
    }

    /// `arg_list := '(' (arg ',')* ')'`
    pub(crate) fn arg_list(&mut self)
        requires
            old(self).wf(),
        ensures
            final(self).wf(),
            final(self).evolves(&*old(self)),
            old(self).steps > 0 ==> final(self).began_with(&*old(self), Syntax::L_PAREN) && final(self).ended_with(&*old(self), Syntax::R_PAREN),
        decreases old(self).steps,
    {
        if !self.tick() {
            return;
        }
        self.expect(Syntax::L_PAREN);
        let ghost snap = *self;
        loop
            invariant
                self.wf(),
                self.evolves(&snap),
                snap.steps < old(self).steps,
            decreases self.steps,
        {
            if self.at(Syntax::R_PAREN) || self.eof() {
                break;
            }
            if self.at_any(expr_first()) {
                self.arg();
                if !self.at(Syntax::R_PAREN) {
                    self.expect(Syntax::COMMA);
                }
            } else if self.at_any(arg_list_recovery()) {
                break;
            } else {
                self.advance_with_error(SyntaxErrorKind::ExpectedArgument);
            }
        }
        self.expect(Syntax::R_PAREN);
    }

    /// `index := '[' expr ']'`
    pub(crate) fn index(&mut self)
        requires
            old(self).wf(),
        ensures
            final(self).wf(),
            final(self).evolves(&*old(self)),
            old(self).steps > 0 ==> final(self).began_with(&*old(self), Syntax::L_BRACKET) && final(self).ended_with(&*old(self), Syntax::R_BRACKET),
        decreases old(self).steps,
    {
        if !self.tick() {
            return;
        }
        self.expect(Syntax::L_BRACKET);
        self.expr();
        self.expect(Syntax::R_BRACKET);
    }

    /// `arg := (name ':')? expr`
    pub(crate) fn arg(&mut self)
        requires
            old(self).wf(),
        ensures
            final(self).wf(),
            final(self).evolves(&*old(self)),
            old(self).steps > 0 ==> node_shaped(final(self).events@.skip(old(self).events@.len() as int), Syntax::ARG),
        decreases old(self).steps,
    {
        if !self.tick() {
            return;
        }
        let ghost e0 = self.events@;
        let m = self.open(Syntax::ARG);
        let has_label = self.nth(1) == Syntax::COLON;
        if has_label {
            self.name();
            self.expect(Syntax::COLON);
        }
        if self.at_any(expr_first()) || !has_label {
            self.expr();
        }
        self.close(m, Ghost(e0));
    }

    /// `block := '{' stmt* '}'`
    pub(crate) fn block(&mut self)
        requires
            old(self).wf(),
        ensures
            final(self).wf(),
            final(self).evolves(&*old(self)),
            old(self).steps > 0 ==> node_shaped(final(self).events@.skip(old(self).events@.len() as int), Syntax::BLOCK_EXPR),
            old(self).has_room(1) && old(self).next_token() == Syntax::L_BRACE ==> final(self).events@[old(self).events@.len() as int + 1] == (Event::Advance { token: Syntax::L_BRACE }),
        decreases old(self).steps,
    {
        if !self.tick() {
            return;
        }
        let ghost e0 = self.events@;
        let m = self.open(Syntax::BLOCK_EXPR);
        self.expect(Syntax::L_BRACE);
        let ghost snap = *self;
        loop
            invariant
                self.wf(),
                self.evolves(&snap),
                self.inside(e0, m@),
                snap.steps < old(self).steps,
            decreases self.steps,
        {
            if self.at(Syntax::R_BRACE) || self.eof() {
                break;
            }
            self.compiler_attrib_list();
            match self.peek() {
                Syntax::LET_KW => self.stmt_let(),
                Syntax::SEMI => self.expect(Syntax::SEMI),
                _ => {
                    if self.at_any(expr_first()) {
                        self.stmt_expr();
                    } else if self.at_any(stmt_expr_recovery()) {
                        break;
                    } else {
                        self.advance_with_error(SyntaxErrorKind::ExpectedStatement);
                    }
                },
            }
        }
        self.expect(Syntax::R_BRACE);
        self.close(m, Ghost(e0));
    }

    /// `stmt_expr := expr ';'?` (the `;` may be left out before `}`)
    pub(crate) fn stmt_expr(&mut self)
        requires
            old(self).wf(),
        ensures
            final(self).wf(),
            final(self).evolves(&*old(self)),
            old(self).steps > 0 ==> node_shaped(final(self).events@.skip(old(self).events@.len() as int), Syntax::EXPR_STMT),
        decreases old(self).steps,
    {
        if !self.tick() {
            return;
        }
        let ghost e0 = self.events@;
        let m = self.open(Syntax::EXPR_STMT);
        self.expr();
        if self.at(Syntax::SEMI) {
            self.expect(Syntax::SEMI);
        } else if !self.at(Syntax::R_BRACE) {
            self.expect(Syntax::SEMI);
        }
        self.close(m, Ghost(e0));
    }

    /// `stmt_let := 'let' pattern (':' type_expr)? '=' expr ';'`
    pub(crate) fn stmt_let(&mut self)
        requires
            old(self).wf(),
        ensures
            final(self).wf(),
            final(self).evolves(&*old(self)),
            old(self).steps > 0 ==> node_shaped(final(self).events@.skip(old(self).events@.len() as int), Syntax::LET_STMT),
        decreases old(self).steps,
    {
        if !self.tick() {
            return;
        }
        let ghost e0 = self.events@;
        let m = self.open(Syntax::LET_STMT);
        self.expect(Syntax::LET_KW);
        self.pattern();
        if self.ate(Syntax::COLON) {
            self.type_expr();
        }
        self.expect(Syntax::EQ);
        self.expr();
        self.expect(Syntax::SEMI);
        self.close(m, Ghost(e0));
    }

    /// The compiler attributes before an item, element, parameter or statement, if any.
    pub(crate) fn compiler_attrib_list(&mut self)
        requires
            old(self).wf(),
        ensures
            final(self).wf(),
            final(self).evolves(&*old(self)),
            old(self).steps > 1 && old(self).fuel > 0 && old(self).next_token() == Syntax::AT ==> node_shaped(final(self).recorded(&*old(self)), Syntax::COMPILER_ATTRIB_LIST),
            !(old(self).steps > 1 && old(self).fuel > 0 && old(self).next_token() == Syntax::AT) ==> final(self).events@ == old(self).events@ && final(self).errors@ == old(self).errors@,
        decreases old(self).steps,
    {
        if !self.tick() {
            return;
        }
        if !self.at(Syntax::AT) {
            return;
        }
        let ghost e0 = self.events@;
        let m = self.open(Syntax::COMPILER_ATTRIB_LIST);
        let ghost snap = *self;
        while self.at(Syntax::AT)
            invariant
                self.wf(),
                self.evolves(&snap),
                self.inside(e0, m@),
                snap.steps < old(self).steps,
            decreases self.steps,
        {
            self.compiler_attrib();
        }
        self.close(m, Ghost(e0));
    }

    /// `compiler_attrib := '@' name ('(' compiler_attrib_item* ')')?`
    pub(crate) fn compiler_attrib(&mut self)
        requires
            old(self).wf(),
        ensures
            final(self).wf(),
            final(self).evolves(&*old(self)),
            old(self).steps > 0 ==> node_shaped(final(self).events@.skip(old(self).events@.len() as int), Syntax::COMPILER_ATTRIB),
        decreases old(self).steps,
    {
        if !self.tick() {
            return;
        }
        let ghost e0 = self.events@;
        let m = self.open(Syntax::COMPILER_ATTRIB);
        self.expect(Syntax::AT);
        self.name();
        if self.ate(Syntax::L_PAREN) {
            let ghost snap = *self;
            loop
                invariant
                    self.wf(),
                    self.evolves(&snap),
                    self.inside(e0, m@),
                    snap.steps < old(self).steps,
                decreases self.steps,
            {
                if self.at(Syntax::R_PAREN) || self.eof() {
                    break;
                }
                if self.at_any(expr_first()) {
                    self.compiler_attrib_item();
                } else if self.at_any(compiler_attrib_recovery()) {
                    break;
                } else {
                    self.advance_with_error(SyntaxErrorKind::ExpectedAttribute);
                }
            }
            self.expect(Syntax::R_PAREN);
        }
        self.close(m, Ghost(e0));
    }

    /// `compiler_attrib_item := expr ('=' expr)? ','?`
    pub(crate) fn compiler_attrib_item(&mut self)
        requires
            old(self).wf(),
        ensures
            final(self).wf(),
            final(self).evolves(&*old(self)),
            old(self).steps > 0 ==> node_shaped(final(self).events@.skip(old(self).events@.len() as int), Syntax::COMPILER_ATTRIB_ITEM),
        decreases old(self).steps,
    {
        if !self.tick() {
            return;
        }
        let ghost e0 = self.events@;
        let m = self.open(Syntax::COMPILER_ATTRIB_ITEM);
        self.expr();
        if self.ate(Syntax::EQ) {
            self.expr();
        }
        if !self.at(Syntax::R_PAREN) {
            self.expect(Syntax::COMMA);
        }
        self.close(m, Ghost(e0));
    }
}

} // verus!
