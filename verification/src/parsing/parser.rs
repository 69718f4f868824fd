//! The parser: turns the tokens of a source file into a flat list of events (open a node,
//! consume a token, close a node) and a list of syntax errors.
use crate::parsing::lexer::{
    in_code_range, lemma_tokens_are_tokens, lemma_tokens_tile, lex, lex_from, lex_spec, LexToken,
    Syntax, token_view, tokens_view,
};
use crate::parsing::token_set::{fits, TokenSet};
use std::ops::Range;
use vstd::prelude::*;
use vstd::string::StringExecFns;
use vstd::string::StringSliceAdditionalSpecFns;

verus! {

broadcast use vstd::string::group_string_axioms;

// ---------------------------------------------------------------------------------------
// Events and their nesting
// ---------------------------------------------------------------------------------------

/// One step of building the syntax tree.
#[derive(Debug, Clone, Copy, PartialEq, Eq, Structural)]
pub enum Event {
    Open { node: Syntax },
    Checkpoint,
    Close,
    Advance { token: Syntax },
}

/// How an event changes the number of open nodes.
pub open spec fn weight(e: Event) -> int {
    match e {
        Event::Open { .. } => 1,
        Event::Close => -1,
        _ => 0,
    }
}

/// The number of nodes that `s` leaves open (negative if it closes more than it opens).
pub open spec fn depth(s: Seq<Event>) -> int
    decreases s.len(),
{
    if s.len() == 0 {
        0
    } else {
        depth(s.drop_last()) + weight(s.last())
    }
}

/// Whether every node that `s` opens it also closes, and it never closes a node it did not
/// open: no prefix has more closes than opens, and the whole has as many of each.
pub open spec fn balanced(s: Seq<Event>) -> bool {
    &&& depth(s) == 0
    &&& forall|i: int| 0 <= i <= s.len() ==> depth(#[trigger] s.take(i)) >= 0
}

/// Whether `new` keeps the events of `old` as its first events.
pub open spec fn keeps<T>(old: Seq<T>, new: Seq<T>) -> bool {
    &&& old.len() <= new.len()
    &&& forall|k: int| 0 <= k < old.len() ==> #[trigger] new[k] == old[k]
}

pub(crate) proof fn lemma_depth_concat(a: Seq<Event>, b: Seq<Event>)
    ensures
        depth(a + b) == depth(a) + depth(b),
    decreases b.len(),
{
    if b.len() > 0 {
        lemma_depth_concat(a, b.drop_last());
        assert((a + b).drop_last() =~= a + b.drop_last());
    } else {
        assert(a + b =~= a);
    }
}

pub(crate) proof fn lemma_balanced_empty(s: Seq<Event>)
    requires
        s.len() == 0,
    ensures
        balanced(s),
{
    assert forall|i: int| 0 <= i <= s.len() implies depth(#[trigger] s.take(i)) >= 0 by {
        assert(s.take(i).len() == 0);
    }
}

proof fn lemma_balanced_concat(a: Seq<Event>, b: Seq<Event>)
    requires
        balanced(a),
        balanced(b),
    ensures
        balanced(a + b),
{
    lemma_depth_concat(a, b);
    let c = a + b;
    assert forall|i: int| 0 <= i <= c.len() implies depth(#[trigger] c.take(i)) >= 0 by {
        if i <= a.len() {
            assert(c.take(i) =~= a.take(i));
        } else {
            assert(c.take(i) =~= a + b.take(i - a.len()));
            lemma_depth_concat(a, b.take(i - a.len()));
            assert(depth(b.take(i - a.len())) >= 0);
        }
    }
}

proof fn lemma_balanced_single(e: Event)
    requires
        weight(e) == 0,
    ensures
        balanced(seq![e]),
{
    let s = seq![e];
    assert(depth(Seq::<Event>::empty()) == 0);
    assert(s.drop_last() =~= Seq::<Event>::empty());
    assert(depth(s) == 0);
    assert forall|i: int| 0 <= i <= s.len() implies depth(#[trigger] s.take(i)) >= 0 by {
        if i == 0 {
            assert(s.take(i) =~= Seq::<Event>::empty());
        } else {
            assert(s.take(i) =~= s);
        }
    }
}

proof fn lemma_balanced_wrap(n: Syntax, b: Seq<Event>)
    requires
        balanced(b),
    ensures
        balanced(seq![Event::Open { node: n }] + b + seq![Event::Close]),
{
    let o = seq![Event::Open { node: n }];
    let c = o + b + seq![Event::Close];
    assert(depth(Seq::<Event>::empty()) == 0);
    assert(o.drop_last() =~= Seq::<Event>::empty());
    assert(depth(Seq::<Event>::empty()) == 0);
    assert(depth(o) == 1);
    assert(seq![Event::Close].drop_last() =~= Seq::<Event>::empty());
    assert(depth(seq![Event::Close]) == -1);
    lemma_depth_concat(o, b);
    lemma_depth_concat(o + b, seq![Event::Close]);
    assert(seq![Event::Close].drop_last() =~= Seq::<Event>::empty());
    assert forall|i: int| 0 <= i <= c.len() implies depth(#[trigger] c.take(i)) >= 0 by {
        if i == 0 {
            assert(c.take(i) =~= Seq::<Event>::empty());
        } else if i <= b.len() + 1 {
            assert(c.take(i) =~= o + b.take(i - 1));
            lemma_depth_concat(o, b.take(i - 1));
        } else {
            assert(c.take(i) =~= c);
        }
    }
}

/// Whether the events are one node of kind `kind` around balanced events.
pub open spec fn node_shaped(ev: Seq<Event>, kind: Syntax) -> bool {
    &&& ev.len() >= 2
    &&& ev[0] == (Event::Open { node: kind })
    &&& ev.last() == Event::Close
    &&& balanced(ev.subrange(1, ev.len() - 1))
}

/// Whether `pos` tokens are what the events consume.
#[verifier::opaque]
pub open spec fn consumed(pos: usize, ev: Seq<Event>) -> bool {
    pos == advances(ev)
}

/// The number of tokens that the events consume.
pub open spec fn advances(ev: Seq<Event>) -> int
    decreases ev.len(),
{
    if ev.len() == 0 {
        0
    } else {
        advances(ev.drop_last()) + if ev.last() is Advance {
            1int
        } else {
            0int
        }
    }
}

pub proof fn lemma_advances_concat(a: Seq<Event>, b: Seq<Event>)
    ensures
        advances(a + b) == advances(a) + advances(b),
        0 <= advances(b) <= b.len(),
    decreases b.len(),
{
    if b.len() > 0 {
        lemma_advances_concat(a, b.drop_last());
        assert((a + b).drop_last() =~= a + b.drop_last());
    } else {
        assert(a + b =~= a);
    }
}

/// Opening a node before the events from `k` on consumes no token.
pub proof fn lemma_advances_insert_open(s: Seq<Event>, k: int, node: Syntax)
    requires
        0 <= k <= s.len(),
    ensures
        advances(s.take(k).push(Event::Open { node }) + s.skip(k)) == advances(s),
{
    lemma_advances_concat(s.take(k).push(Event::Open { node }), s.skip(k));
    lemma_advances_concat(s.take(k), s.skip(k));
    assert(s.take(k) + s.skip(k) =~= s);
    assert(s.take(k).push(Event::Open { node }).drop_last() =~= s.take(k));
}

/// Whether the events are one node, of the kind that its first event opens, around balanced
/// events.
pub open spec fn one_node(ev: Seq<Event>) -> bool {
    &&& ev.len() >= 1
    &&& ev[0] is Open
    &&& node_shaped(ev, ev[0]->node)
}

/// Whether the events are one module node around balanced events.
pub open spec fn module_shaped(ev: Seq<Event>) -> bool {
    node_shaped(ev, Syntax::MODULE)
}

/// Events of one module node are balanced, and the module stays open up to the last event.
pub proof fn lemma_module_shaped(ev: Seq<Event>)
    requires
        module_shaped(ev),
    ensures
        balanced(ev),
        forall|k: int| 1 <= k < ev.len() ==> depth(#[trigger] ev.take(k)) >= 1,
{
    let mid = ev.subrange(1, ev.len() - 1);
    lemma_balanced_wrap(Syntax::MODULE, mid);
    assert(ev =~= seq![Event::Open { node: Syntax::MODULE }] + mid + seq![Event::Close]);
    let o = seq![Event::Open { node: Syntax::MODULE }];
    assert(o.drop_last() =~= Seq::<Event>::empty());
    assert(depth(Seq::<Event>::empty()) == 0);
    assert(depth(o) == 1);
    assert forall|k: int| 1 <= k < ev.len() implies depth(#[trigger] ev.take(k)) >= 1 by {
        assert(ev.take(k) =~= o + mid.take(k - 1));
        lemma_depth_concat(o, mid.take(k - 1));
        assert(depth(mid.take(k - 1)) >= 0);
    }
}

/// If the events after position `at(ev)` are balanced and the event at `i` changes no depth,
/// the events from `i` on are balanced.
pub(crate) proof fn lemma_prepend_neutral(ev: Seq<Event>, i: int)
    requires
        0 <= i < ev.len(),
        weight(ev[i]) == 0,
        balanced(ev.skip(i + 1)),
    ensures
        balanced(ev.skip(i)),
{
    lemma_balanced_single(ev[i]);
    lemma_balanced_concat(seq![ev[i]], ev.skip(i + 1));
    assert(ev.skip(i) =~= seq![ev[i]] + ev.skip(i + 1));
}

/// Growing `a` into `b` by balanced events keeps every balanced tail of `a` balanced.
proof fn lemma_scope(a: Seq<Event>, b: Seq<Event>)
    requires
        keeps(a, b),
        balanced(b.skip(a.len() as int)),
    ensures
        forall|g: int|
            0 <= g <= a.len() && #[trigger] balanced(a.skip(g)) ==> balanced(b.skip(g)),
{
    assert forall|g: int| 0 <= g <= a.len() && #[trigger] balanced(a.skip(g)) implies balanced(
        b.skip(g),
    ) by {
        lemma_balanced_concat(a.skip(g), b.skip(a.len() as int));
        assert(b.skip(g) =~= a.skip(g) + b.skip(a.len() as int));
    }
}

/// The tail of `b` from `a`'s end is balanced when the tail from `m` is, the events between
/// are neutral checkpoints kept from before, and `a` is kept.
proof fn lemma_scope_from_checkpoint(a: Seq<Event>, b: Seq<Event>)
    requires
        keeps(a, b),
        a.len() < b.len(),
        b[a.len() as int] == Event::Checkpoint,
        balanced(b.skip(a.len() as int + 1)),
    ensures
        balanced(b.skip(a.len() as int)),
        forall|g: int|
            0 <= g <= a.len() && #[trigger] balanced(a.skip(g)) ==> balanced(b.skip(g)),
{
    lemma_prepend_neutral(b, a.len() as int);
    lemma_scope(a, b);
}

// ---------------------------------------------------------------------------------------
// Errors
// ---------------------------------------------------------------------------------------

/// What went wrong at a syntax error.
#[derive(Debug, PartialEq, Eq, Hash)]
pub enum SyntaxErrorKind {
    ExpectedToken(Syntax),
    ExpectedExpression,
    ExpectedOperator,
    ExpectedArgument,
    ExpectedStatement,
    ExpectedGeneric,
    ExpectedType,
    ExpectedParameter,
    ExpectedParent,
    ExpectedStructElement,
    ExpectedEnumElement,
    ExpectedImplElement,
    ExpectedField,
    ExpectedPathSegment,
    ExpectedPath,
    ExpectedAttribute,
    ExpectedPattern,
    ExpectedItem,
    ExpectedUseDeclaration,
    Other(String),
}

impl SyntaxErrorKind {
    /// The message of the error.
    pub open spec fn spec_message(&self) -> Seq<char> {
        match self {
            SyntaxErrorKind::ExpectedToken(tok) => "expected "@ + tok.spec_text(),
            SyntaxErrorKind::ExpectedArgument => "expected argument"@,
            SyntaxErrorKind::ExpectedStatement => "expected statement"@,
            SyntaxErrorKind::ExpectedType => "expected type"@,
            SyntaxErrorKind::ExpectedAttribute => "expected attribute"@,
            SyntaxErrorKind::ExpectedExpression => "expected expression"@,
            SyntaxErrorKind::ExpectedParameter => "expected parameter"@,
            SyntaxErrorKind::ExpectedPattern => "expected pattern"@,
            SyntaxErrorKind::ExpectedItem => "expected item"@,
            SyntaxErrorKind::ExpectedOperator => "expected operator"@,
            SyntaxErrorKind::ExpectedField => "expected field"@,
            SyntaxErrorKind::ExpectedParent => "expected parent"@,
            SyntaxErrorKind::ExpectedStructElement => "expected struct element"@,
            SyntaxErrorKind::ExpectedEnumElement => "expected enum element"@,
            SyntaxErrorKind::ExpectedImplElement => "expected impl element"@,
            SyntaxErrorKind::ExpectedGeneric => "expected generic"@,
            SyntaxErrorKind::ExpectedPathSegment => "expected path segment"@,
            SyntaxErrorKind::ExpectedPath => "expected path"@,
            SyntaxErrorKind::ExpectedUseDeclaration => "expected use declaration"@,
            SyntaxErrorKind::Other(text) => text@,
        }
    }

    /// The message of the error: what `Display` shows of it.
    pub fn to_string(&self) -> (s: String)
        ensures
            s@ == self.spec_message(),
    {
        match self {
            SyntaxErrorKind::ExpectedToken(tok) => {
                let mut s = "expected ".to_string();
                s.append(tok.as_str());
                s
            },
            SyntaxErrorKind::ExpectedArgument => "expected argument".to_string(),
            SyntaxErrorKind::ExpectedStatement => "expected statement".to_string(),
            SyntaxErrorKind::ExpectedType => "expected type".to_string(),
            SyntaxErrorKind::ExpectedAttribute => "expected attribute".to_string(),
            SyntaxErrorKind::ExpectedExpression => "expected expression".to_string(),
            SyntaxErrorKind::ExpectedParameter => "expected parameter".to_string(),
            SyntaxErrorKind::ExpectedPattern => "expected pattern".to_string(),
            SyntaxErrorKind::ExpectedItem => "expected item".to_string(),
            SyntaxErrorKind::ExpectedOperator => "expected operator".to_string(),
            SyntaxErrorKind::ExpectedField => "expected field".to_string(),
            SyntaxErrorKind::ExpectedParent => "expected parent".to_string(),
            SyntaxErrorKind::ExpectedStructElement => "expected struct element".to_string(),
            SyntaxErrorKind::ExpectedEnumElement => "expected enum element".to_string(),
            SyntaxErrorKind::ExpectedImplElement => "expected impl element".to_string(),
            SyntaxErrorKind::ExpectedGeneric => "expected generic".to_string(),
            SyntaxErrorKind::ExpectedPathSegment => "expected path segment".to_string(),
            SyntaxErrorKind::ExpectedPath => "expected path".to_string(),
            SyntaxErrorKind::ExpectedUseDeclaration => "expected use declaration".to_string(),
            SyntaxErrorKind::Other(text) => text.clone(),
        }
    }
}

/// A syntax error: what went wrong, and at which bytes of the input.
#[derive(Debug, PartialEq, Eq, Hash)]
pub struct ParseError {
    pub range: Range<usize>,
    pub kind: SyntaxErrorKind,
}

impl Clone for SyntaxErrorKind {
    fn clone(&self) -> (r: Self)
        ensures
            r == *self,
    {
        match self {
            SyntaxErrorKind::ExpectedToken(t) => SyntaxErrorKind::ExpectedToken(*t),
            SyntaxErrorKind::ExpectedExpression => SyntaxErrorKind::ExpectedExpression,
            SyntaxErrorKind::ExpectedOperator => SyntaxErrorKind::ExpectedOperator,
            SyntaxErrorKind::ExpectedArgument => SyntaxErrorKind::ExpectedArgument,
            SyntaxErrorKind::ExpectedStatement => SyntaxErrorKind::ExpectedStatement,
            SyntaxErrorKind::ExpectedGeneric => SyntaxErrorKind::ExpectedGeneric,
            SyntaxErrorKind::ExpectedType => SyntaxErrorKind::ExpectedType,
            SyntaxErrorKind::ExpectedParameter => SyntaxErrorKind::ExpectedParameter,
            SyntaxErrorKind::ExpectedParent => SyntaxErrorKind::ExpectedParent,
            SyntaxErrorKind::ExpectedStructElement => SyntaxErrorKind::ExpectedStructElement,
            SyntaxErrorKind::ExpectedEnumElement => SyntaxErrorKind::ExpectedEnumElement,
            SyntaxErrorKind::ExpectedImplElement => SyntaxErrorKind::ExpectedImplElement,
            SyntaxErrorKind::ExpectedField => SyntaxErrorKind::ExpectedField,
            SyntaxErrorKind::ExpectedPathSegment => SyntaxErrorKind::ExpectedPathSegment,
            SyntaxErrorKind::ExpectedPath => SyntaxErrorKind::ExpectedPath,
            SyntaxErrorKind::ExpectedAttribute => SyntaxErrorKind::ExpectedAttribute,
            SyntaxErrorKind::ExpectedPattern => SyntaxErrorKind::ExpectedPattern,
            SyntaxErrorKind::ExpectedItem => SyntaxErrorKind::ExpectedItem,
            SyntaxErrorKind::ExpectedUseDeclaration => SyntaxErrorKind::ExpectedUseDeclaration,
            SyntaxErrorKind::Other(t) => SyntaxErrorKind::Other(t.clone()),
        }
    }
}

impl Clone for ParseError {
    fn clone(&self) -> (r: Self)
        ensures
            r == *self,
    {
        ParseError { range: Range { start: self.range.start, end: self.range.end }, kind: self.kind.clone() }
    }
}

impl ParseError {
    pub fn new(range: Range<usize>, kin: SyntaxErrorKind) -> (r: Self)
        ensures
            r.range == range,
            r.kind == kin,
    {
        Self { range, kind: kin }
    }
}

// ---------------------------------------------------------------------------------------
// The parser's state and its primitive steps
// ---------------------------------------------------------------------------------------

/// How many lookaheads the parser may make without consuming a token before it gives up.
pub const FUEL: u32 = 1024;

/// The parser. It walks the tokens (whitespace left out), records events and errors.
///
/// `steps` bounds the work of a parse: every parsing routine and lookahead spends one. When
/// it runs out, or when `FUEL` lookaheads pass without a token being consumed (where the
/// parser would be stuck), the parser sees the end of input from then on.
pub(crate) struct Parser<'a> {
    pub(crate) tokens: Vec<LexToken>,
    pub(crate) raw: Vec<LexToken>,
    pub(crate) pos: usize,
    pub(crate) fuel: u32,
    pub(crate) steps: u64,
    pub(crate) events: Vec<Event>,
    pub(crate) errors: Vec<ParseError>,
    pub(crate) input: &'a str,
}

/// Whether a token kind is whitespace (blanks or a comment).
pub open spec fn is_trivia(k: Syntax) -> bool {
    in_code_range(k, Syntax::WHITESPACE_FIRST, Syntax::WHITESPACE_LAST)
}

/// The tokens of `ts` that are not whitespace, in order.
pub open spec fn significant(ts: Seq<LexToken>) -> Seq<LexToken>
    decreases ts.len(),
{
    if ts.len() == 0 {
        seq![]
    } else if is_trivia(ts.last().token) {
        significant(ts.drop_last())
    } else {
        significant(ts.drop_last()).push(ts.last())
    }
}

/// The kind of the token `la` places after `pos`, or `EOF` past the end.
pub open spec fn token_at(tokens: Seq<LexToken>, pos: int, la: int) -> Syntax {
    if 0 <= pos + la < tokens.len() {
        tokens[pos + la].token
    } else {
        Syntax::EOF
    }
}

impl<'a> Parser<'a> {
    /// The parser's invariant: every token kind fits in a `TokenSet`, and tokens and errors
    /// lie within the input.
    pub(crate) open spec fn wf(&self) -> bool {
        &&& forall|k: int| 0 <= k < self.tokens@.len() ==> fits(#[trigger] self.tokens@[k].token)
        &&& forall|k: int|
            0 <= k < self.tokens@.len() ==> #[trigger] self.tokens@[k].range.start
                <= self.tokens@[k].range.end <= self.input.spec_bytes().len()
        &&& forall|k: int|
            0 <= k < self.errors@.len() ==> #[trigger] self.errors@[k].range.start
                <= self.errors@[k].range.end <= self.input.spec_bytes().len()
        &&& consumed(self.pos, self.events@)
    }

    /// How the parser may change while nodes are wrapped around earlier events: the tokens
    /// and input stay, work is spent, and errors are only added.
    pub(crate) open spec fn follows(&self, old: &Self) -> bool {
        &&& self.tokens@ == old.tokens@
        &&& self.raw@ == old.raw@
        &&& self.input == old.input
        &&& self.steps <= old.steps
        &&& keeps(old.errors@, self.errors@)
    }

    /// How a parsing routine may change the parser: the tokens and input stay, work is
    /// spent, the events grow by a balanced run (and every balanced tail stays balanced), and
    /// errors are only added.
    pub(crate) open spec fn evolves(&self, old: &Self) -> bool {
        &&& self.tokens@ == old.tokens@
        &&& self.raw@ == old.raw@
        &&& self.input == old.input
        &&& self.steps <= old.steps
        &&& keeps(old.events@, self.events@)
        &&& balanced(self.events@.skip(old.events@.len() as int))
        &&& forall|g: int|
            0 <= g <= old.events@.len() && #[trigger] balanced(old.events@.skip(g)) ==> balanced(
                self.events@.skip(g),
            )
        &&& keeps(old.errors@, self.errors@)
    }

    pub(crate) proof fn lemma_evolves_refl(&self, old: &Self)
        requires
            self.tokens@ == old.tokens@,
            self.raw@ == old.raw@,
            self.input == old.input,
            self.steps <= old.steps,
            self.events@ == old.events@,
            keeps(old.errors@, self.errors@),
        ensures
            self.evolves(old),
    {
        lemma_balanced_empty(self.events@.skip(old.events@.len() as int));
    }

    /// A parser at the start of `input`, with a budget of `steps` steps.
    #[verifier::spinoff_prover]
    pub(crate) fn new(input: &'a str, steps: u64) -> (p: Parser<'a>)
        ensures
            p.wf(),
            p.input == input,
            tokens_view(p.raw@) == lex_spec(input.spec_bytes()),
            p.tokens@ == significant(p.raw@),
            forall|k: int| 0 <= k < p.raw@.len() ==> #[trigger] p.raw@[k].range.start < p.raw@[k].range.end,
            p.pos == 0,
            p.steps == steps,
            p.events@.len() == 0,
            p.errors@.len() == 0,
    {
        let raw = lex(input);
        let ghost bytes = input.spec_bytes();
        proof {
            lemma_tokens_tile(bytes);
            lemma_tokens_are_tokens(bytes, 0);
            assert(tokens_view(raw@).len() == raw@.len());
            assert forall|j: int| 0 <= j < raw@.len() implies fits(#[trigger] raw@[j].token)
                && raw@[j].range.start <= raw@[j].range.end <= bytes.len() by {
                assert(tokens_view(raw@)[j] == token_view(raw@[j]));
                assert(tokens_view(raw@)[j] == lex_from(bytes, 0)[j]);
                assert(lex_spec(bytes)[j] == lex_from(bytes, 0)[j]);
                assert(0 <= lex_spec(bytes)[j].1 < lex_spec(bytes)[j].2 <= bytes.len());
                assert(lex_from(bytes, 0)[j].0.spec_code() < 128);
            }
            assert forall|j: int| 0 <= j < raw@.len() implies #[trigger] raw@[j].range.start
                < raw@[j].range.end by {
                assert(tokens_view(raw@)[j] == token_view(raw@[j]));
                assert(tokens_view(raw@)[j] == lex_from(bytes, 0)[j]);
                assert(lex_spec(bytes)[j] == lex_from(bytes, 0)[j]);
                assert(0 <= lex_spec(bytes)[j].1 < lex_spec(bytes)[j].2 <= bytes.len());
            }
        }
        let mut tokens: Vec<LexToken> = Vec::new();
        let mut i: usize = 0;
        while i < raw.len()
            invariant
                i <= raw@.len(),
                tokens@ == significant(raw@.take(i as int)),
                forall|j: int| 0 <= j < raw@.len() ==> fits(#[trigger] raw@[j].token)
                    && raw@[j].range.start <= raw@[j].range.end <= bytes.len(),
                forall|k: int| 0 <= k < tokens@.len() ==> fits(#[trigger] tokens@[k].token),
                forall|k: int|
                    0 <= k < tokens@.len() ==> #[trigger] tokens@[k].range.start
                        <= tokens@[k].range.end <= bytes.len(),
            decreases raw@.len() - i,
        {
            let t = raw[i].clone();
            assert(raw@.take(i + 1).drop_last() =~= raw@.take(i as int));
            if !t.token.is_whitespace() {
                let ghost before = tokens@;
                tokens.push(t);
                proof {
                    assert forall|k: int| 0 <= k < tokens@.len() implies #[trigger] tokens@[k].range.start
                        <= tokens@[k].range.end <= bytes.len() by {
                        if k < before.len() {
                            assert(tokens@[k] == before[k]);
                        } else {
                            assert(tokens@[k] == raw@[i as int]);
                            assert(fits(raw@[i as int].token));
                        }
                    }
                }
            }
            i = i + 1;
        }
        assert(raw@.take(raw@.len() as int) =~= raw@);
        let p = Parser {
            tokens,
            raw,
            pos: 0,
            fuel: FUEL,
            steps,
            events: Vec::new(),
            errors: Vec::new(),
            input,
        };
        proof {
            reveal(consumed);
        }
        p
    }

    /// Inside a node opened at event `m`, after the events `entry`: the `Open` event is in
    /// place and all that followed it is balanced.
    pub(crate) open spec fn inside(&self, entry: Seq<Event>, m: int) -> bool {
        &&& m == entry.len()
        &&& keeps(entry, self.events@)
        &&& m < self.events@.len()
        &&& (self.events@[m] is Open)
        &&& balanced(self.events@.skip(m + 1))
    }

    /// After a checkpoint made at position `ck - 1`, right after the events `entry`: all
    /// that followed it is balanced.
    pub(crate) open spec fn after_checkpoint(&self, entry: Seq<Event>, ck: int) -> bool {
        &&& ck == entry.len() + 1
        &&& keeps(entry, self.events@)
        &&& ck <= self.events@.len()
        &&& self.events@[ck - 1] == Event::Checkpoint
        &&& balanced(self.events@.skip(ck))
    }

    /// The kind of the next token, or `EOF` past the end.
    pub(crate) open spec fn next_token(&self) -> Syntax {
        token_at(self.tokens@, self.pos as int, 0)
    }

    /// Whether the parser has work and fuel left for more than `n` lookaheads.
    pub(crate) open spec fn has_room(&self, n: int) -> bool {
        self.steps > n && self.fuel > n
    }

    /// Whether a lookahead now would see `token`: the next token where the parser has work
    /// and fuel left, `EOF` where it is stuck.
    pub(crate) open spec fn sees(&self, token: Syntax) -> bool {
        if self.steps > 0 && self.fuel > 0 {
            self.next_token() == token
        } else {
            token == Syntax::EOF
        }
    }

    /// Whether what `self` recorded after `old` begins with `token` consumed, or with an
    /// error that `token` was expected.
    pub(crate) open spec fn began_with(&self, old: &Self, token: Syntax) -> bool {
        ||| (self.events@.len() > old.events@.len() && self.events@[old.events@.len() as int]
            == (Event::Advance { token }))
        ||| (self.errors@.len() > old.errors@.len() && self.errors@[old.errors@.len() as int].kind
            == SyntaxErrorKind::ExpectedToken(token))
    }

    /// Whether what `self` recorded after `old` ends with `token` consumed, or with an error
    /// that `token` was expected.
    pub(crate) open spec fn ended_with(&self, old: &Self, token: Syntax) -> bool {
        ||| (self.events@.len() > old.events@.len() && self.events@.last() == (Event::Advance {
            token,
        }))
        ||| (self.errors@.len() > old.errors@.len() && self.errors@.last().kind
            == SyntaxErrorKind::ExpectedToken(token))
    }

    /// The events recorded since `old`.
    pub(crate) open spec fn recorded(&self, old: &Self) -> Seq<Event> {
        self.events@.skip(old.events@.len() as int)
    }

    /// The bytes (start, end) that the token `la` places ahead covers; past the end, the
    /// empty range at the last byte.
    pub(crate) open spec fn span_at(&self, la: int) -> (int, int) {
        if 0 <= self.pos + la < self.tokens@.len() {
            (
                self.tokens@[self.pos + la].range.start as int,
                self.tokens@[self.pos + la].range.end as int,
            )
        } else if self.input.spec_bytes().len() > 0 {
            (self.input.spec_bytes().len() - 1, self.input.spec_bytes().len() - 1)
        } else {
            (0, 0)
        }
    }

    /// The text of the token `la` places ahead (empty past the end).
    pub(crate) open spec fn text_at(&self, la: int) -> Seq<u8> {
        self.input.spec_bytes().subrange(self.span_at(la).0, self.span_at(la).1)
    }

    /// The next token fits in a `TokenSet`.
    pub(crate) proof fn lemma_next_fits(&self)
        requires
            self.wf(),
        ensures
            fits(self.next_token()),
    {
        if 0 <= self.pos < self.tokens@.len() {
            assert(fits(self.tokens@[self.pos as int].token));
        }
    }

    /// Gives the parser its full lookahead fuel back, at the start of an item: fuel only
    /// detects a loop that looks ahead without ever consuming a token.
    pub(crate) fn refuel(&mut self)
        requires
            old(self).wf(),
        ensures
            final(self).wf(),
            final(self).evolves(&*old(self)),
            final(self).pos == old(self).pos,
            final(self).events@ == old(self).events@,
            final(self).errors@ == old(self).errors@,
            final(self).steps == old(self).steps,
            final(self).fuel == FUEL,
    {
        proof {
            lemma_balanced_empty(self.events@.skip(self.events@.len() as int));
        }
        self.fuel = FUEL;
    }

    /// Spends one step of work; false when none is left.
    pub(crate) fn tick(&mut self) -> (ok: bool)
        requires
            old(self).wf(),
        ensures
            final(self).wf(),
            final(self).evolves(&*old(self)),
            ok == (old(self).steps > 0),
            ok ==> final(self).steps == old(self).steps - 1,
            !ok ==> final(self).steps == 0,
            final(self).pos == old(self).pos,
            final(self).fuel == old(self).fuel,
            final(self).events@ == old(self).events@,
            final(self).errors@ == old(self).errors@,
    {
        proof {
            lemma_balanced_empty(self.events@.skip(self.events@.len() as int));
        }
        if self.steps == 0 {
            false
        } else {
            self.steps = self.steps - 1;
            true
        }
    }

    pub(crate) fn eof(&self) -> (r: bool)
        ensures
            r == (self.pos >= self.tokens@.len() || self.steps == 0),
    {
        self.pos >= self.tokens.len() || self.steps == 0
    }

    /// The kind of the token `lookahead` places ahead, or `EOF` past the end. Each call
    /// spends fuel and a step; without either the parser is stuck and sees `EOF`.
    pub(crate) fn nth(&mut self, lookahead: usize) -> (r: Syntax)
        requires
            old(self).wf(),
        ensures
            final(self).wf(),
            final(self).evolves(&*old(self)),
            final(self).pos == old(self).pos,
            final(self).events@ == old(self).events@,
            final(self).errors@ == old(self).errors@,
            fits(r),
            old(self).steps == 0 || old(self).fuel == 0 ==> r == Syntax::EOF && final(self).steps
                == 0,
            old(self).steps > 0 && old(self).fuel > 0 ==> r == token_at(
                old(self).tokens@,
                old(self).pos as int,
                lookahead as int,
            ) && final(self).steps == old(self).steps - 1 && final(self).fuel == old(self).fuel
                - 1,
            r != Syntax::EOF ==> final(self).steps < old(self).steps,
            old(self).steps > 0 ==> final(self).steps < old(self).steps,
            old(self).steps == 0 ==> final(self).steps == 0,
            final(self).fuel <= old(self).fuel,
    {
        proof {
            lemma_balanced_empty(self.events@.skip(self.events@.len() as int));
        }
        if self.steps == 0 || self.fuel == 0 {
            self.steps = 0;
            return Syntax::EOF;
        }
        self.fuel = self.fuel - 1;
        self.steps = self.steps - 1;
        let n = self.tokens.len();
        if self.pos < n && lookahead < n - self.pos {
            self.tokens[self.pos + lookahead].token
        } else {
            Syntax::EOF
        }
    }

    /// The bytes that the token `lookahead` places ahead covers; past the end, the empty
    /// range at the last byte.
    pub(crate) fn nth_span(&self, lookahead: usize) -> (r: Range<usize>)
        requires
            self.wf(),
        ensures
            r.start <= r.end <= self.input.spec_bytes().len(),
            r.start == self.span_at(lookahead as int).0,
            r.end == self.span_at(lookahead as int).1,
    {
        let n = self.tokens.len();
        if self.pos < n && lookahead < n - self.pos {
            let t = &self.tokens[self.pos + lookahead];
            Range { start: t.range.start, end: t.range.end }
        } else {
            let len = self.input.as_bytes().len();
            let last = if len > 0 {
                len - 1
            } else {
                0
            };
            Range { start: last, end: last }
        }
    }

    pub(crate) fn at(&mut self, token: Syntax) -> (r: bool)
        requires
            old(self).wf(),
        ensures
            final(self).wf(),
            final(self).evolves(&*old(self)),
            final(self).pos == old(self).pos,
            final(self).events@ == old(self).events@,
            final(self).errors@ == old(self).errors@,
            r && token != Syntax::EOF ==> final(self).steps < old(self).steps,
            old(self).steps == 0 && token != Syntax::EOF ==> !r,
            old(self).steps > 0 ==> final(self).steps < old(self).steps,
            old(self).steps == 0 ==> final(self).steps == 0,
            old(self).steps == 0 ==> r == (token == Syntax::EOF),
            r == old(self).sees(token),
            old(self).has_room(0) ==> final(self).steps == old(self).steps - 1 && final(self).fuel
                == old(self).fuel - 1,
    {
        self.nth(0) == token
    }

    pub(crate) fn peek(&mut self) -> (r: Syntax)
        requires
            old(self).wf(),
        ensures
            final(self).wf(),
            final(self).evolves(&*old(self)),
            final(self).pos == old(self).pos,
            final(self).events@ == old(self).events@,
            final(self).errors@ == old(self).errors@,
            fits(r),
            r != Syntax::EOF ==> final(self).steps < old(self).steps,
            old(self).steps > 0 ==> final(self).steps < old(self).steps,
            old(self).steps == 0 ==> final(self).steps == 0,
            old(self).has_room(0) ==> r == old(self).next_token() && final(self).steps == old(self).steps - 1 && final(self).fuel == old(self).fuel - 1,
            !old(self).has_room(0) ==> r == Syntax::EOF && final(self).steps == 0,
            final(self).fuel <= old(self).fuel,
    {
        self.nth(0)
    }

    pub(crate) fn at_any(&mut self, tokens: TokenSet) -> (r: bool)
        requires
            old(self).wf(),
        ensures
            final(self).wf(),
            final(self).evolves(&*old(self)),
            final(self).pos == old(self).pos,
            final(self).events@ == old(self).events@,
            final(self).errors@ == old(self).errors@,
            old(self).steps > 0 ==> final(self).steps < old(self).steps,
            old(self).steps == 0 ==> final(self).steps == 0,
            old(self).has_room(0) ==> r == tokens.has(old(self).next_token()) && final(self).steps
                == old(self).steps - 1 && final(self).fuel == old(self).fuel - 1,
    {
        let k = self.nth(0);
        tokens.contains(k)
    }

    /// Records that a node of kind `node` starts here.
    pub(crate) fn start_node(&mut self, node: Syntax)
        requires
            old(self).wf(),
        ensures
            final(self).wf(),
            final(self).events@ == old(self).events@.push(Event::Open { node }),
            final(self).tokens@ == old(self).tokens@,
            final(self).raw@ == old(self).raw@,
            final(self).input == old(self).input,
            final(self).steps == old(self).steps,
            final(self).pos == old(self).pos,
            final(self).fuel == old(self).fuel,
            final(self).errors@ == old(self).errors@,
    {
        self.events.push(Event::Open { node });
        proof {
            reveal(consumed);
            assert(self.events@.drop_last() == old(self).events@);
        }
    }

    /// Records that a node of kind `node` starts at the checkpoint: around all that came
    /// after it.
    pub(crate) fn start_node_at(&mut self, checkpoint: usize, node: Syntax)
        requires
            old(self).wf(),
            checkpoint <= old(self).events@.len(),
        ensures
            final(self).wf(),
            final(self).events@ == old(self).events@.take(checkpoint as int).push(
                Event::Open { node },
            ) + old(self).events@.skip(checkpoint as int),
            final(self).tokens@ == old(self).tokens@,
            final(self).raw@ == old(self).raw@,
            final(self).input == old(self).input,
            final(self).steps == old(self).steps,
            final(self).pos == old(self).pos,
            final(self).fuel == old(self).fuel,
            final(self).errors@ == old(self).errors@,
    {
        self.events.insert(checkpoint, Event::Open { node });
        assert(self.events@ =~= old(self).events@.take(checkpoint as int).push(
            Event::Open { node },
        ) + old(self).events@.skip(checkpoint as int));
        proof {
            reveal(consumed);
            lemma_advances_insert_open(old(self).events@, checkpoint as int, node);
        }
    }

    /// Closes the node opened at event `m`, whose contents are balanced.
    pub(crate) fn finish_node(&mut self, Ghost(m): Ghost<int>)
        requires
            old(self).wf(),
            0 <= m < old(self).events@.len(),
            (old(self).events@[m] is Open),
            balanced(old(self).events@.skip(m + 1)),
        ensures
            final(self).wf(),
            final(self).events@ == old(self).events@.push(Event::Close),
            balanced(final(self).events@.skip(m)),
            node_shaped(final(self).events@.skip(m), old(self).events@[m]->node),
            final(self).tokens@ == old(self).tokens@,
            final(self).raw@ == old(self).raw@,
            final(self).input == old(self).input,
            final(self).steps == old(self).steps,
            final(self).pos == old(self).pos,
            final(self).fuel == old(self).fuel,
            final(self).errors@ == old(self).errors@,
    {
        self.events.push(Event::Close);
        proof {
            reveal(consumed);
            assert(self.events@.drop_last() == old(self).events@);
            let ev = self.events@;
            let n = old(self).events@[m]->node;
            lemma_balanced_wrap(n, old(self).events@.skip(m + 1));
            assert(ev.skip(m) =~= seq![Event::Open { node: n }] + old(self).events@.skip(m + 1)
                + seq![Event::Close]);
            assert(ev.skip(m).subrange(1, ev.skip(m).len() - 1) =~= old(self).events@.skip(m + 1));
        }
    }

    /// Records a checkpoint and returns the place where a node may later be opened around
    /// what follows.
    pub(crate) fn checkpoint(&mut self) -> (c: usize)
        requires
            old(self).wf(),
        ensures
            final(self).wf(),
            final(self).events@ == old(self).events@.push(Event::Checkpoint),
            c == final(self).events@.len(),
            balanced(final(self).events@.skip(c as int)),
            final(self).tokens@ == old(self).tokens@,
            final(self).raw@ == old(self).raw@,
            final(self).input == old(self).input,
            final(self).steps == old(self).steps,
            final(self).pos == old(self).pos,
            final(self).fuel == old(self).fuel,
            final(self).errors@ == old(self).errors@,
    {
        self.events.push(Event::Checkpoint);
        proof {
            reveal(consumed);
            assert(self.events@.drop_last() == old(self).events@);
            lemma_balanced_empty(self.events@.skip(self.events@.len() as int));
        }
        self.events.len()
    }

    /// Records an error of kind `kind` at the current token (or at the last byte at the end).
    #[verifier::spinoff_prover]
    pub(crate) fn error(&mut self, kind: SyntaxErrorKind)
        requires
            old(self).wf(),
        ensures
            final(self).wf(),
            final(self).evolves(&*old(self)),
            final(self).pos == old(self).pos,
            final(self).events@ == old(self).events@,
            final(self).errors@.len() == old(self).errors@.len() + 1,
            final(self).errors@[old(self).errors@.len() as int].kind == kind,
            final(self).errors@[old(self).errors@.len() as int].range.start == old(self).span_at(0).0,
            final(self).errors@[old(self).errors@.len() as int].range.end == old(self).span_at(0).1,
            final(self).steps == old(self).steps,
            final(self).fuel == old(self).fuel,
    {
        let range = self.nth_span(0);
        let ghost before = self.errors@;
        self.errors.push(ParseError { range, kind });
        proof {
            self.lemma_evolves_refl(old(self));
            assert forall|k: int| 0 <= k < self.errors@.len() implies #[trigger] self.errors@[k].range.start
                <= self.errors@[k].range.end <= self.input.spec_bytes().len() by {
                if k < before.len() {
                    assert(self.errors@[k] == before[k]);
                }
            }
        }
    }

    /// Consumes the current token as one of kind `token`.
    #[verifier::spinoff_prover]
    pub(crate) fn advance(&mut self, token: Syntax)
        requires
            old(self).wf(),
        ensures
            final(self).wf(),
            final(self).evolves(&*old(self)),
            final(self).pos >= old(self).pos,
            final(self).events@ == old(self).events@.push(Event::Advance { token }),
            final(self).errors@ == old(self).errors@,
            final(self).pos == (if old(self).pos < usize::MAX {
                old(self).pos + 1
            } else {
                old(self).pos as int
            }),
            final(self).steps == old(self).steps,
            final(self).fuel == FUEL,
    {
        self.fuel = FUEL;
        self.events.push(Event::Advance { token });
        let n = self.events.len();
        proof {
            reveal(consumed);
            assert(self.events@.drop_last() == old(self).events@);
            lemma_advances_concat(Seq::<Event>::empty(), old(self).events@);
            assert(Seq::<Event>::empty() + old(self).events@ =~= old(self).events@);
            assert(self.pos < usize::MAX);
        }
        if self.pos < usize::MAX {
            self.pos = self.pos + 1;
        }
        proof {
            lemma_balanced_single(Event::Advance { token });
            assert(self.events@.skip(old(self).events@.len() as int) =~= seq![
                Event::Advance { token },
            ]);
            lemma_scope(old(self).events@, self.events@);
        }
    }

    pub(crate) fn advance_with_error(&mut self, kind: SyntaxErrorKind)
        requires
            old(self).wf(),
        ensures
            final(self).wf(),
            final(self).evolves(&*old(self)),
            final(self).events@ == old(self).events@.push(Event::Advance { token: Syntax::ERROR }),
            final(self).errors@.len() == old(self).errors@.len() + 1,
            final(self).errors@[old(self).errors@.len() as int].kind == kind,
            final(self).pos == (if old(self).pos < usize::MAX {
                old(self).pos + 1
            } else {
                old(self).pos as int
            }),
            final(self).steps == old(self).steps,
    {
        self.advance(Syntax::ERROR);
        self.error(kind);
    }

    pub(crate) fn eat(&mut self, token: Syntax) -> (r: bool)
        requires
            old(self).wf(),
        ensures
            final(self).wf(),
            final(self).evolves(&*old(self)),
            r && token != Syntax::EOF ==> final(self).steps < old(self).steps,
            old(self).steps == 0 && token != Syntax::EOF ==> !r,
            old(self).steps > 0 ==> final(self).steps < old(self).steps,
            r == old(self).sees(token),
            r ==> final(self).events@ == old(self).events@.push(Event::Advance { token }),
            !r ==> final(self).events@ == old(self).events@,
            final(self).errors@ == old(self).errors@,
    {
        if self.at(token) {
            self.advance(token);
            true
        } else {
            false
        }
    }

    pub(crate) fn expect(&mut self, token: Syntax)
        requires
            old(self).wf(),
        ensures
            final(self).wf(),
            final(self).evolves(&*old(self)),
            old(self).steps > 0 ==> final(self).steps < old(self).steps,
            old(self).sees(token) ==> final(self).events@ == old(self).events@.push(
                Event::Advance { token },
            ) && final(self).errors@ == old(self).errors@,
            !old(self).sees(token) ==> final(self).events@ == old(self).events@
                && final(self).errors@.len() == old(self).errors@.len() + 1
                && final(self).errors@[old(self).errors@.len() as int].kind
                == SyntaxErrorKind::ExpectedToken(token),
            final(self).began_with(&*old(self), token),
            final(self).ended_with(&*old(self), token),
    {
        if self.eat(token) {
            return;
        }
        self.error(SyntaxErrorKind::ExpectedToken(token));
    }

    pub(crate) fn ate(&mut self, token: Syntax) -> (r: bool)
        requires
            old(self).wf(),
        ensures
            final(self).wf(),
            final(self).evolves(&*old(self)),
            r && token != Syntax::EOF ==> final(self).steps < old(self).steps,
            old(self).steps == 0 && token != Syntax::EOF ==> !r,
            old(self).steps > 0 ==> final(self).steps < old(self).steps,
            r == old(self).sees(token),
            r ==> final(self).began_with(&*old(self), token),
            r && old(self).has_room(1) ==> final(self).events@ == old(self).events@.push(
                Event::Advance { token },
            ) && final(self).errors@ == old(self).errors@,
            !r ==> final(self).events@ == old(self).events@ && final(self).errors@ == old(self).errors@,
    {
        if self.at(token) {
            self.expect(token);
            true
        } else {
            false
        }
    }

    /// Whether the next two tokens (from `lookahead` on) are `:` `:`.
    pub(crate) fn at_path_sep(&mut self, lookahead: usize) -> (r: bool)
        requires
            old(self).wf(),
            lookahead < usize::MAX,
        ensures
            final(self).wf(),
            final(self).evolves(&*old(self)),
            final(self).pos == old(self).pos,
            final(self).events@ == old(self).events@,
            final(self).errors@ == old(self).errors@,
            r ==> final(self).steps < old(self).steps,
            r ==> token_at(old(self).tokens@, old(self).pos as int, lookahead as int) == Syntax::COLON
                && token_at(old(self).tokens@, old(self).pos as int, lookahead + 1) == Syntax::COLON,
            old(self).has_room(2) ==> (r <==> (token_at(
                old(self).tokens@,
                old(self).pos as int,
                lookahead as int,
            ) == Syntax::COLON && token_at(old(self).tokens@, old(self).pos as int, lookahead + 1)
                == Syntax::COLON)),
    {
        let a = self.nth(lookahead);
        let b = self.nth(1 + lookahead);
        if a != b {
            return false;
        }
        let c = self.nth(lookahead);
        c == Syntax::COLON
    }
}


impl<'a> Parser<'a> {
    /// Opens a node of kind `node`; the ghost result is the place of its `Open` event.
    pub(crate) fn open(&mut self, node: Syntax) -> (m: Ghost<int>)
        requires
            old(self).wf(),
        ensures
            final(self).wf(),
            m@ == old(self).events@.len(),
            final(self).events@ == old(self).events@.push(Event::Open { node }),
            balanced(final(self).events@.skip(m@ + 1)),
            final(self).tokens@ == old(self).tokens@,
            final(self).raw@ == old(self).raw@,
            final(self).input == old(self).input,
            final(self).steps == old(self).steps,
            final(self).pos == old(self).pos,
            final(self).errors@ == old(self).errors@,
            final(self).fuel == old(self).fuel,
    {
        let ghost m = self.events@.len() as int;
        self.start_node(node);
        proof {
            lemma_balanced_empty(self.events@.skip(m + 1));
        }
        Ghost(m)
    }

    /// Closes the node whose `Open` event is at `m`; `entry` is what came before it.
    pub(crate) fn close(&mut self, m: Ghost<int>, entry: Ghost<Seq<Event>>)
        requires
            old(self).wf(),
            m@ == entry@.len(),
            keeps(entry@, old(self).events@),
            m@ < old(self).events@.len(),
            (old(self).events@[m@] is Open),
            balanced(old(self).events@.skip(m@ + 1)),
        ensures
            final(self).wf(),
            final(self).events@ == old(self).events@.push(Event::Close),
            keeps(entry@, final(self).events@),
            balanced(final(self).events@.skip(m@)),
            node_shaped(final(self).events@.skip(m@), old(self).events@[m@]->node),
            forall|g: int|
                0 <= g <= entry@.len() && #[trigger] balanced(entry@.skip(g)) ==> balanced(
                    final(self).events@.skip(g),
                ),
            final(self).tokens@ == old(self).tokens@,
            final(self).raw@ == old(self).raw@,
            final(self).input == old(self).input,
            final(self).steps == old(self).steps,
            final(self).pos == old(self).pos,
            final(self).errors@ == old(self).errors@,
    {
        self.finish_node(m);
        proof {
            lemma_scope(entry@, self.events@);
            let ev = self.events@.skip(m@);
            assert(ev.subrange(1, ev.len() - 1) =~= old(self).events@.skip(m@ + 1));
        }
    }

    /// Opens a node of kind `node` at the checkpoint `ck`, around what followed it.
    pub(crate) fn open_at(&mut self, ck: usize, node: Syntax)
        requires
            old(self).wf(),
            ck <= old(self).events@.len(),
        ensures
            final(self).wf(),
            final(self).events@.len() == old(self).events@.len() + 1,
            forall|k: int| 0 <= k < ck ==> #[trigger] final(self).events@[k] == old(self).events@[k],
            final(self).events@[ck as int] == (Event::Open { node }),
            final(self).events@.skip(ck + 1) == old(self).events@.skip(ck as int),
            final(self).events@ == old(self).events@.take(ck as int).push(Event::Open { node })
                + old(self).events@.skip(ck as int),
            final(self).tokens@ == old(self).tokens@,
            final(self).raw@ == old(self).raw@,
            final(self).input == old(self).input,
            final(self).steps == old(self).steps,
            final(self).pos == old(self).pos,
            final(self).errors@ == old(self).errors@,
    {
        self.start_node_at(ck, node);
        assert(self.events@.skip(ck + 1) =~= old(self).events@.skip(ck as int));
    }
}

impl<'a> Parser<'a> {
    /// Wraps all that followed the checkpoint `ck` in a node of kind `node`.
    pub(crate) fn wrap_at(&mut self, ck: usize, node: Syntax)
        requires
            old(self).wf(),
            1 <= ck <= old(self).events@.len(),
            old(self).events@[ck - 1] == Event::Checkpoint,
            balanced(old(self).events@.skip(ck as int)),
        ensures
            final(self).wf(),
            final(self).events@.len() == old(self).events@.len() + 2,
            forall|k: int| 0 <= k < ck ==> #[trigger] final(self).events@[k] == old(self).events@[k],
            balanced(final(self).events@.skip(ck as int)),
            node_shaped(final(self).events@.skip(ck as int), node),
            final(self).events@ == (old(self).events@.take(ck as int).push(Event::Open { node })
                + old(self).events@.skip(ck as int)).push(Event::Close),
            final(self).tokens@ == old(self).tokens@,
            final(self).raw@ == old(self).raw@,
            final(self).input == old(self).input,
            final(self).steps == old(self).steps,
            final(self).pos == old(self).pos,
            final(self).errors@ == old(self).errors@,
    {
        self.open_at(ck, node);
        self.finish_node(Ghost(ck as int));
    }
}

/// The end of a routine that made a checkpoint right at its start: the events from the
/// checkpoint on are balanced, so the routine evolved the parser.
pub(crate) proof fn lemma_checkpoint_scope(entry: Seq<Event>, now: Seq<Event>)
    requires
        keeps(entry, now),
        entry.len() < now.len(),
        now[entry.len() as int] == Event::Checkpoint,
        balanced(now.skip(entry.len() as int + 1)),
    ensures
        balanced(now.skip(entry.len() as int)),
        forall|g: int|
            0 <= g <= entry.len() && #[trigger] balanced(entry.skip(g)) ==> balanced(now.skip(g)),
{
    lemma_scope_from_checkpoint(entry, now);
}

} // verus!
