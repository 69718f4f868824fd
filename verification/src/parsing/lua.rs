//! The Lua code that a `lua { .. }` block holds: its statements and expressions.
use crate::parsing::lexer::Syntax;
use crate::parsing::parser::{Event, Parser, SyntaxErrorKind, lemma_checkpoint_scope, node_shaped, token_at};
use crate::parsing::grammar::{lemma_wrapped_none, lemma_wrapped_step, wrap_kind, wrapped_by};
use vstd::prelude::*;
use vstd::string::StringExecFns;
use vstd::string::StringSliceAdditionalSpecFns;

verus! {

/// The words that end a block of Lua statements.
#[derive(Clone, Copy)]
pub(crate) enum LuaBlockEnd {
    /// `end`
    End,
    /// `until`
    Until,
    /// `else`, `elseif` or `end`
    Branch,
}

/// Whether `text` is one of the words that end a Lua block of kind `end`.
pub(crate) open spec fn block_end_word(text: Seq<u8>, end: LuaBlockEnd) -> bool {
    match end {
        LuaBlockEnd::End => text == "end".spec_bytes(),
        LuaBlockEnd::Until => text == "until".spec_bytes(),
        LuaBlockEnd::Branch => text == "else".spec_bytes() || text == "elseif".spec_bytes() || text
            == "end".spec_bytes(),
    }
}

/// The tokens that can start a Lua expression.
pub open spec fn lua_expr_start(k: Syntax) -> bool {
    k == Syntax::NIL_KW || k == Syntax::HASH || k == Syntax::TRUE_KW || k == Syntax::FALSE_KW || k
        == Syntax::DOT3 || k == Syntax::MINUS || k == Syntax::NOT_KW || k == Syntax::L_BRACE || k
        == Syntax::L_PAREN || k == Syntax::FLOAT || k == Syntax::INT || k == Syntax::STRING || k
        == Syntax::SINGLE_STRING || k == Syntax::BRACKET_STRING || k == Syntax::IDENT
}

/// The tokens that start an operand of a Lua expression.
pub open spec fn lua_operand_start(k: Syntax) -> bool {
    k == Syntax::HASH || k == Syntax::IDENT || k == Syntax::INT || k == Syntax::FLOAT || k
        == Syntax::STRING || k == Syntax::SINGLE_STRING || k == Syntax::BRACKET_STRING || k
        == Syntax::TRUE_KW || k == Syntax::FALSE_KW || k == Syntax::NIL_KW || k == Syntax::DOT3 || k
        == Syntax::L_BRACE
}

/// The tokens after a Lua operand that start a call, an index or a field access.
pub open spec fn lua_postfix_start(k: Syntax) -> bool {
    k == Syntax::L_PAREN || k == Syntax::L_BRACKET || k == Syntax::DOT || k == Syntax::COLON
}

/// How the events of a Lua operand that starts with the token `t` begin: `#` opens a hash
/// name, a word whose text (`text`) is `function` a function, another word or literal a
/// literal that consumes it, and `{` a table.
pub open spec fn lua_operand_begins(ev: Seq<Event>, t: Syntax, text: Seq<u8>) -> bool {
    if t == Syntax::HASH {
        ev.len() > 0 && ev[0] == (Event::Open { node: Syntax::LUA_HASH_NAME })
    } else if lua_operand_start(t) && t != Syntax::L_BRACE {
        if text == "function".spec_bytes() {
            ev.len() > 0 && ev[0] == (Event::Open { node: Syntax::LUA_FUNCTION_EXPR })
        } else {
            ev.len() > 1 && ev[0] == (Event::Open { node: Syntax::LUA_LIT_EXPR }) && ev[1]
                == (Event::Advance { token: t })
        }
    } else if t == Syntax::L_BRACE {
        ev.len() > 0 && ev[0] == (Event::Open { node: Syntax::LUA_TABLE_EXPR })
    } else {
        false
    }
}

/// Whether the events after the checkpoint at `at` are `w` opened Lua call, index and field
/// nodes around an operand that starts with the token `t`.
pub open spec fn lua_operand_wrapped(ev: Seq<Event>, at: int, w: int, t: Syntax, text: Seq<u8>) -> bool {
    &&& 0 <= w
    &&& forall|i: int|
        at + 1 <= i < at + 1 + w ==> (#[trigger] ev[i] is Open) && wrap_kind(ev[i]->node, true)
    &&& lua_operand_begins(ev.skip(at + 1 + w), t, text)
}

/// `"expected "` followed by `what`.
fn expected_message(what: &str) -> (s: String)
    ensures
        s@ == "expected "@ + what@,
{
    let mut s = "expected ".to_string();
    s.append(what);
    s
}

/// How tightly a Lua prefix operator binds its operand.
pub(crate) fn lua_prefix_bp(syntax: Syntax) -> (r: Option<u8>)
    ensures
        r == (match syntax {
            Syntax::NOT_KW => Some(13u8),
            Syntax::MINUS => Some(14u8),
            _ => None,
        }),
{
    match syntax {
        Syntax::NOT_KW => Some(13),
        Syntax::MINUS => Some(14),
        _ => None,
    }
}

/// How tightly a Lua infix operator binds its left and right operands.
pub(crate) fn lua_infix_bp(syntax: Syntax) -> (r: Option<(u8, u8)>)
    ensures
        r == (match syntax {
            Syntax::OR_KW => Some((1u8, 2u8)),
            Syntax::AND_KW => Some((3u8, 4u8)),
            Syntax::LT | Syntax::GT | Syntax::LESS_EQ | Syntax::GREATER_EQ | Syntax::EQ2
            | Syntax::TILDE_EQ => Some((5u8, 6u8)),
            Syntax::DOT2 => Some((8u8, 7u8)),
            Syntax::PLUS | Syntax::MINUS => Some((9u8, 10u8)),
            Syntax::STAR | Syntax::SLASH | Syntax::PERCENT => Some((11u8, 12u8)),
            Syntax::CARET => Some((16u8, 15u8)),
            _ => None,
        }),
{
    match syntax {
        Syntax::OR_KW => Some((1, 2)),
        Syntax::AND_KW => Some((3, 4)),
        Syntax::LT | Syntax::GT | Syntax::LESS_EQ | Syntax::GREATER_EQ | Syntax::EQ2
        | Syntax::TILDE_EQ => Some((5, 6)),
        Syntax::DOT2 => Some((8, 7)),
        Syntax::PLUS | Syntax::MINUS => Some((9, 10)),
        Syntax::STAR | Syntax::SLASH | Syntax::PERCENT => Some((11, 12)),
        Syntax::CARET => Some((16, 15)),
        _ => None,
    }
}

impl<'a> Parser<'a> {
    /// Whether the text of the next token is one of the words that end a Lua block of kind
    /// `end`.
    pub(crate) fn at_block_end(&self, end: LuaBlockEnd) -> (r: bool)
        requires
            self.wf(),
        ensures
            r == block_end_word(self.text_at(0), end),
    {
        let span = self.nth_span(0);
        match end {
            LuaBlockEnd::End => self.span_is(&span, "end"),
            LuaBlockEnd::Until => self.span_is(&span, "until"),
            LuaBlockEnd::Branch => self.span_is(&span, "else") || self.span_is(&span, "elseif")
                || self.span_is(&span, "end"),
        }
    }

    /// Whether the text of the next token is `word`.
    pub(crate) fn at_text(&self, word: &str) -> (r: bool)
        requires
            self.wf(),
        ensures
            r == (self.text_at(0) == word.spec_bytes()),
    {
        let span = self.nth_span(0);
        self.span_is(&span, word)
    }

    /// Expects the identifier `ident`: an error where the next token is not an identifier,
    /// another where its text is not `ident`.
    pub(crate) fn lua_expect_ident(&mut self, ident: &str)
        requires
            old(self).wf(),
        ensures
            final(self).wf(),
            final(self).evolves(&*old(self)),
            old(self).steps > 0 ==> final(self).steps < old(self).steps,
    {
        let next_span = self.nth_span(0);
        self.expect(Syntax::IDENT);
        if !self.span_is(&next_span, ident) {
            self.error(SyntaxErrorKind::Other(expected_message(ident)));
        }
    }

    /// Like `lua_expect_ident`, but nothing is consumed where the next token is not an
    /// identifier.
    pub(crate) fn lua_expect_advance_ident(&mut self, ident: &str)
        requires
            old(self).wf(),
        ensures
            final(self).wf(),
            final(self).evolves(&*old(self)),
            old(self).has_room(0) && old(self).next_token() != Syntax::IDENT ==> final(self).events@ == old(self).events@ && final(self).errors@.len() == old(self).errors@.len() + 1 && final(self).errors@[old(self).errors@.len() as int].kind is Other,
            old(self).has_room(1) && old(self).next_token() == Syntax::IDENT ==> final(self).events@ == old(self).events@.push(Event::Advance { token: Syntax::IDENT }) && final(self).errors@.len() == old(self).errors@.len() + (if old(self).text_at(0) == ident.spec_bytes() { 0int } else { 1int }),
    {
        let next_span = self.nth_span(0);
        if !self.at(Syntax::IDENT) {
            self.error(SyntaxErrorKind::Other(expected_message(ident)));
            return;
        }
        self.expect(Syntax::IDENT);
        if !self.span_is(&next_span, ident) {
            self.error(SyntaxErrorKind::Other(expected_message(ident)));
        }
    }

    /// Consumes `token`, or the next token as an error where it is another.
    pub(crate) fn lua_expect_advance(&mut self, token: Syntax)
        requires
            old(self).wf(),
        ensures
            final(self).wf(),
            final(self).evolves(&*old(self)),
            old(self).steps > 0 ==> final(self).steps < old(self).steps,
    {
        if self.ate(token) {
            return;
        }
        self.advance_with_error(SyntaxErrorKind::ExpectedToken(token));
    }

    /// `lua_chunk := 'lua' '{' lua_stmt* '}'`
    pub(crate) fn lua_chunk(&mut self)
        requires
            old(self).wf(),
        ensures
            final(self).wf(),
            final(self).evolves(&*old(self)),
            node_shaped(final(self).events@.skip(old(self).events@.len() as int), Syntax::LUA_CHUNK_EXPR),
    {
        let ghost e0 = self.events@;
        let m = self.open(Syntax::LUA_CHUNK_EXPR);
        self.expect(Syntax::LUA_KW);
        self.expect(Syntax::L_BRACE);
        let ghost snap = *self;
        loop
            invariant
                self.wf(),
                self.evolves(&snap),
                self.inside(e0, m@),
            decreases self.steps,
        {
            if self.at(Syntax::R_BRACE) || self.eof() {
                break;
            }
            if !self.lua_stmt() {
                break;
            }
        }
        self.expect(Syntax::R_BRACE);
        self.close(m, Ghost(e0));
    }

    /// A Lua statement. False after `# return ..`, which ends a chunk.
    pub(crate) fn lua_stmt(&mut self) -> (more: bool)
        requires
            old(self).wf(),
        ensures
            final(self).wf(),
            final(self).evolves(&*old(self)),
            old(self).has_room(2) ==> (more <==> !(old(self).next_token() == Syntax::HASH && token_at(old(self).tokens@, old(self).pos as int, 1) == Syntax::RETURN_KW)),
            old(self).has_room(3) ==> final(self).events@.len() > old(self).events@.len() as int,
        decreases old(self).steps,
    {
        if !self.tick() {
            return false;
        }
        let ghost e0 = self.events@;
        match self.peek() {
            Syntax::HASH => {
                if self.nth(1) == Syntax::RETURN_KW {
                    self.lua_hash_return_stmt();
                    false
                } else {
                    self.lua_stmt_expr();
                    true
                }
            },
            Syntax::RETURN_KW => {
                self.lua_return_stmt();
                true
            },
            Syntax::BREAK_KW => {
                self.lua_break_stmt();
                true
            },
            Syntax::WHILE_KW => {
                self.lua_while_stmt();
                true
            },
            Syntax::IF_KW => {
                self.lua_if_stmt();
                true
            },
            Syntax::FOR_KW => {
                self.lua_for_stmt();
                true
            },
            Syntax::SEMI => {
                self.expect(Syntax::SEMI);
                true
            },
            Syntax::IDENT => {
                if self.nth(0) == Syntax::EOF {
                    self.advance_with_error(SyntaxErrorKind::ExpectedExpression);
                } else if self.at_text("do") {
                    let m = self.open(Syntax::LUA_BLOCK_STMT);
                    self.lua_expect_ident("do");
                    self.lua_block(LuaBlockEnd::End);
                    self.lua_expect_ident("end");
                    self.close(m, Ghost(e0));
                } else if self.at_text("repeat") {
                    self.lua_repeat_stmt();
                } else if self.at_text("local") {
                    self.lua_local_stmt();
                } else if self.at_text("function") {
                    self.lua_function_stmt();
                } else {
                    self.lua_stmt_expr();
                }
                true
            },
            _ => {
                self.lua_stmt_expr();
                true
            },
        }
    }

    /// `lua_stmt_expr := lua_expr_multi ('=' lua_expr_multi)? ';'`
    pub(crate) fn lua_stmt_expr(&mut self)
        requires
            old(self).wf(),
        ensures
            final(self).wf(),
            final(self).evolves(&*old(self)),
            old(self).steps > 0 ==> node_shaped(final(self).events@.skip(old(self).events@.len() as int), Syntax::LUA_STMT_EXPR),
        decreases old(self).steps,
    {
        if !self.tick() {
            return;
        }
        let ghost e0 = self.events@;
        let m = self.open(Syntax::LUA_STMT_EXPR);
        self.lua_expr_multi();
        if self.ate(Syntax::EQ) {
            self.lua_expr_multi();
        }
        self.expect(Syntax::SEMI);
        self.close(m, Ghost(e0));
    }

    /// `lua_param_list := '(' (lua_param ',')* ')'`
    pub(crate) fn lua_param_list(&mut self)
        requires
            old(self).wf(),
        ensures
            final(self).wf(),
            final(self).evolves(&*old(self)),
            node_shaped(final(self).events@.skip(old(self).events@.len() as int), Syntax::LUA_PARAM_LIST),
    {
        let ghost e0 = self.events@;
        let m = self.open(Syntax::LUA_PARAM_LIST);
        self.expect(Syntax::L_PAREN);
        let ghost snap = *self;
        loop
            invariant
                self.wf(),
                self.evolves(&snap),
                self.inside(e0, m@),
            decreases self.steps,
        {
            if self.at(Syntax::R_PAREN) || self.eof() {
                break;
            }
            if self.at(Syntax::IDENT) {
                self.lua_param();
                if !self.at(Syntax::R_PAREN) {
                    self.expect(Syntax::COMMA);
                }
            } else {
                self.advance_with_error(SyntaxErrorKind::ExpectedParameter);
                break;
            }
        }
        self.expect(Syntax::R_PAREN);
        self.close(m, Ghost(e0));
    }

    /// `lua_param := lua_name`
    pub(crate) fn lua_param(&mut self)
        requires
            old(self).wf(),
        ensures
            final(self).wf(),
            final(self).evolves(&*old(self)),
            node_shaped(final(self).events@.skip(old(self).events@.len() as int), Syntax::LUA_PARAM),
    {
        let ghost e0 = self.events@;
        let m = self.open(Syntax::LUA_PARAM);
        self.lua_name();
        self.close(m, Ghost(e0));
    }

    /// `lua_hash_return_stmt := '#' 'return' lua_expr_multi ';'`
    pub(crate) fn lua_hash_return_stmt(&mut self)
        requires
            old(self).wf(),
        ensures
            final(self).wf(),
            final(self).evolves(&*old(self)),
            old(self).steps > 0 ==> node_shaped(final(self).events@.skip(old(self).events@.len() as int), Syntax::LUA_HASH_RETURN_STMT),
        decreases old(self).steps,
    {
        if !self.tick() {
            return;
        }
        let ghost e0 = self.events@;
        let m = self.open(Syntax::LUA_HASH_RETURN_STMT);
        self.expect(Syntax::HASH);
        self.expect(Syntax::RETURN_KW);
        self.lua_expr_multi();
        self.expect(Syntax::SEMI);
        self.close(m, Ghost(e0));
    }

    /// `lua_return_stmt := 'return' lua_expr_multi ';'`
    pub(crate) fn lua_return_stmt(&mut self)
        requires
            old(self).wf(),
        ensures
            final(self).wf(),
            final(self).evolves(&*old(self)),
            old(self).steps > 0 ==> node_shaped(final(self).events@.skip(old(self).events@.len() as int), Syntax::LUA_RETURN_STMT),
        decreases old(self).steps,
    {
        if !self.tick() {
            return;
        }
        let ghost e0 = self.events@;
        let m = self.open(Syntax::LUA_RETURN_STMT);
        self.expect(Syntax::RETURN_KW);
        self.lua_expr_multi();
        self.expect(Syntax::SEMI);
        self.close(m, Ghost(e0));
    }

    /// `lua_break_stmt := 'break' ';'`
    pub(crate) fn lua_break_stmt(&mut self)
        requires
            old(self).wf(),
        ensures
            final(self).wf(),
            final(self).evolves(&*old(self)),
            node_shaped(final(self).events@.skip(old(self).events@.len() as int), Syntax::LUA_BREAK_STMT),
    {
        let ghost e0 = self.events@;
        let m = self.open(Syntax::LUA_BREAK_STMT);
        self.expect(Syntax::BREAK_KW);
        self.expect(Syntax::SEMI);
        self.close(m, Ghost(e0));
    }

    /// `lua_while_stmt := 'while' lua_expr 'do' lua_block 'end'`
    pub(crate) fn lua_while_stmt(&mut self)
        requires
            old(self).wf(),
        ensures
            final(self).wf(),
            final(self).evolves(&*old(self)),
            old(self).steps > 0 ==> node_shaped(final(self).events@.skip(old(self).events@.len() as int), Syntax::LUA_WHILE_STMT),
        decreases old(self).steps,
    {
        if !self.tick() {
            return;
        }
        let ghost e0 = self.events@;
        let m = self.open(Syntax::LUA_WHILE_STMT);
        self.expect(Syntax::WHILE_KW);
        self.lua_expr();
        self.lua_expect_ident("do");
        self.lua_block(LuaBlockEnd::End);
        self.lua_expect_ident("end");
        self.close(m, Ghost(e0));
    }

    /// `lua_if_stmt := 'if' lua_expr 'then' lua_block ('elseif' .. | 'else' ..)* 'end'`
    pub(crate) fn lua_if_stmt(&mut self)
        requires
            old(self).wf(),
        ensures
            final(self).wf(),
            final(self).evolves(&*old(self)),
            old(self).steps > 0 ==> node_shaped(final(self).events@.skip(old(self).events@.len() as int), Syntax::LUA_IF_STMT),
        decreases old(self).steps,
    {
        if !self.tick() {
            return;
        }
        let ghost e0 = self.events@;
        let m = self.open(Syntax::LUA_IF_STMT);
        self.expect(Syntax::IF_KW);
        self.lua_expr();
        self.lua_expect_ident("then");
        self.lua_block(LuaBlockEnd::Branch);
        if self.at_text("end") {
            self.lua_expect_advance_ident("end");
        } else {
            let ghost snap = *self;
            loop
                invariant
                    self.wf(),
                    self.evolves(&snap),
                    self.inside(e0, m@),
                    snap.steps < old(self).steps,
                decreases self.steps,
            {
                if self.eof() {
                    break;
                }
                if self.at_text("elseif") {
                    let ghost e1 = self.events@;
                    let m1 = self.open(Syntax::LUA_ELSEIF);
                    self.lua_expect_ident("elseif");
                    self.lua_expr();
                    self.lua_expect_ident("then");
                    self.lua_block(LuaBlockEnd::Branch);
                    self.close(m1, Ghost(e1));
                } else if self.at_text("else") {
                    let ghost e1 = self.events@;
                    let m1 = self.open(Syntax::LUA_ELSE);
                    self.lua_expect_advance(Syntax::ELSE_KW);
                    self.lua_block(LuaBlockEnd::Branch);
                    self.close(m1, Ghost(e1));
                } else if self.at_text("end") {
                    self.lua_expect_advance_ident("end");
                    break;
                } else {
                    break;
                }
            }
        }
        self.close(m, Ghost(e0));
    }

    /// A numeric (`for i = a, b, c do .. end`) or generic (`for a, b in e do .. end`) loop.
    pub(crate) fn lua_for_stmt(&mut self)
        requires
            old(self).wf(),
        ensures
            final(self).wf(),
            final(self).evolves(&*old(self)),
            old(self).steps > 0 ==> node_shaped(final(self).events@.skip(old(self).events@.len() as int), Syntax::LUA_FOR_STMT),
        decreases old(self).steps,
    {
        if !self.tick() {
            return;
        }
        let ghost e0 = self.events@;
        let m = self.open(Syntax::LUA_FOR_STMT);
        if self.nth(2) == Syntax::EQ {
            self.lua_numeric_for();
        } else {
            self.lua_generic_for();
        }
        self.close(m, Ghost(e0));
    }

    /// `lua_numeric_for := 'for' lua_name '=' lua_expr (',' lua_expr)? (',' lua_expr)? 'do'
    /// lua_block 'end'`
    #[verifier::rlimit(40)]
    pub(crate) fn lua_numeric_for(&mut self)
        requires
            old(self).wf(),
        ensures
            final(self).wf(),
            final(self).evolves(&*old(self)),
            old(self).steps > 0 ==> node_shaped(final(self).events@.skip(old(self).events@.len() as int), Syntax::LUA_NUMERIC_FOR),
        decreases old(self).steps,
    {
        if !self.tick() {
            return;
        }
        let ghost e0 = self.events@;
        let m = self.open(Syntax::LUA_NUMERIC_FOR);
        self.expect(Syntax::FOR_KW);
        self.lua_name();
        self.expect(Syntax::EQ);
        self.lua_expr();
        if self.ate(Syntax::COMMA) {
            self.lua_expr();
        }
        if self.ate(Syntax::COMMA) {
            self.lua_expr();
        }
        self.lua_expect_ident("do");
        self.lua_block(LuaBlockEnd::End);
        self.lua_expect_ident("end");
        self.close(m, Ghost(e0));
    }

    /// `lua_generic_for := 'for' lua_name (',' lua_name)* 'in' lua_expr 'do' lua_block 'end'`
    pub(crate) fn lua_generic_for(&mut self)
        requires
            old(self).wf(),
        ensures
            final(self).wf(),
            final(self).evolves(&*old(self)),
            old(self).steps > 0 ==> node_shaped(final(self).events@.skip(old(self).events@.len() as int), Syntax::LUA_GENERIC_FOR),
        decreases old(self).steps,
    {
        if !self.tick() {
            return;
        }
        let ghost e0 = self.events@;
        let m = self.open(Syntax::LUA_GENERIC_FOR);
        self.expect(Syntax::FOR_KW);
        self.lua_name();
        let ghost snap = *self;
        loop
            invariant
                self.wf(),
                self.evolves(&snap),
                self.inside(e0, m@),
            decreases self.steps,
        {
            if !self.ate(Syntax::COMMA) || self.eof() {
                break;
            }
            self.lua_name();
        }
        self.expect(Syntax::IN_KW);
        self.lua_expr();
        self.lua_expect_ident("do");
        self.lua_block(LuaBlockEnd::End);
        self.lua_expect_ident("end");
        self.close(m, Ghost(e0));
    }

    /// `lua_repeat_stmt := 'repeat' lua_block 'until' lua_expr`
    pub(crate) fn lua_repeat_stmt(&mut self)
        requires
            old(self).wf(),
        ensures
            final(self).wf(),
            final(self).evolves(&*old(self)),
            old(self).steps > 0 ==> node_shaped(final(self).events@.skip(old(self).events@.len() as int), Syntax::LUA_REPEAT_STMT),
        decreases old(self).steps,
    {
        if !self.tick() {
            return;
        }
        let ghost e0 = self.events@;
        let m = self.open(Syntax::LUA_REPEAT_STMT);
        self.lua_expect_ident("repeat");
        self.lua_block(LuaBlockEnd::Until);
        self.lua_expect_ident("until");
        self.lua_expr();
        self.close(m, Ghost(e0));
    }

    /// `lua_local_stmt := 'local' lua_name (',' lua_name)* '=' lua_expr_multi ';'`
    pub(crate) fn lua_local_stmt(&mut self)
        requires
            old(self).wf(),
        ensures
            final(self).wf(),
            final(self).evolves(&*old(self)),
            old(self).steps > 0 ==> node_shaped(final(self).events@.skip(old(self).events@.len() as int), Syntax::LUA_LOCAL_STMT),
        decreases old(self).steps,
    {
        if !self.tick() {
            return;
        }
        let ghost e0 = self.events@;
        let m = self.open(Syntax::LUA_LOCAL_STMT);
        self.lua_expect_ident("local");
        self.lua_name();
        let ghost snap = *self;
        loop
            invariant
                self.wf(),
                self.evolves(&snap),
                self.inside(e0, m@),
            decreases self.steps,
        {
            if !self.ate(Syntax::COMMA) || self.eof() {
                break;
            }
            self.lua_name();
        }
        self.expect(Syntax::EQ);
        self.lua_expr_multi();
        self.expect(Syntax::SEMI);
        self.close(m, Ghost(e0));
    }

    /// `lua_function_stmt := 'function' lua_name (('.' | ':') lua_name)? lua_param_list
    /// lua_block 'end'`
    pub(crate) fn lua_function_stmt(&mut self)
        requires
            old(self).wf(),
        ensures
            final(self).wf(),
            final(self).evolves(&*old(self)),
            old(self).steps > 0 ==> node_shaped(final(self).events@.skip(old(self).events@.len() as int), Syntax::LUA_FUNCTION_STMT),
        decreases old(self).steps,
    {
        if !self.tick() {
            return;
        }
        let ghost e0 = self.events@;
        let m = self.open(Syntax::LUA_FUNCTION_STMT);
        self.lua_expect_ident("function");
        self.lua_name();
        let token = self.peek();
        if token == Syntax::DOT || token == Syntax::COLON {
            self.expect(token);
            self.lua_name();
        }
        self.lua_param_list();
        self.lua_block(LuaBlockEnd::End);
        self.lua_expect_ident("end");
        self.close(m, Ghost(e0));
    }

    /// `lua_expr_multi := lua_expr (',' lua_expr)*`
    pub(crate) fn lua_expr_multi(&mut self)
        requires
            old(self).wf(),
        ensures
            final(self).wf(),
            final(self).evolves(&*old(self)),
            old(self).steps > 0 ==> node_shaped(final(self).events@.skip(old(self).events@.len() as int), Syntax::LUA_MULTI_EXPR),
        decreases old(self).steps,
    {
        if !self.tick() {
            return;
        }
        let ghost e0 = self.events@;
        let m = self.open(Syntax::LUA_MULTI_EXPR);
        self.lua_expr();
        if self.ate(Syntax::COMMA) {
            self.lua_expr();
            let ghost snap = *self;
            loop
                invariant
                    self.wf(),
                    self.evolves(&snap),
                    self.inside(e0, m@),
                    snap.steps < old(self).steps,
                decreases self.steps,
            {
                if !self.ate(Syntax::COMMA) || self.eof() {
                    break;
                }
                self.lua_expr();
            }
        }
        self.close(m, Ghost(e0));
    }

    /// `lua_index := '[' lua_expr ']'`
    pub(crate) fn lua_index(&mut self)
        requires
            old(self).wf(),
        ensures
            final(self).wf(),
            final(self).evolves(&*old(self)),
            old(self).steps > 0 ==> final(self).began_with(&*old(self), Syntax::L_BRACKET) && final(self).ended_with(&*old(self), Syntax::R_BRACKET),
        decreases old(self).steps,
    {
        if !self.tick() {
            return;
        }
        self.expect(Syntax::L_BRACKET);
        self.lua_expr();
        self.expect(Syntax::R_BRACKET);
    }

    /// `lua_arg_list := '(' (lua_arg ',')* ')'`
    pub(crate) fn lua_arg_list(&mut self)
        requires
            old(self).wf(),
        ensures
            final(self).wf(),
            final(self).evolves(&*old(self)),
            old(self).steps > 0 ==> node_shaped(final(self).events@.skip(old(self).events@.len() as int), Syntax::LUA_ARG_LIST),
        decreases old(self).steps,
    {
        if !self.tick() {
            return;
        }
        let ghost e0 = self.events@;
        let m = self.open(Syntax::LUA_ARG_LIST);
        self.expect(Syntax::L_PAREN);
        let ghost snap = *self;
        loop
            invariant
                self.wf(),
                self.evolves(&snap),
                self.inside(e0, m@),
                snap.steps < old(self).steps,
            decreases self.steps,
        {
            if self.at(Syntax::R_PAREN) || self.eof() {
                break;
            }
            self.lua_arg();
            if !self.at(Syntax::R_PAREN) {
                self.expect(Syntax::COMMA);
            }
        }
        self.expect(Syntax::R_PAREN);
        self.close(m, Ghost(e0));
    }

    /// `lua_arg := lua_expr`
    pub(crate) fn lua_arg(&mut self)
        requires
            old(self).wf(),
        ensures
            final(self).wf(),
            final(self).evolves(&*old(self)),
            old(self).steps > 0 ==> node_shaped(final(self).events@.skip(old(self).events@.len() as int), Syntax::LUA_ARG),
        decreases old(self).steps,
    {
        if !self.tick() {
            return;
        }
        let ghost e0 = self.events@;
        let m = self.open(Syntax::LUA_ARG);
        self.lua_expr();
        self.close(m, Ghost(e0));
    }

    /// A Lua expression.
    pub(crate) fn lua_expr(&mut self)
        requires
            old(self).wf(),
        ensures
            final(self).wf(),
            final(self).evolves(&*old(self)),
            old(self).has_room(3) ==> final(self).events@.len() > old(self).events@.len() as int + 1 && final(self).events@[old(self).events@.len() as int] == Event::Checkpoint,
        decreases old(self).steps,
    {
        if !self.tick() {
            return;
        }
        self.lua_expr_bp(0);
    }

    /// A Lua expression whose operators bind at least as tightly as `min_bp`.
    pub(crate) fn lua_expr_bp(&mut self, min_bp: u8)
        requires
            old(self).wf(),
        ensures
            final(self).wf(),
            final(self).evolves(&*old(self)),
            old(self).has_room(2) ==> final(self).events@.len() > old(self).events@.len() as int + 1 && final(self).events@[old(self).events@.len() as int] == Event::Checkpoint,
        decreases old(self).steps,
    {
        if !self.tick() {
            return;
        }
        let ghost e0 = self.events@;
        let ck = self.checkpoint();
        let first = self.peek();
        let ok = match lua_prefix_bp(first) {
            Some(rbp) => {
                let ghost e1 = self.events@;
                let m = self.open(Syntax::LUA_UNARY_EXPR);
                let op = self.peek();
                self.expect(op);
                self.lua_expr_bp(rbp);
                self.close(m, Ghost(e1));
                true
            },
            None => self.lua_prefix_expr(),
        };
        if ok {
            let ghost snap = *self;
            loop
                invariant
                    self.wf(),
                    self.follows(&snap),
                    self.after_checkpoint(e0, ck as int),
                    old(self).has_room(2) ==> self.events@.len() > e0.len() + 1,
                    snap.steps < old(self).steps,
                decreases self.steps,
            {
                let op = self.peek();
                let (left_bp, right_bp) = match lua_infix_bp(op) {
                    Some(bp) => bp,
                    None => break,
                };
                if left_bp < min_bp {
                    break;
                }
                self.expect(op);
                if self.lua_at_expr() {
                    self.open_at(ck, Syntax::LUA_BINARY_EXPR);
                    self.lua_expr_bp(right_bp);
                    self.finish_node(Ghost(ck as int));
                } else {
                    self.advance_with_error(SyntaxErrorKind::ExpectedExpression);
                }
            }
        }
        proof {
            lemma_checkpoint_scope(e0, self.events@);
        }
    }

    /// Whether a Lua expression may start at the next token.
    pub(crate) fn lua_at_expr(&mut self) -> (r: bool)
        requires
            old(self).wf(),
        ensures
            final(self).wf(),
            final(self).evolves(&*old(self)),
            final(self).events@ == old(self).events@,
            final(self).errors@ == old(self).errors@,
            old(self).has_room(0) ==> (r <==> lua_expr_start(old(self).next_token())),
            !old(self).has_room(0) ==> !r,
    {
        match self.peek() {
            Syntax::NIL_KW | Syntax::HASH | Syntax::TRUE_KW | Syntax::FALSE_KW | Syntax::DOT3
            | Syntax::MINUS | Syntax::NOT_KW | Syntax::L_BRACE | Syntax::L_PAREN | Syntax::FLOAT
            | Syntax::INT | Syntax::STRING | Syntax::SINGLE_STRING | Syntax::BRACKET_STRING
            | Syntax::IDENT => true,
            _ => false,
        }
    }

    /// An operand of a Lua expression with its calls, indexing and field accesses. False
    /// where no expression starts here (an error was recorded).
    pub(crate) fn lua_prefix_expr(&mut self) -> (ok: bool)
        requires
            old(self).wf(),
        ensures
            final(self).wf(),
            final(self).evolves(&*old(self)),
            old(self).steps > 0 ==> final(self).events@.len() > old(self).events@.len() as int && final(self).events@[old(self).events@.len() as int] == Event::Checkpoint,
            old(self).has_room(2) ==> (ok <==> lua_operand_start(old(self).next_token())),
            old(self).has_room(2) && ok ==> final(self).events@.len() > old(self).events@.len() as int + 1,
            old(self).has_room(2) && !ok ==> final(self).events@ == old(self).events@.push(Event::Checkpoint).push(Event::Advance { token: Syntax::ERROR }) && final(self).errors@.len() == old(self).errors@.len() + 1 && final(self).errors@[old(self).errors@.len() as int].kind == SyntaxErrorKind::ExpectedExpression,
            old(self).has_room(3) && ok ==> exists|w: int|
                lua_operand_wrapped(
                    final(self).events@,
                    old(self).events@.len() as int,
                    w,
                    old(self).next_token(),
                    old(self).text_at(0),
                ),
            old(self).has_room(3) && ok ==> !(final(self).has_room(0) && lua_postfix_start(
                final(self).next_token(),
            )),
        decreases old(self).steps,
    {
        if !self.tick() {
            return false;
        }
        let token = self.peek();
        let ghost e0 = self.events@;
        let ck = self.checkpoint();
        let ghost e1 = self.events@;
        let ok = match token {
            Syntax::HASH => {
                self.lua_hash_name();
                true
            },
            Syntax::IDENT | Syntax::INT | Syntax::FLOAT | Syntax::STRING | Syntax::SINGLE_STRING
            | Syntax::BRACKET_STRING | Syntax::TRUE_KW | Syntax::FALSE_KW | Syntax::NIL_KW
            | Syntax::DOT3 => {
                if self.at_text("function") {
                    let m = self.open(Syntax::LUA_FUNCTION_EXPR);
                    self.lua_expect_ident("function");
                    self.lua_param_list();
                    self.lua_block(LuaBlockEnd::End);
                    self.lua_expect_ident("end");
                    self.close(m, Ghost(e1));
                } else {
                    let m = self.open(Syntax::LUA_LIT_EXPR);
                    let ghost s1 = *self;
                    proof {
                        if old(self).has_room(3) {
                            assert(s1.has_room(1) && s1.next_token() == token && s1.sees(token));
                        }
                    }
                    self.ate(token);
                    self.close(m, Ghost(e1));
                    proof {
                        if old(self).has_room(3) {
                            assert(self.events@ == s1.events@.push(Event::Advance { token }).push(
                                Event::Close,
                            ));
                            assert(self.events@.skip(ck as int)[1] == Event::Advance { token });
                        }
                    }
                }
                true
            },
            Syntax::L_BRACE => {
                self.lua_table();
                true
            },
            _ => {
                self.advance_with_error(SyntaxErrorKind::ExpectedExpression);
                false
            },
        };
        let ghost pre = self.events@;
        let ghost function = old(self).text_at(0);
        proof {
            lemma_wrapped_none(pre, ck as int, true);
            if old(self).has_room(3) && ok {
                assert(lua_operand_begins(pre.skip(ck as int), token, function));
            }
        }
        let ghost mut w: int = 0;
        if ok {
            let ghost snap = *self;
            loop
                invariant
                    self.wf(),
                    self.follows(&snap),
                    self.after_checkpoint(e0, ck as int),
                    self.events@.len() >= snap.events@.len(),
                    snap.steps < old(self).steps,
                    snap.events@ == pre,
                    wrapped_by(pre, self.events@, ck as int, w, true),
                ensures
                    self.has_room(0) ==> !lua_postfix_start(self.next_token()),
                decreases self.steps,
            {
                let ghost head = self.events@;
                match self.peek() {
                    Syntax::L_PAREN => {
                        self.open_at(ck, Syntax::LUA_CALL_EXPR);
                        self.lua_arg_list();
                        self.finish_node(Ghost(ck as int));
                        proof {
                            lemma_wrapped_step(pre, head, self.events@, ck as int, w, Syntax::LUA_CALL_EXPR, true);
                            w = w + 1;
                        }
                    },
                    Syntax::L_BRACKET => {
                        self.open_at(ck, Syntax::LUA_INDEX_EXPR);
                        self.lua_index();
                        self.finish_node(Ghost(ck as int));
                        proof {
                            lemma_wrapped_step(pre, head, self.events@, ck as int, w, Syntax::LUA_INDEX_EXPR, true);
                            w = w + 1;
                        }
                    },
                    Syntax::DOT | Syntax::COLON => {
                        self.open_at(ck, Syntax::LUA_FIELD_ACCESS_EXPR);
                        let op = self.peek();
                        self.expect(op);
                        self.lua_name();
                        self.finish_node(Ghost(ck as int));
                        proof {
                            lemma_wrapped_step(pre, head, self.events@, ck as int, w, Syntax::LUA_FIELD_ACCESS_EXPR, true);
                            w = w + 1;
                        }
                    },
                    _ => break,
                }
            }
        }
        proof {
            lemma_checkpoint_scope(e0, self.events@);
            if old(self).has_room(3) && ok {
                let fin = self.events@;
                assert(fin.skip(ck + w)[0] == pre.skip(ck as int)[0]);
                if pre.skip(ck as int).len() > 1 {
                    assert(fin.skip(ck + w)[1] == pre.skip(ck as int)[1]);
                }
                assert(lua_operand_begins(fin.skip(ck + w), token, function));
                assert(lua_operand_wrapped(fin, ck - 1, w, token, function));
            }
        }
        ok
    }

    /// A Lua table constructor: `{` elements separated by `,` `}`.
    #[verifier::spinoff_prover]
    #[verifier::rlimit(30)]
    pub(crate) fn lua_table(&mut self)
        requires
            old(self).wf(),
        ensures
            final(self).wf(),
            final(self).evolves(&*old(self)),
            old(self).steps > 0 ==> node_shaped(final(self).events@.skip(old(self).events@.len() as int), Syntax::LUA_TABLE_EXPR),
        decreases old(self).steps,
    {
        if !self.tick() {
            return;
        }
        let ghost e0 = self.events@;
        let m = self.open(Syntax::LUA_TABLE_EXPR);
        self.expect(Syntax::L_BRACE);
        let ghost snap = *self;
        loop
            invariant
                self.wf(),
                self.evolves(&snap),
                self.inside(e0, m@),
                snap.steps < old(self).steps,
            decreases self.steps,
        {
            if self.at(Syntax::R_BRACE) || self.eof() {
                break;
            }
            let ghost e1 = self.events@;
            if self.nth(1) == Syntax::EQ {
                let m1 = self.open(Syntax::LUA_ELEM_ASSIGN);
                self.lua_name();
                self.expect(Syntax::EQ);
                self.lua_expr_bp(2);
                self.close(m1, Ghost(e1));
            } else if self.at(Syntax::L_BRACKET) {
                let m1 = self.open(Syntax::LUA_ELEM_INDEX_ASSIGN);
                self.expect(Syntax::L_BRACKET);
                self.lua_expr();
                self.expect(Syntax::R_BRACKET);
                self.expect(Syntax::EQ);
                self.lua_expr_bp(2);
                self.close(m1, Ghost(e1));
            } else {
                let m1 = self.open(Syntax::LUA_ELEM_EXPR);
                self.lua_expr_bp(2);
                self.close(m1, Ghost(e1));
            }
            if !self.at(Syntax::R_BRACE) {
                self.expect(Syntax::COMMA);
            }
        }
        self.expect(Syntax::R_BRACE);
        self.close(m, Ghost(e0));
    }

    /// Lua statements up to one of the words that end a block of kind `end`.
    pub(crate) fn lua_block(&mut self, end: LuaBlockEnd)
        requires
            old(self).wf(),
        ensures
            final(self).wf(),
            final(self).evolves(&*old(self)),
            old(self).steps > 1 && old(self).fuel > 0 && (old(self).next_token() == Syntax::EOF
                || block_end_word(old(self).text_at(0), end)) ==> final(self).events@ == old(
                self).events@ && final(self).errors@ == old(self).errors@,
            old(self).has_room(5) && old(self).next_token() != Syntax::EOF && !block_end_word(
                old(self).text_at(0),
                end,
            ) ==> final(self).events@.len() > old(self).events@.len(),
        decreases old(self).steps,
    {
        if !self.tick() {
            return;
        }
        let ghost snap = *self;
        loop
            invariant_except_break
                snap.steps > 0 && snap.fuel > 0 && (snap.next_token() == Syntax::EOF
                    || block_end_word(snap.text_at(0), end)) ==> self.events@ == snap.events@
                    && self.errors@ == snap.errors@ && self.steps == snap.steps && self.fuel
                    == snap.fuel && self.pos == snap.pos,
                snap.has_room(4) && snap.next_token() != Syntax::EOF && !block_end_word(
                    snap.text_at(0),
                    end,
                ) ==> self.events@.len() > snap.events@.len() || (self.events@ == snap.events@
                    && self.steps == snap.steps && self.fuel == snap.fuel && self.pos == snap.pos),
            invariant
                self.wf(),
                self.evolves(&snap),
                snap.steps < old(self).steps,
            ensures
                snap.steps > 0 && snap.fuel > 0 && (snap.next_token() == Syntax::EOF
                    || block_end_word(snap.text_at(0), end)) ==> self.events@ == snap.events@
                    && self.errors@ == snap.errors@,
                snap.has_room(4) && snap.next_token() != Syntax::EOF && !block_end_word(
                    snap.text_at(0),
                    end,
                ) ==> self.events@.len() > snap.events@.len(),
            decreases self.steps,
        {
            if self.nth(0) == Syntax::EOF {
                break;
            }
            if self.at_block_end(end) || self.eof() {
                break;
            }
            if !self.lua_stmt() {
                break;
            }
        }
    }

    /// `lua_hash_name := '#' lua_name`
    pub(crate) fn lua_hash_name(&mut self)
        requires
            old(self).wf(),
        ensures
            final(self).wf(),
            final(self).evolves(&*old(self)),
            node_shaped(final(self).events@.skip(old(self).events@.len() as int), Syntax::LUA_HASH_NAME),
    {
        let ghost e0 = self.events@;
        let m = self.open(Syntax::LUA_HASH_NAME);
        self.expect(Syntax::HASH);
        self.lua_name();
        self.close(m, Ghost(e0));
    }

    /// `lua_name := IDENT`
    pub(crate) fn lua_name(&mut self)
        requires
            old(self).wf(),
        ensures
            final(self).wf(),
            final(self).evolves(&*old(self)),
            node_shaped(final(self).events@.skip(old(self).events@.len() as int), Syntax::LUA_NAME),
    {
        let ghost e0 = self.events@;
        let m = self.open(Syntax::LUA_NAME);
        self.expect(Syntax::IDENT);
        self.close(m, Ghost(e0));
    }
}

} // verus!
