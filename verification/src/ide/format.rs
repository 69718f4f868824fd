//! The output side of the formatter: text with spaces, line breaks and indentation.
use vstd::string::StringExecFns;
use vstd::prelude::*;

verus! {

/// `n` levels of indentation: two spaces each.
pub open spec fn indentation(n: nat) -> Seq<char>
    decreases n,
{
    if n == 0 {
        Seq::empty()
    } else {
        indentation((n - 1) as nat) + seq![' ', ' ']
    }
}

/// The formatted text so far and the current indentation level.
pub struct Context {
    pub output: String,
    pub ident_level: u32,
}

impl Context {
    /// An empty output at indentation level 0.
    pub fn new() -> (c: Context)
        ensures
            c.output@ == Seq::<char>::empty(),
            c.ident_level == 0,
    {
        Context { output: String::new(), ident_level: 0 }
    }

    /// One level less of indentation (none below 0).
    pub fn dec_ident(&mut self)
        ensures
            final(self).output@ == old(self).output@,
            final(self).ident_level == if old(self).ident_level == 0 {
                0
            } else {
                old(self).ident_level - 1
            },
    {
        if self.ident_level == 0 {
            return;
        }
        self.ident_level = self.ident_level - 1;
    }

    /// One level more of indentation.
    pub fn acc_ident(&mut self)
        requires
            old(self).ident_level < u32::MAX,
        ensures
            final(self).output@ == old(self).output@,
            final(self).ident_level == old(self).ident_level + 1,
    {
        self.ident_level = self.ident_level + 1;
    }

    /// Appends `text`.
    pub fn text(&mut self, text: &str)
        ensures
            final(self).output@ == old(self).output@ + text@,
            final(self).ident_level == old(self).ident_level,
    {
        self.output.append(text);
    }

    /// Appends one space.
    pub fn space(&mut self)
        ensures
            final(self).output@ == old(self).output@.push(' '),
            final(self).ident_level == old(self).ident_level,
    {
        proof {
            reveal_strlit(" ");
        }
        self.output.append(" ");
        assert(self.output@ =~= old(self).output@.push(' '));
    }

    /// Starts a new line, indented to the current level.
    pub fn new_line(&mut self)
        ensures
            final(self).output@ == old(self).output@.push('\n') + indentation(
                old(self).ident_level as nat,
            ),
            final(self).ident_level == old(self).ident_level,
    {
        proof {
            reveal_strlit("\n");
            reveal_strlit("  ");
        }
        self.output.append("\n");
        let ghost start = self.output@;
        let mut i: u32 = 0;
        assert(start + indentation(0) =~= start);
        while i < self.ident_level
            invariant
                i <= self.ident_level,
                self.ident_level == old(self).ident_level,
                self.output@ == start + indentation(i as nat),
            decreases self.ident_level - i,
        {
            proof {
                reveal_strlit("  ");
            }
            self.output.append("  ");
            assert(start + indentation((i + 1) as nat) =~= start + indentation(i as nat) + seq![
                ' ',
                ' ',
            ]);
            i = i + 1;
        }
        assert(old(self).output@ + "\n"@ =~= old(self).output@.push('\n'));
    }

    /// Appends `text` and a space.
    pub fn text_space(&mut self, text: &str)
        ensures
            final(self).output@ == (old(self).output@ + text@).push(' '),
            final(self).ident_level == old(self).ident_level,
    {
        self.text(text);
        self.space();
    }

    /// Appends `text`, if there is one.
    pub fn text_opt(&mut self, text: Option<&str>)
        ensures
            final(self).output@ == match text {
                Some(t) => old(self).output@ + t@,
                None => old(self).output@,
            },
            final(self).ident_level == old(self).ident_level,
    {
        if let Some(text) = text {
            self.text(text);
        }
    }

    /// Appends `text` and a space, if there is a text.
    pub fn text_space_opt(&mut self, text: Option<&str>)
        ensures
            final(self).output@ == match text {
                Some(t) => (old(self).output@ + t@).push(' '),
                None => old(self).output@,
            },
            final(self).ident_level == old(self).ident_level,
    {
        if let Some(text) = text {
            self.text_space(text);
        }
    }

    /// Appends a token, given by its text.
    pub fn token(&mut self, token: &str)
        ensures
            final(self).output@ == old(self).output@ + token@,
            final(self).ident_level == old(self).ident_level,
    {
        self.text(token);
    }

    /// Appends a token, if there is one.
    pub fn token_opt(&mut self, token: Option<&str>)
        ensures
            final(self).output@ == match token {
                Some(t) => old(self).output@ + t@,
                None => old(self).output@,
            },
            final(self).ident_level == old(self).ident_level,
    {
        if let Some(token) = token {
            self.token(token);
        }
    }

    /// Appends a token and a space.
    pub fn token_space(&mut self, token: &str)
        ensures
            final(self).output@ == (old(self).output@ + token@).push(' '),
            final(self).ident_level == old(self).ident_level,
    {
        self.token(token);
        self.space();
    }

    /// Appends a token and a space, if there is a token.
    pub fn token_space_opt(&mut self, token: Option<&str>)
        ensures
            final(self).output@ == match token {
                Some(t) => (old(self).output@ + t@).push(' '),
                None => old(self).output@,
            },
            final(self).ident_level == old(self).ident_level,
    {
        if let Some(token) = token {
            self.token_space(token);
        }
    }
}

} // verus!
