//! Kinds shared by the syntax tree and the later passes.
use vstd::prelude::*;

verus! {

broadcast use vstd::string::group_string_axioms;

/// The kinds of literal.
#[derive(Debug, Clone, Copy, PartialEq, Eq, Hash, Structural)]
pub enum LitKind {
    Float,
    Int,
    String,
    Bool,
    Nil,
}

/// The kinds of item a module holds.
#[derive(Debug, Clone, Copy, PartialEq, Eq, Hash, Structural)]
pub enum ItemKind {
    Function,
    Mod,
    Impl,
    Struct,
    Enum,
    Use,
}

/// The kinds of literal inside a Lua block.
#[derive(Debug, Clone, Copy, PartialEq, Eq, Hash, Structural)]
pub enum LuaLitKind {
    Float,
    Int,
    String,
    Bool,
    Nil,
}

impl LitKind {
    /// The name of the literal's type.
    pub open spec fn spec_str(self) -> Seq<char> {
        match self {
            LitKind::Float => "float"@,
            LitKind::Int => "int"@,
            LitKind::String => "string"@,
            LitKind::Bool => "bool"@,
            LitKind::Nil => "nil"@,
        }
    }

    /// The name of the literal's type.
    pub fn as_str(&self) -> (s: &'static str)
        ensures
            s@ == self.spec_str(),
    {
        match self {
            LitKind::Float => "float",
            LitKind::Int => "int",
            LitKind::String => "string",
            LitKind::Bool => "bool",
            LitKind::Nil => "nil",
        }
    }
}

/// The binary operators.
#[derive(Debug, PartialEq, Eq, Copy, Clone, Hash, Structural)]
pub enum BinaryOpKind {
    Add,
    Sub,
    Mul,
    Div,
    DivInt,
    Rem,
    Or,
    Shl,
    Shr,
    BitXor,
    BitAnd,
    Greater,
    GreaterEqual,
    Less,
    LessEqual,
    NotEqual,
    Equal,
    And,
    BitOr,
    AddAssign,
    SubAssign,
    MulAssign,
    DivAssign,
    DivIntAssign,
    RemAssign,
    BitXorAssign,
    BitAndAssign,
    BitOrAssign,
    ShlAssign,
    ShrAssign,
}

/// The binary operators of Lua.
#[derive(Debug, PartialEq, Eq, Copy, Clone, Hash, Structural)]
pub enum LuaBinaryOpKind {
    Add,
    Sub,
    Mul,
    Div,
    Rem,
    Or,
    Greater,
    GreaterEqual,
    Less,
    LessEqual,
    NotEqual,
    Equal,
    And,
    Concat,
    Exp,
}

impl BinaryOpKind {
    /// Whether the operator is one of `+ - * / // %`.
    pub fn is_arithmetic(&self) -> (r: bool)
        ensures
            r == (*self == BinaryOpKind::Add || *self == BinaryOpKind::Sub || *self
                == BinaryOpKind::DivInt || *self == BinaryOpKind::Div || *self == BinaryOpKind::Mul
                || *self == BinaryOpKind::Rem),
    {
        match self {
            BinaryOpKind::Add | BinaryOpKind::Sub | BinaryOpKind::DivInt | BinaryOpKind::Div
            | BinaryOpKind::Mul | BinaryOpKind::Rem => true,
            _ => false,
        }
    }

    /// How the operator is written.
    pub open spec fn spec_text(self) -> Seq<char> {
        match self {
            BinaryOpKind::Add => "+"@,
            BinaryOpKind::Sub => "-"@,
            BinaryOpKind::Mul => "*"@,
            BinaryOpKind::Div => "/"@,
            BinaryOpKind::DivInt => "//"@,
            BinaryOpKind::Rem => "%"@,
            BinaryOpKind::Or => "or"@,
            BinaryOpKind::Shl => "<<"@,
            BinaryOpKind::Shr => ">>"@,
            BinaryOpKind::BitXor => "^"@,
            BinaryOpKind::BitAnd => "&"@,
            BinaryOpKind::Greater => ">"@,
            BinaryOpKind::GreaterEqual => ">="@,
            BinaryOpKind::Less => "<"@,
            BinaryOpKind::LessEqual => "<="@,
            BinaryOpKind::NotEqual => "!="@,
            BinaryOpKind::Equal => "=="@,
            BinaryOpKind::And => "and"@,
            BinaryOpKind::BitOr => "|"@,
            BinaryOpKind::AddAssign => "+="@,
            BinaryOpKind::SubAssign => "-="@,
            BinaryOpKind::MulAssign => "*="@,
            BinaryOpKind::DivAssign => "/="@,
            BinaryOpKind::DivIntAssign => "//="@,
            BinaryOpKind::RemAssign => "%="@,
            BinaryOpKind::BitXorAssign => "^="@,
            BinaryOpKind::BitAndAssign => "&="@,
            BinaryOpKind::BitOrAssign => "|="@,
            BinaryOpKind::ShlAssign => "<<="@,
            BinaryOpKind::ShrAssign => ">>="@,
        }
    }

    /// How the operator is written: what `Display` shows of it.
    pub fn to_string(&self) -> (s: String)
        ensures
            s@ == self.spec_text(),
    {
        let t: &str = match self {
            BinaryOpKind::Add => "+",
            BinaryOpKind::Sub => "-",
            BinaryOpKind::Mul => "*",
            BinaryOpKind::Div => "/",
            BinaryOpKind::DivInt => "//",
            BinaryOpKind::Rem => "%",
            BinaryOpKind::Or => "or",
            BinaryOpKind::Shl => "<<",
            BinaryOpKind::Shr => ">>",
            BinaryOpKind::BitXor => "^",
            BinaryOpKind::BitAnd => "&",
            BinaryOpKind::Greater => ">",
            BinaryOpKind::GreaterEqual => ">=",
            BinaryOpKind::Less => "<",
            BinaryOpKind::LessEqual => "<=",
            BinaryOpKind::NotEqual => "!=",
            BinaryOpKind::Equal => "==",
            BinaryOpKind::And => "and",
            BinaryOpKind::BitOr => "|",
            BinaryOpKind::AddAssign => "+=",
            BinaryOpKind::SubAssign => "-=",
            BinaryOpKind::MulAssign => "*=",
            BinaryOpKind::DivAssign => "/=",
            BinaryOpKind::DivIntAssign => "//=",
            BinaryOpKind::RemAssign => "%=",
            BinaryOpKind::BitXorAssign => "^=",
            BinaryOpKind::BitAndAssign => "&=",
            BinaryOpKind::BitOrAssign => "|=",
            BinaryOpKind::ShlAssign => "<<=",
            BinaryOpKind::ShrAssign => ">>=",
        };
        t.to_string()
    }
}

/// The operator written as `s`, if one is.
pub open spec fn binary_op_of_text(s: Seq<char>) -> Option<BinaryOpKind> {
    if s.len() == 1 && s[0] == '+' {
        Some(BinaryOpKind::Add)
    } else if s.len() == 1 && s[0] == '-' {
        Some(BinaryOpKind::Sub)
    } else if s.len() == 1 && s[0] == '*' {
        Some(BinaryOpKind::Mul)
    } else if s.len() == 1 && s[0] == '/' {
        Some(BinaryOpKind::Div)
    } else if s.len() == 2 && s[0] == '/' && s[1] == '/' {
        Some(BinaryOpKind::DivInt)
    } else if s.len() == 1 && s[0] == '%' {
        Some(BinaryOpKind::Rem)
    } else if s.len() == 2 && s[0] == 'o' && s[1] == 'r' {
        Some(BinaryOpKind::Or)
    } else if s.len() == 2 && s[0] == '<' && s[1] == '<' {
        Some(BinaryOpKind::Shl)
    } else if s.len() == 2 && s[0] == '>' && s[1] == '>' {
        Some(BinaryOpKind::Shr)
    } else if s.len() == 1 && s[0] == '^' {
        Some(BinaryOpKind::BitXor)
    } else if s.len() == 1 && s[0] == '&' {
        Some(BinaryOpKind::BitAnd)
    } else if s.len() == 1 && s[0] == '>' {
        Some(BinaryOpKind::Greater)
    } else if s.len() == 2 && s[0] == '>' && s[1] == '=' {
        Some(BinaryOpKind::GreaterEqual)
    } else if s.len() == 1 && s[0] == '<' {
        Some(BinaryOpKind::Less)
    } else if s.len() == 2 && s[0] == '<' && s[1] == '=' {
        Some(BinaryOpKind::LessEqual)
    } else if s.len() == 2 && s[0] == '!' && s[1] == '=' {
        Some(BinaryOpKind::NotEqual)
    } else if s.len() == 2 && s[0] == '=' && s[1] == '=' {
        Some(BinaryOpKind::Equal)
    } else if s.len() == 3 && s[0] == 'a' && s[1] == 'n' && s[2] == 'd' {
        Some(BinaryOpKind::And)
    } else if s.len() == 1 && s[0] == '|' {
        Some(BinaryOpKind::BitOr)
    } else if s.len() == 2 && s[0] == '+' && s[1] == '=' {
        Some(BinaryOpKind::AddAssign)
    } else if s.len() == 2 && s[0] == '-' && s[1] == '=' {
        Some(BinaryOpKind::SubAssign)
    } else if s.len() == 2 && s[0] == '*' && s[1] == '=' {
        Some(BinaryOpKind::MulAssign)
    } else if s.len() == 2 && s[0] == '/' && s[1] == '=' {
        Some(BinaryOpKind::DivAssign)
    } else if s.len() == 3 && s[0] == '/' && s[1] == '/' && s[2] == '=' {
        Some(BinaryOpKind::DivIntAssign)
    } else if s.len() == 2 && s[0] == '%' && s[1] == '=' {
        Some(BinaryOpKind::RemAssign)
    } else if s.len() == 2 && s[0] == '^' && s[1] == '=' {
        Some(BinaryOpKind::BitXorAssign)
    } else if s.len() == 2 && s[0] == '&' && s[1] == '=' {
        Some(BinaryOpKind::BitAndAssign)
    } else if s.len() == 2 && s[0] == '|' && s[1] == '=' {
        Some(BinaryOpKind::BitOrAssign)
    } else if s.len() == 3 && s[0] == '<' && s[1] == '<' && s[2] == '=' {
        Some(BinaryOpKind::ShlAssign)
    } else if s.len() == 3 && s[0] == '>' && s[1] == '>' && s[2] == '=' {
        Some(BinaryOpKind::ShrAssign)
    } else {
        None
    }
}

/// Reading back how an operator is written gives the operator.
pub proof fn lemma_binary_op_text_read_back(k: BinaryOpKind)
    ensures
        binary_op_of_text(k.spec_text()) == Some(k),
{
    reveal_strlit("=");
    match k {
        BinaryOpKind::Add => reveal_strlit("+"),
        BinaryOpKind::Sub => reveal_strlit("-"),
        BinaryOpKind::Mul => reveal_strlit("*"),
        BinaryOpKind::Div => reveal_strlit("/"),
        BinaryOpKind::DivInt => reveal_strlit("//"),
        BinaryOpKind::Rem => reveal_strlit("%"),
        BinaryOpKind::Or => reveal_strlit("or"),
        BinaryOpKind::Shl => reveal_strlit("<<"),
        BinaryOpKind::Shr => reveal_strlit(">>"),
        BinaryOpKind::BitXor => reveal_strlit("^"),
        BinaryOpKind::BitAnd => reveal_strlit("&"),
        BinaryOpKind::Greater => reveal_strlit(">"),
        BinaryOpKind::GreaterEqual => reveal_strlit(">="),
        BinaryOpKind::Less => reveal_strlit("<"),
        BinaryOpKind::LessEqual => reveal_strlit("<="),
        BinaryOpKind::NotEqual => reveal_strlit("!="),
        BinaryOpKind::Equal => reveal_strlit("=="),
        BinaryOpKind::And => reveal_strlit("and"),
        BinaryOpKind::BitOr => reveal_strlit("|"),
        BinaryOpKind::AddAssign => reveal_strlit("+="),
        BinaryOpKind::SubAssign => reveal_strlit("-="),
        BinaryOpKind::MulAssign => reveal_strlit("*="),
        BinaryOpKind::DivAssign => reveal_strlit("/="),
        BinaryOpKind::DivIntAssign => reveal_strlit("//="),
        BinaryOpKind::RemAssign => reveal_strlit("%="),
        BinaryOpKind::BitXorAssign => reveal_strlit("^="),
        BinaryOpKind::BitAndAssign => reveal_strlit("&="),
        BinaryOpKind::BitOrAssign => reveal_strlit("|="),
        BinaryOpKind::ShlAssign => reveal_strlit("<<="),
        BinaryOpKind::ShrAssign => reveal_strlit(">>="),
    }
}

/// Two different operators are written differently.
pub proof fn lemma_binary_op_texts_differ(a: BinaryOpKind, b: BinaryOpKind)
    requires
        a != b,
    ensures
        a.spec_text() != b.spec_text(),
{
    lemma_binary_op_text_read_back(a);
    lemma_binary_op_text_read_back(b);
}

/// Each compound assignment is written as its operator followed by `=`.
pub proof fn lemma_compound_assign_text()
    ensures
        BinaryOpKind::AddAssign.spec_text() == BinaryOpKind::Add.spec_text() + "="@,
        BinaryOpKind::SubAssign.spec_text() == BinaryOpKind::Sub.spec_text() + "="@,
        BinaryOpKind::MulAssign.spec_text() == BinaryOpKind::Mul.spec_text() + "="@,
        BinaryOpKind::DivAssign.spec_text() == BinaryOpKind::Div.spec_text() + "="@,
        BinaryOpKind::DivIntAssign.spec_text() == BinaryOpKind::DivInt.spec_text() + "="@,
        BinaryOpKind::RemAssign.spec_text() == BinaryOpKind::Rem.spec_text() + "="@,
        BinaryOpKind::BitXorAssign.spec_text() == BinaryOpKind::BitXor.spec_text() + "="@,
        BinaryOpKind::BitAndAssign.spec_text() == BinaryOpKind::BitAnd.spec_text() + "="@,
        BinaryOpKind::BitOrAssign.spec_text() == BinaryOpKind::BitOr.spec_text() + "="@,
        BinaryOpKind::ShlAssign.spec_text() == BinaryOpKind::Shl.spec_text() + "="@,
        BinaryOpKind::ShrAssign.spec_text() == BinaryOpKind::Shr.spec_text() + "="@,
{
    reveal_strlit("=");
    reveal_strlit("+=");
    reveal_strlit("+");
    assert(BinaryOpKind::AddAssign.spec_text() =~= BinaryOpKind::Add.spec_text() + "="@);
    reveal_strlit("-=");
    reveal_strlit("-");
    assert(BinaryOpKind::SubAssign.spec_text() =~= BinaryOpKind::Sub.spec_text() + "="@);
    reveal_strlit("*=");
    reveal_strlit("*");
    assert(BinaryOpKind::MulAssign.spec_text() =~= BinaryOpKind::Mul.spec_text() + "="@);
    reveal_strlit("/=");
    reveal_strlit("/");
    assert(BinaryOpKind::DivAssign.spec_text() =~= BinaryOpKind::Div.spec_text() + "="@);
    reveal_strlit("//=");
    reveal_strlit("//");
    assert(BinaryOpKind::DivIntAssign.spec_text() =~= BinaryOpKind::DivInt.spec_text() + "="@);
    reveal_strlit("%=");
    reveal_strlit("%");
    assert(BinaryOpKind::RemAssign.spec_text() =~= BinaryOpKind::Rem.spec_text() + "="@);
    reveal_strlit("^=");
    reveal_strlit("^");
    assert(BinaryOpKind::BitXorAssign.spec_text() =~= BinaryOpKind::BitXor.spec_text() + "="@);
    reveal_strlit("&=");
    reveal_strlit("&");
    assert(BinaryOpKind::BitAndAssign.spec_text() =~= BinaryOpKind::BitAnd.spec_text() + "="@);
    reveal_strlit("|=");
    reveal_strlit("|");
    assert(BinaryOpKind::BitOrAssign.spec_text() =~= BinaryOpKind::BitOr.spec_text() + "="@);
    reveal_strlit("<<=");
    reveal_strlit("<<");
    assert(BinaryOpKind::ShlAssign.spec_text() =~= BinaryOpKind::Shl.spec_text() + "="@);
    reveal_strlit(">>=");
    reveal_strlit(">>");
    assert(BinaryOpKind::ShrAssign.spec_text() =~= BinaryOpKind::Shr.spec_text() + "="@);
}

/// The unary operators.
#[derive(Debug, PartialEq, Eq, Copy, Clone, Hash, Structural)]
pub enum UnaryOpKind {
    Not,
    Neg,
}

impl UnaryOpKind {
    /// How the operator is written.
    pub open spec fn spec_text(self) -> Seq<char> {
        match self {
            UnaryOpKind::Not => "!"@,
            UnaryOpKind::Neg => "-"@,
        }
    }

    /// How the operator is written: what `Display` shows of it.
    pub fn to_string(&self) -> (s: String)
        ensures
            s@ == self.spec_text(),
    {
        let t: &str = match self {
            UnaryOpKind::Not => "!",
            UnaryOpKind::Neg => "-",
        };
        t.to_string()
    }
}

} // verus!
