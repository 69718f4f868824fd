//! The types that inference assigns, and how nested nil-ability collapses.
use crate::common::LitKind;
use vstd::prelude::*;

verus! {

/// A parameter of a bare function type: its name, if it has one, and its type.
#[derive(Debug, PartialEq, Eq, Hash)]
pub struct Param {
    pub name: Option<String>,
    pub ty: Type,
}

/// A bare function type: its parameters and what it returns.
#[derive(Debug, PartialEq, Eq, Hash)]
pub struct BareFn {
    pub params: Vec<Param>,
    pub return_type: Box<Type>,
}

/// A type. Functions and structs are named by the number of their declaration.
#[derive(Debug, PartialEq, Eq, Hash)]
pub enum Type {
    Unknown,
    Never,
    Unit,
    Any,
    Nilable(Box<Type>),
    Lit(LitKind),
    BareFn(BareFn),
    Function(u32),
    Struct(u32),
}

/// The type with its nil-ability collapsed: the inside of a nilable type is collapsed
/// first, and a nilable of a nilable becomes one nilable. Where the collapsed inside is
/// `nil` or the unit type, the inside is taken out and the unknown type is left in its
/// place: the nilable then holds the unknown type. (A nilable that still held `nil` would
/// become `nil`; none is left by the step before.)
pub open spec fn collapsed(t: Type) -> Type
    decreases t,
{
    match t {
        Type::Nilable(inner) => {
            let i = collapsed(*inner);
            let s = match i {
                Type::Nilable(deep) => Type::Nilable(deep),
                Type::Lit(LitKind::Nil) | Type::Unit => Type::Nilable(Box::new(Type::Unknown)),
                _ => Type::Nilable(Box::new(i)),
            };
            match s {
                Type::Nilable(x) => if *x == Type::Lit(LitKind::Nil) {
                    Type::Lit(LitKind::Nil)
                } else {
                    s
                },
                _ => s,
            }
        },
        _ => t,
    }
}

/// Whether a type is collapsed: no nilable directly holds a nilable, `nil` or the unit
/// type.
pub open spec fn is_collapsed(t: Type) -> bool
    decreases t,
{
    match t {
        Type::Nilable(inner) => !(*inner is Nilable) && *inner != Type::Lit(LitKind::Nil)
            && *inner != Type::Unit && is_collapsed(*inner),
        _ => true,
    }
}

/// What collapsing yields is collapsed.
pub proof fn lemma_collapsed_is_collapsed(t: Type)
    ensures
        is_collapsed(collapsed(t)),
    decreases t,
{
    if let Type::Nilable(inner) = t {
        lemma_collapsed_is_collapsed(*inner);
        assert(is_collapsed(Type::Unknown));
        assert(is_collapsed(Type::Nilable(Box::new(Type::Unknown))));
    }
}

/// A collapsed type collapses to itself.
pub proof fn lemma_collapsed_fixed(t: Type)
    requires
        is_collapsed(t),
    ensures
        collapsed(t) == t,
    decreases t,
{
    if let Type::Nilable(inner) = t {
        lemma_collapsed_fixed(*inner);
    }
}

/// Collapsing twice is collapsing once.
pub proof fn lemma_collapse_idempotent(t: Type)
    ensures
        collapsed(collapsed(t)) == collapsed(t),
{
    lemma_collapsed_is_collapsed(t);
    lemma_collapsed_fixed(collapsed(t));
}

impl Type {
    /// Collapses the inside of a nilable type, then a nilable of a nilable into one; an
    /// inside that is `nil` or the unit type is taken out, leaving the unknown type.
    fn collapsed_inner(self) -> (r: Type)
        ensures
            r == (match self {
                Type::Nilable(inner) => match collapsed(*inner) {
                    Type::Nilable(deep) => Type::Nilable(deep),
                    Type::Lit(LitKind::Nil) | Type::Unit => Type::Nilable(Box::new(Type::Unknown)),
                    i => Type::Nilable(Box::new(i)),
                },
                _ => self,
            }),
        decreases self, 1nat,
    {
        match self {
            Type::Nilable(inner) => {
                let i = (*inner).collapsed_nil();
                match i {
                    Type::Nilable(deep) => Type::Nilable(deep),
                    Type::Lit(LitKind::Nil) | Type::Unit => Type::Nilable(Box::new(Type::Unknown)),
                    i => Type::Nilable(Box::new(i)),
                }
            },
            other => other,
        }
    }

    /// Collapses the inside of a nilable type in place, then a nilable of a nilable into
    /// one; an inside that is `nil` or the unit type is taken out, leaving the unknown type.
    fn collapse_nil_inner(&mut self)
        ensures
            *final(self) == (match *old(self) {
                Type::Nilable(inner) => match collapsed(*inner) {
                    Type::Nilable(deep) => Type::Nilable(deep),
                    Type::Lit(LitKind::Nil) | Type::Unit => Type::Nilable(Box::new(Type::Unknown)),
                    i => Type::Nilable(Box::new(i)),
                },
                _ => *old(self),
            }),
    {
        let mut t = Type::Unknown;
        std::mem::swap(&mut t, self);
        *self = t.collapsed_inner();
    }

    /// The type with its nil-ability collapsed.
    pub fn collapsed_nil(self) -> (r: Type)
        ensures
            r == collapsed(self),
        decreases self, 2nat,
    {
        let s = self.collapsed_inner();
        let is_nil = match &s {
            Type::Nilable(inner) => matches!(**inner, Type::Lit(LitKind::Nil)),
            _ => false,
        };
        if is_nil {
            Type::Lit(LitKind::Nil)
        } else {
            s
        }
    }

    /// Collapses the type's nil-ability in place.
    pub fn collapse_nil(&mut self)
        ensures
            *final(self) == collapsed(*old(self)),
    {
        self.collapse_nil_inner();
        let is_nil = match &*self {
            Type::Nilable(inner) => matches!(**inner, Type::Lit(LitKind::Nil)),
            _ => false,
        };
        if is_nil {
            *self = Type::Lit(LitKind::Nil);
        }
    }

    pub fn int_type() -> (r: Type)
        ensures
            r == Type::Lit(LitKind::Int),
    {
        Type::Lit(LitKind::Int)
    }

    pub fn float() -> (r: Type)
        ensures
            r == Type::Lit(LitKind::Float),
    {
        Type::Lit(LitKind::Float)
    }

    pub fn bool() -> (r: Type)
        ensures
            r == Type::Lit(LitKind::Bool),
    {
        Type::Lit(LitKind::Bool)
    }

    pub fn any() -> (r: Type)
        ensures
            r == Type::Any,
    {
        Type::Any
    }

    pub fn unit() -> (r: Type)
        ensures
            r == Type::Unit,
    {
        Type::Unit
    }

    pub fn unknown() -> (r: Type)
        ensures
            r == Type::Unknown,
    {
        Type::Unknown
    }

    pub fn never() -> (r: Type)
        ensures
            r == Type::Never,
    {
        Type::Never
    }

    /// Whether the type is `int` or `float`.
    pub fn is_number(&self) -> (b: bool)
        ensures
            b == (*self == Type::Lit(LitKind::Int) || *self == Type::Lit(LitKind::Float)),
    {
        self.is_int() || self.is_float()
    }

    pub fn is_float(&self) -> (b: bool)
        ensures
            b == (*self == Type::Lit(LitKind::Float)),
    {
        matches!(self, Type::Lit(LitKind::Float))
    }

    pub fn is_int(&self) -> (b: bool)
        ensures
            b == (*self == Type::Lit(LitKind::Int)),
    {
        matches!(self, Type::Lit(LitKind::Int))
    }

    /// Whether `nil` is a value of the type: a nilable type, `nil` or the unit type.
    pub fn is_nilable(&self) -> (b: bool)
        ensures
            b == (*self is Nilable || *self == Type::Lit(LitKind::Nil) || *self == Type::Unit),
    {
        matches!(self, Type::Nilable(_) | Type::Lit(LitKind::Nil) | Type::Unit)
    }
}

} // verus!
