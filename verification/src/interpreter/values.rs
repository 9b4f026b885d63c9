//! The values of the interpreter.

use vstd::prelude::*;

verus! {

/// A value with its type.
#[derive(Debug, Clone, Copy, PartialEq, Eq, Structural)]
pub enum Type {
    I32(i32),
}

/// What a name is bound to: a constant, which `val` declares, or a
/// variable, which `var` declares.
#[derive(Debug, Clone, Copy, PartialEq, Eq, Structural)]
pub enum Value {
    Const(Type),
    Var(Type),
}

impl Value {
    /// The integer that the value holds.
    pub open spec fn number(self) -> i32 {
        match self {
            Value::Const(Type::I32(v)) => v,
            Value::Var(Type::I32(v)) => v,
        }
    }

    /// A constant or a variable that holds `val`.
    pub fn new(is_const: bool, val: Type) -> (v: Self)
        ensures
            v == if is_const {
                Value::Const(val)
            } else {
                Value::Var(val)
            },
    {
        if is_const {
            Value::Const(val)
        } else {
            Value::Var(val)
        }
    }

    /// The integer that the value holds.
    pub fn get(&self) -> (v: i32)
        ensures
            v == self.number(),
    {
        match self {
            Value::Const(Type::I32(v)) => *v,
            Value::Var(Type::I32(v)) => *v,
        }
    }
}

impl From<Option<i32>> for Type {
    fn from(value: Option<i32>) -> (t: Type) {
        if let Some(v) = value {
            Type::I32(v)
        } else {
            Type::I32(0)
        }
    }
}

impl vstd::std_specs::convert::FromSpecImpl<Option<i32>> for Type {
    open spec fn obeys_from_spec() -> bool {
        true
    }

    /// The integer, or 0 where there is none.
    open spec fn from_spec(value: Option<i32>) -> Type {
        match value {
            Some(v) => Type::I32(v),
            None => Type::I32(0),
        }
    }
}

/// How a statement ended, where it did not just end.
#[derive(Debug, Clone, Copy, PartialEq, Eq, Structural)]
pub enum Label {
    /// `return`, with the value if there is one.
    Type(Option<Type>),
    /// `continue`
    Continue,
    /// `break`
    Break,
}

impl From<Option<Type>> for Label {
    fn from(value: Option<Type>) -> (l: Label) {
        Label::Type(value)
    }
}

impl vstd::std_specs::convert::FromSpecImpl<Option<Type>> for Label {
    open spec fn obeys_from_spec() -> bool {
        true
    }

    open spec fn from_spec(value: Option<Type>) -> Label {
        Label::Type(value)
    }
}

} // verus!
