//! The values that a program computes.

use crate::arithmetic::Arithmetic;
use crate::arithmetic::determined;
use crate::arithmetic::equal;
use crate::arithmetic::numbers_equal;
use crate::arithmetic::text_of;
use crate::arithmetic::write_number;
use crate::token::LiteralType;
use crate::token::LiteralView;
use vstd::prelude::*;
use vstd::string::StringExecFns;

verus! {

/// A value at run time. A number is held as the bit pattern of its double.
#[derive(Debug)]
pub enum LoxValue {
    String(String),
    Number(u64),
    Bool(bool),
    Nil,
}

/// A value, with its text as a sequence of characters.
pub ghost enum ValueView {
    String(Seq<char>),
    Number(u64),
    Bool(bool),
    Nil,
}

impl View for LoxValue {
    type V = ValueView;

    open spec fn view(&self) -> ValueView {
        match self {
            LoxValue::String(s) => ValueView::String(s@),
            LoxValue::Number(n) => ValueView::Number(*n),
            LoxValue::Bool(b) => ValueView::Bool(*b),
            LoxValue::Nil => ValueView::Nil,
        }
    }
}

impl Clone for LoxValue {
    fn clone(&self) -> (r: Self)
        ensures
            r@ == self@,
    {
        match self {
            LoxValue::String(s) => LoxValue::String(s.clone()),
            LoxValue::Number(n) => LoxValue::Number(*n),
            LoxValue::Bool(b) => LoxValue::Bool(*b),
            LoxValue::Nil => LoxValue::Nil,
        }
    }
}

/// Equality of values: of the same kind and with equal contents, numbers
/// compared as doubles. Values of different kinds are never equal.
pub open spec fn values_equal(a: ValueView, b: ValueView) -> bool {
    match (a, b) {
        (ValueView::String(x), ValueView::String(y)) => x == y,
        (ValueView::Number(x), ValueView::Number(y)) => equal(x, y),
        (ValueView::Bool(x), ValueView::Bool(y)) => x == y,
        (ValueView::Nil, ValueView::Nil) => true,
        _ => false,
    }
}

impl PartialEq for LoxValue {
    fn eq(&self, other: &Self) -> (r: bool) {
        match (self, other) {
            (LoxValue::String(a), LoxValue::String(b)) => *a == *b,
            (LoxValue::Number(a), LoxValue::Number(b)) => numbers_equal(*a, *b),
            (LoxValue::Bool(a), LoxValue::Bool(b)) => *a == *b,
            (LoxValue::Nil, LoxValue::Nil) => true,
            _ => false,
        }
    }
}

impl vstd::std_specs::cmp::PartialEqSpecImpl for LoxValue {
    open spec fn obeys_eq_spec() -> bool {
        true
    }

    open spec fn eq_spec(&self, other: &Self) -> bool {
        values_equal(self@, other@)
    }
}

/// Everything is truthy but `nil` and `false`.
pub open spec fn truthy(v: ValueView) -> bool {
    match v {
        ValueView::Nil => false,
        ValueView::Bool(b) => b,
        _ => true,
    }
}

/// The value that a literal stands for.
pub open spec fn literal_value(l: LiteralView) -> ValueView {
    match l {
        LiteralView::String(s) => ValueView::String(s),
        LiteralView::Number(n) => ValueView::Number(n),
        LiteralView::Bool(b) => ValueView::Bool(b),
        LiteralView::Nil => ValueView::Nil,
    }
}

/// What `print` writes for a value: `nil`, `true` or `false`, a number's
/// decimal text, a string's own characters.
pub open spec fn shown<A: Arithmetic>(arith: &A, v: ValueView) -> Seq<char> {
    match v {
        ValueView::Nil => "nil"@,
        ValueView::Bool(b) => if b {
            "true"@
        } else {
            "false"@
        },
        ValueView::Number(n) => text_of(arith, n),
        ValueView::String(s) => s,
    }
}

impl LoxValue {
    /// Whether the value counts as true where a condition is coerced.
    pub fn is_truthy(&self) -> (r: bool)
        ensures
            r == truthy(self@),
    {
        match self {
            LoxValue::Nil => false,
            LoxValue::Bool(b) => *b,
            _ => true,
        }
    }

    /// The value of a literal.
    pub fn of_literal(literal: &LiteralType) -> (r: Self)
        ensures
            r@ == literal_value(literal@),
    {
        match literal {
            LiteralType::String(s) => LoxValue::String(s.clone()),
            LiteralType::Number(n) => LoxValue::Number(*n),
            LiteralType::Bool(b) => LoxValue::Bool(*b),
            LiteralType::Nil => LoxValue::Nil,
        }
    }

    /// The text that `print` writes for this value.
    pub fn text<A: Arithmetic>(&self, arith: &A) -> (r: String)
        requires
            determined(arith),
        ensures
            r@ == shown(arith, self@),
    {
        match self {
            LoxValue::Nil => String::from_str("nil"),
            LoxValue::Bool(b) => if *b {
                String::from_str("true")
            } else {
                String::from_str("false")
            },
            LoxValue::Number(n) => write_number(arith, *n),
            LoxValue::String(s) => s.clone(),
        }
    }
}

} // verus!
