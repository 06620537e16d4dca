use crate::lox_native::NativeFunction;
use crate::number::{double_order, order_doubles, NumberOrder};
use vstd::prelude::*;
use vstd::std_specs::cmp::PartialEqSpecImpl;

verus! {

/// A runtime value, and the value of a literal.
///
/// Numbers are held by their IEEE 754 bit patterns. Functions, classes and
/// instances are held by their places in the interpreter's tables.
#[derive(Debug)]
pub enum Object {
    Num(u64),
    Str(String),
    Nil,
    True,
    False,
    Function(usize),
    Native(NativeFunction),
    Class(usize),
    Instance(usize),
}

/// The mathematical model of an [`Object`].
pub enum ObjectView {
    Num(u64),
    Str(Seq<char>),
    Nil,
    True,
    False,
    Function(int),
    Native(NativeFunction),
    Class(int),
    Instance(int),
}

impl View for Object {
    type V = ObjectView;

    open spec fn view(&self) -> ObjectView {
        match self {
            Object::Num(n) => ObjectView::Num(*n),
            Object::Str(s) => ObjectView::Str(s@),
            Object::Nil => ObjectView::Nil,
            Object::True => ObjectView::True,
            Object::False => ObjectView::False,
            Object::Function(f) => ObjectView::Function(*f as int),
            Object::Native(n) => ObjectView::Native(*n),
            Object::Class(c) => ObjectView::Class(*c as int),
            Object::Instance(i) => ObjectView::Instance(*i as int),
        }
    }
}

/// Everything is truthy but `nil` and `false`.
pub open spec fn truthy(value: ObjectView) -> bool {
    !(value is Nil || value is False)
}

/// Equality of values: numbers by IEEE 754 equality, strings by their text,
/// `nil`, `true` and `false` each with itself; nothing else is equal to
/// anything.
pub open spec fn values_equal(a: ObjectView, b: ObjectView) -> bool {
    match (a, b) {
        (ObjectView::Num(x), ObjectView::Num(y)) => double_order(x, y) == NumberOrder::Equal,
        (ObjectView::Str(x), ObjectView::Str(y)) => x == y,
        (ObjectView::True, ObjectView::True) => true,
        (ObjectView::False, ObjectView::False) => true,
        (ObjectView::Nil, ObjectView::Nil) => true,
        _ => false,
    }
}

/// The value that stands for a boolean.
pub open spec fn boolean(b: bool) -> ObjectView {
    if b {
        ObjectView::True
    } else {
        ObjectView::False
    }
}

impl Clone for Object {
    fn clone(&self) -> (r: Self)
        ensures
            r@ == self@,
    {
        match self {
            Object::Num(n) => Object::Num(*n),
            Object::Str(s) => Object::Str(s.clone()),
            Object::Nil => Object::Nil,
            Object::True => Object::True,
            Object::False => Object::False,
            Object::Function(f) => Object::Function(*f),
            Object::Native(n) => Object::Native(*n),
            Object::Class(c) => Object::Class(*c),
            Object::Instance(i) => Object::Instance(*i),
        }
    }
}

impl PartialEq for Object {
    fn eq(&self, other: &Self) -> (r: bool) {
        match self {
            Object::Num(a) => match other {
                Object::Num(b) => match order_doubles(*a, *b) {
                    NumberOrder::Equal => true,
                    _ => false,
                },
                _ => false,
            },
            Object::Str(a) => match other {
                Object::Str(b) => *a == *b,
                _ => false,
            },
            Object::True => match other {
                Object::True => true,
                _ => false,
            },
            Object::False => match other {
                Object::False => true,
                _ => false,
            },
            Object::Nil => match other {
                Object::Nil => true,
                _ => false,
            },
            _ => false,
        }
    }
}

impl PartialEqSpecImpl for Object {
    open spec fn obeys_eq_spec() -> bool {
        true
    }

    open spec fn eq_spec(&self, other: &Self) -> bool {
        values_equal(self@, other@)
    }
}

impl Object {
    /// The value that stands for a boolean.
    pub fn from_bool(boolean: bool) -> (r: Object)
        ensures
            r@ == self::boolean(boolean),
    {
        if boolean {
            Object::True
        } else {
            Object::False
        }
    }

    /// Whether the value counts as true in a condition.
    pub fn is_truthy(&self) -> (r: bool)
        ensures
            r == truthy(self@),
    {
        match self {
            Object::Nil => false,
            Object::False => false,
            _ => true,
        }
    }
}

} // verus!
