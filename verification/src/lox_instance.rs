use crate::object::{Object, ObjectView};
use crate::table::{listed, Table};
use crate::token::Token;
use vstd::prelude::*;

verus! {

/// An instance of a class: the place of its class among the interpreter's
/// classes, and the values of its fields.
#[derive(Debug)]
pub struct LoxInstance {
    /// The class of the instance.
    pub class: usize,
    /// The fields of the instance.
    pub fields: Table<Object>,
}

/// The mathematical model of a [`LoxInstance`].
pub struct LoxInstanceView {
    pub class: int,
    pub fields: Map<Seq<char>, ObjectView>,
}

impl View for LoxInstance {
    type V = LoxInstanceView;

    open spec fn view(&self) -> LoxInstanceView {
        LoxInstanceView { class: self.class as int, fields: self.fields@ }
    }
}

impl LoxInstance {
    /// An instance of the class at `class`, without fields.
    pub fn new(class: usize) -> (r: LoxInstance)
        ensures
            r.fields.wf(),
            r@ == (LoxInstanceView { class: class as int, fields: Map::empty() }),
            r.fields.names() == Seq::<Seq<char>>::empty(),
    {
        LoxInstance { class, fields: Table::new() }
    }

    /// The value of the field that `name` names, if the instance has it.
    pub fn get(&self, name: &Token) -> (r: Option<Object>)
        requires
            self.fields.wf(),
        ensures
            match r {
                Some(v) => self@.fields.contains_key(name@.lexeme) && v@ == self@.fields[name@.lexeme],
                None => !self@.fields.contains_key(name@.lexeme),
            },
    {
        match self.fields.get(name.lexeme.as_str()) {
            Some(v) => Some(v.clone()),
            None => None,
        }
    }

    /// Gives the field that `name` names the value, whether or not the
    /// instance had it.
    pub fn set(&mut self, name: &Token, value: Object)
        requires
            old(self).fields.wf(),
        ensures
            final(self).fields.wf(),
            final(self)@ == (LoxInstanceView {
                class: old(self)@.class,
                fields: old(self)@.fields.insert(name@.lexeme, value@),
            }),
            final(self).fields.names() == listed(old(self).fields.names(), name@.lexeme),
    {
        self.fields.insert(name.lexeme.clone(), value);
    }
}

} // verus!
