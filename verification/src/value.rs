//! Typed parameter values that flow between node ports.

use vstd::prelude::*;

verus! {

/// The kind of value a port carries.
#[derive(Clone, Copy, Debug, PartialEq, Eq, Structural)]
pub enum ValueTag {
    Float,
    Int,
    Bool,
    Text,
    Buffer,
    Notes,
    Empty,
}

/// A value a port can carry. A `Float` holds the bit pattern of a
/// single-precision number, which is stored and forwarded untouched; `Buffer`
/// and `Notes` hold handles to data kept by the caller.
#[derive(Debug)]
pub enum Value {
    Float(u32),
    Int(i64),
    Bool(bool),
    Text(String),
    Buffer(u64),
    Notes(u64),
    Empty,
}

/// What a `Value` stands for in contracts.
pub enum ValueView {
    Float(u32),
    Int(i64),
    Bool(bool),
    Text(Seq<char>),
    Buffer(u64),
    Notes(u64),
    Empty,
}

impl ValueView {
    /// The tag of this value.
    pub open spec fn tag(self) -> ValueTag {
        match self {
            ValueView::Float(_) => ValueTag::Float,
            ValueView::Int(_) => ValueTag::Int,
            ValueView::Bool(_) => ValueTag::Bool,
            ValueView::Text(_) => ValueTag::Text,
            ValueView::Buffer(_) => ValueTag::Buffer,
            ValueView::Notes(_) => ValueTag::Notes,
            ValueView::Empty => ValueTag::Empty,
        }
    }

    /// The value a port of tag `tag` yields when nothing feeds it.
    pub open spec fn default_for(tag: ValueTag) -> ValueView {
        match tag {
            ValueTag::Float => ValueView::Float(0),
            ValueTag::Int => ValueView::Int(0),
            ValueTag::Bool => ValueView::Bool(false),
            ValueTag::Text => ValueView::Text(Seq::empty()),
            ValueTag::Buffer => ValueView::Buffer(0),
            ValueTag::Notes => ValueView::Notes(0),
            ValueTag::Empty => ValueView::Empty,
        }
    }

    /// `self` where it has tag `tag`, the default of `tag` where it has not.
    pub open spec fn coerced(self, tag: ValueTag) -> ValueView {
        if self.tag() == tag {
            self
        } else {
            ValueView::default_for(tag)
        }
    }
}

impl View for Value {
    type V = ValueView;

    open spec fn view(&self) -> ValueView {
        match self {
            Value::Float(bits) => ValueView::Float(*bits),
            Value::Int(i) => ValueView::Int(*i),
            Value::Bool(b) => ValueView::Bool(*b),
            Value::Text(s) => ValueView::Text(s@),
            Value::Buffer(h) => ValueView::Buffer(*h),
            Value::Notes(h) => ValueView::Notes(*h),
            Value::Empty => ValueView::Empty,
        }
    }
}

impl Value {
    /// The tag of this value.
    pub fn tag(&self) -> (t: ValueTag)
        ensures
            t == self@.tag(),
    {
        match self {
            Value::Float(_) => ValueTag::Float,
            Value::Int(_) => ValueTag::Int,
            Value::Bool(_) => ValueTag::Bool,
            Value::Text(_) => ValueTag::Text,
            Value::Buffer(_) => ValueTag::Buffer,
            Value::Notes(_) => ValueTag::Notes,
            Value::Empty => ValueTag::Empty,
        }
    }

    /// The value a port of tag `tag` yields when nothing feeds it.
    pub fn default_for(tag: ValueTag) -> (v: Value)
        ensures
            v@ == ValueView::default_for(tag),
    {
        match tag {
            ValueTag::Float => Value::Float(0),
            ValueTag::Int => Value::Int(0),
            ValueTag::Bool => Value::Bool(false),
            ValueTag::Text => Value::Text(String::new()),
            ValueTag::Buffer => Value::Buffer(0),
            ValueTag::Notes => Value::Notes(0),
            ValueTag::Empty => Value::Empty,
        }
    }

    /// This value where it has tag `tag`, the default of `tag` where it has
    /// not.
    pub fn coerced(self, tag: ValueTag) -> (v: Value)
        ensures
            v@ == self@.coerced(tag),
    {
        if self.tag() == tag {
            self
        } else {
            Value::default_for(tag)
        }
    }
}

impl Clone for Value {
    fn clone(&self) -> (v: Value)
        ensures
            v@ == self@,
    {
        match self {
            Value::Float(bits) => Value::Float(*bits),
            Value::Int(i) => Value::Int(*i),
            Value::Bool(b) => Value::Bool(*b),
            Value::Text(s) => Value::Text(s.clone()),
            Value::Buffer(h) => Value::Buffer(*h),
            Value::Notes(h) => Value::Notes(*h),
            Value::Empty => Value::Empty,
        }
    }
}

} // verus!
