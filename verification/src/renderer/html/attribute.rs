//! One attribute of a start tag, filled in a character at a time.

use vstd::prelude::*;
use vstd::std_specs::cmp::PartialEqSpecImpl;

verus! {

/// What an [`Attribute`] holds: the characters of its name and of its value.
pub struct AttributeView {
    pub name: Seq<char>,
    pub value: Seq<char>,
}

impl AttributeView {
    /// The attribute with no name and no value.
    pub open spec fn empty() -> AttributeView {
        AttributeView { name: Seq::empty(), value: Seq::empty() }
    }

    /// This attribute with `c` added to the end of its name (`is_name`) or of
    /// its value.
    pub open spec fn add_char(self, c: char, is_name: bool) -> AttributeView {
        if is_name {
            AttributeView { name: self.name.push(c), value: self.value }
        } else {
            AttributeView { name: self.name, value: self.value.push(c) }
        }
    }
}

/// A name and a value, both text. Two attributes are equal when both texts
/// are.
#[derive(Debug, Clone, Eq)]
pub struct Attribute {
    name: String,
    value: String,
}

impl PartialEq for Attribute {
    /// Tells whether the two attributes have the same name and the same
    /// value.
    fn eq(&self, other: &Self) -> (r: bool) {
        self.name == other.name && self.value == other.value
    }
}

impl PartialEqSpecImpl for Attribute {
    open spec fn obeys_eq_spec() -> bool {
        true
    }

    /// Equality is by content.
    open spec fn eq_spec(&self, other: &Self) -> bool {
        self@ == other@
    }
}

impl View for Attribute {
    type V = AttributeView;

    closed spec fn view(&self) -> AttributeView {
        AttributeView { name: self.name@, value: self.value@ }
    }
}

impl Attribute {
    /// An attribute whose name and value are both empty.
    pub fn new() -> (a: Self)
        ensures
            a@ == AttributeView::empty(),
    {
        Self { name: String::new(), value: String::new() }
    }

    /// Appends `c` to the name if `is_name`, else to the value. The other
    /// text is not touched.
    pub fn add_char(&mut self, c: char, is_name: bool)
        ensures
            final(self)@ == old(self)@.add_char(c, is_name),
    {
        if is_name {
            self.name.push(c);
        } else {
            self.value.push(c);
        }
    }

    /// A copy of the name.
    pub fn name(&self) -> (s: String)
        ensures
            s@ == self@.name,
    {
        self.name.clone()
    }

    /// A copy of the value.
    pub fn value(&self) -> (s: String)
        ensures
            s@ == self@.value,
    {
        self.value.clone()
    }
}

} // verus!
