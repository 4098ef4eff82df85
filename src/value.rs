use vstd::prelude::*;

verus! {

/// A value tier referred to by its name.
#[derive(Clone, Debug, PartialEq, Eq)]
pub struct Value {
    name: String,
}

impl View for Value {
    type V = Seq<char>;

    closed spec fn view(&self) -> Seq<char> {
        self.name@
    }
}

impl Value {
    /// The value of that name; any text is a name.
    pub fn from_str(s: &str) -> (r: Value)
        ensures
            r@ == s@,
    {
        Value { name: s.to_owned() }
    }

    /// The name of this value.
    pub fn to_string(&self) -> (r: String)
        ensures
            r@ == self@,
    {
        self.name.clone()
    }
}

} // verus!
