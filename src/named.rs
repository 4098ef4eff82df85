use vstd::prelude::*;

verus! {

/// A reference to something else by its name: a category, a usage area or
/// a value tier.
#[derive(Clone, Debug, PartialEq, Eq, PartialOrd, Ord)]
pub struct Named {
    name: String,
}

impl View for Named {
    type V = Seq<char>;

    closed spec fn view(&self) -> Seq<char> {
        self.name@
    }
}

/// The names that a list of references holds, in order.
pub open spec fn names_of(s: Seq<Named>) -> Seq<Seq<char>> {
    s.map_values(|n: Named| n@)
}

impl Named {
    pub fn new(name: String) -> (r: Self)
        ensures
            r@ == name@,
    {
        Self { name }
    }

    pub fn name(&self) -> (r: &str)
        ensures
            r@ == self@,
    {
        self.name.as_str()
    }

    /// A copy of this reference.
    pub fn duplicate(&self) -> (r: Self)
        ensures
            r@ == self@,
    {
        Self { name: self.name.clone() }
    }
}

/// Copies a list of references.
pub fn copy_names(items: &[Named]) -> (r: Vec<Named>)
    ensures
        names_of(r@) == names_of(items@),
{
    let mut out: Vec<Named> = Vec::new();
    let mut i: usize = 0;
    while i < items.len()
        invariant
            i <= items@.len(),
            out@.len() == i,
            forall|k: int| 0 <= k < i ==> (#[trigger] out@[k])@ == items@[k]@,
        decreases items@.len() - i,
    {
        out.push(items[i].duplicate());
        i = i + 1;
    }
    proof {
        assert(names_of(out@) =~= names_of(items@));
    }
    out
}

} // verus!
