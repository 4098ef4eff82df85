//! The permissive shape of a document: every field optional and kept as
//! text, so that a document whose values are malformed still reads.
use vstd::prelude::*;

verus! {

/// The root element: the records it holds, if any.
#[derive(Clone, Debug, PartialEq, Eq)]
pub struct Types {
    pub types: Option<Vec<Type>>,
}

/// One record, with each value as it stands in the document.
#[derive(Clone, Debug, PartialEq, Eq)]
pub struct Type {
    pub name: String,
    pub nominal: Option<String>,
    pub lifetime: Option<String>,
    pub restock: Option<String>,
    pub min: Option<String>,
    pub quantmin: Option<String>,
    pub quantmax: Option<String>,
    pub cost: Option<String>,
    pub flags: Option<Flags>,
    pub category: Option<Named>,
    pub usages: Option<Vec<Named>>,
    pub values: Option<Vec<Named>>,
}

/// The switches of a record, each as the text of its attribute.
#[derive(Clone, Debug, Default, PartialEq, Eq)]
pub struct Flags {
    pub count_in_cargo: Option<String>,
    pub count_in_hoarder: Option<String>,
    pub count_in_map: Option<String>,
    pub count_in_player: Option<String>,
    pub crafted: Option<String>,
    pub deloot: Option<String>,
}

/// A reference, whose `name` attribute may be missing.
#[derive(Clone, Debug, PartialEq, Eq, PartialOrd, Ord)]
pub struct Named {
    pub name: Option<String>,
}

} // verus!
