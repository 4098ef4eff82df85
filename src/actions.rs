//! The edits that a command asks for, apart from reading and writing files:
//! what each does to a collection, and where its result goes.
use crate::display::type_text;
use crate::error::Error;
use crate::field_value::{with_field, FieldValue};
use crate::raw;
use crate::record::{new_model, Type, TypeModel};
use crate::types::{
    first_named, first_named_ignoring_case, has_name, has_name_ignoring_case, lenient_models, Types,
};
use crate::xml::{indent_unit, type_xml};
use crate::{XML_INDENT_CHAR, XML_INDENT_SIZE};
use vstd::prelude::*;

verus! {

/// Where a result is written: back to the file read where `in_place`,
/// else to `output` if given, else to the standard output (none).
pub open spec fn destination_of(in_place: bool, output: Option<String>, file: Seq<char>) -> Option<
    Seq<char>,
> {
    if in_place {
        Some(file)
    } else {
        match output {
            Some(o) => Some(o@),
            None => None,
        }
    }
}

/// Where a result is written, as `destination_of` says.
pub fn destination(in_place: bool, output: &Option<String>, file: &str) -> (r: Option<String>)
    ensures
        match r {
            Some(d) => destination_of(in_place, *output, file@) == Some(d@),
            None => destination_of(in_place, *output, file@) is None,
        },
{
    if in_place {
        Some(file.to_owned())
    } else {
        match output {
            Some(o) => Some(o.clone()),
            None => None,
        }
    }
}

/// Adds a new record of a name.
#[derive(Clone, Debug, PartialEq, Eq)]
pub struct Add {
    pub name: String,
    pub output: Option<String>,
    pub in_place: bool,
}

impl Add {
    /// Adds a new record of this name, unless one of that name is there.
    pub fn apply(&self, types: &mut Types)
        ensures
            has_name(old(types)@, self.name@) ==> final(types)@ == old(types)@,
            !has_name(old(types)@, self.name@) ==> final(types)@ == old(types)@.push(
                new_model(self.name@),
            ),
    {
        types.add(Type::new(self.name.as_str()));
    }

    /// Where the result goes.
    pub fn destination(&self, file: &str) -> (r: Option<String>)
        ensures
            match r {
                Some(d) => destination_of(self.in_place, self.output, file@) == Some(d@),
                None => destination_of(self.in_place, self.output, file@) is None,
            },
    {
        destination(self.in_place, &self.output, file)
    }
}

/// Removes the record of a name.
#[derive(Clone, Debug, PartialEq, Eq)]
pub struct Remove {
    pub name: String,
    pub output: Option<String>,
    pub in_place: bool,
}

impl Remove {
    /// Removes the first record of this name, if any.
    pub fn apply(&self, types: &mut Types) -> (r: Option<Type>)
        ensures
            match r {
                Some(t) => exists|i: int|
                    first_named(old(types)@, self.name@, i) && t@ == old(types)@[i] && final(types)@
                        == old(types)@.remove(i),
                None => !has_name(old(types)@, self.name@) && final(types)@ == old(types)@,
            },
    {
        types.remove(self.name.as_str())
    }

    /// Where the result goes.
    pub fn destination(&self, file: &str) -> (r: Option<String>)
        ensures
            match r {
                Some(d) => destination_of(self.in_place, self.output, file@) == Some(d@),
                None => destination_of(self.in_place, self.output, file@) is None,
            },
    {
        destination(self.in_place, &self.output, file)
    }
}

/// Sets one field of the record of a name, matched up to ASCII case.
#[derive(Clone, Debug, PartialEq, Eq)]
pub struct SetValue {
    pub name: String,
    pub field_value: FieldValue,
    pub output: Option<String>,
    pub in_place: bool,
}

impl SetValue {
    /// Sets the field on the first record whose name matches; reports
    /// `NotFound` where none does.
    pub fn apply(&self, types: &mut Types) -> (r: Result<(), Error>)
        ensures
            !has_name_ignoring_case(old(types)@, self.name@) ==> r == Err::<(), Error>(Error::NotFound)
                && final(types)@ == old(types)@,
            has_name_ignoring_case(old(types)@, self.name@) ==> r is Ok && exists|i: int|
                first_named_ignoring_case(old(types)@, self.name@, i) && final(types)@
                    == old(types)@.update(i, with_field(self.field_value, old(types)@[i])),
    {
        types.set_value(self.name.as_str(), &self.field_value)
    }

    /// Where the result goes.
    pub fn destination(&self, file: &str) -> (r: Option<String>)
        ensures
            match r {
                Some(d) => destination_of(self.in_place, self.output, file@) == Some(d@),
                None => destination_of(self.in_place, self.output, file@) is None,
            },
    {
        destination(self.in_place, &self.output, file)
    }
}

/// Merges an extension file into the base file.
#[derive(Clone, Debug, PartialEq, Eq)]
pub struct Merge {
    pub extension: String,
    pub output: Option<String>,
}

impl Merge {
    /// Where the result goes: `output` if given, else the standard output.
    pub fn destination(&self) -> (r: Option<String>)
        ensures
            match r {
                Some(d) => self.output is Some && self.output->0@ == d@,
                None => self.output is None,
            },
    {
        match &self.output {
            Some(o) => Some(o.clone()),
            None => None,
        }
    }
}

/// Shows the record of a name, matched up to ASCII case.
#[derive(Clone, Debug, PartialEq, Eq)]
pub struct Show {
    pub name: String,
    pub xml: bool,
}

/// How a record is shown: as indented XML, or written for people.
pub open spec fn shown(t: TypeModel, xml: bool) -> Seq<char> {
    if xml {
        type_xml(Some(indent_unit(XML_INDENT_CHAR, XML_INDENT_SIZE)), 0, t)
    } else {
        type_text(t)
    }
}

impl Show {
    /// The first record whose name matches, shown; none where no name
    /// matches.
    pub fn render(&self, types: &Types) -> (r: Option<String>)
        ensures
            match r {
                Some(s) => exists|i: int|
                    first_named_ignoring_case(types@, self.name@, i) && s@ == shown(types@[i], self.xml),
                None => !has_name_ignoring_case(types@, self.name@),
            },
    {
        match types.position_ignoring_case(self.name.as_str()) {
            Some(i) => {
                let t = &types.types()[i];
                if self.xml {
                    Some(t.to_xml_pretty(XML_INDENT_CHAR, XML_INDENT_SIZE))
                } else {
                    Some(t.to_string())
                }
            },
            None => None,
        }
    }
}

/// Repairs a file by reading it leniently and writing it back.
#[derive(Clone, Copy, Debug, PartialEq, Eq, Structural)]
pub struct Fix;

impl Fix {
    /// The collection that the lenient reading gives.
    pub fn repair(&self, raw: &raw::Types) -> (r: Types)
        ensures
            r@ == lenient_models(*raw),
    {
        Types::read_gracefully(raw)
    }
}

} // verus!
