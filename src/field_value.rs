//! One edit of one field of a record, as a value: the closed set of fields
//! that can be set, each with its new value.
use crate::flags::Flags;
use crate::named::Named;
use crate::record::{opt_name, opt_names, Type, TypeModel};
use vstd::prelude::*;

verus! {

/// A new value for one of the switches.
#[derive(Clone, Copy, Debug, PartialEq, Eq, Structural)]
pub enum FlagValues {
    CountInCargo { count_in_cargo: bool },
    CountInHoarder { count_in_hoarder: bool },
    CountInMap { count_in_map: bool },
    CountInPlayer { count_in_player: bool },
    Crafted { crafted: bool },
    DeLoot { deloot: bool },
}

/// The switches with the one that `v` names set as it says.
pub open spec fn flags_with(v: FlagValues, f: Flags) -> Flags {
    match v {
        FlagValues::CountInCargo { count_in_cargo } => Flags { count_in_cargo, ..f },
        FlagValues::CountInHoarder { count_in_hoarder } => Flags { count_in_hoarder, ..f },
        FlagValues::CountInMap { count_in_map } => Flags { count_in_map, ..f },
        FlagValues::CountInPlayer { count_in_player } => Flags { count_in_player, ..f },
        FlagValues::Crafted { crafted } => Flags { crafted, ..f },
        FlagValues::DeLoot { deloot } => Flags { deloot, ..f },
    }
}

impl FlagValues {
    /// Sets the switch that this value names on `typ`.
    pub fn set(&self, typ: &mut Type)
        ensures
            final(typ)@ == (TypeModel { flags: flags_with(*self, old(typ)@.flags), ..old(typ)@ }),
    {
        match self {
            FlagValues::CountInCargo { count_in_cargo } => {
                typ.mut_flags().set_count_in_cargo(*count_in_cargo);
            },
            FlagValues::CountInHoarder { count_in_hoarder } => {
                typ.mut_flags().set_count_in_hoarder(*count_in_hoarder);
            },
            FlagValues::CountInMap { count_in_map } => {
                typ.mut_flags().set_count_in_map(*count_in_map);
            },
            FlagValues::CountInPlayer { count_in_player } => {
                typ.mut_flags().set_count_in_player(*count_in_player);
            },
            FlagValues::Crafted { crafted } => {
                typ.mut_flags().set_crafted(*crafted);
            },
            FlagValues::DeLoot { deloot } => {
                typ.mut_flags().set_deloot(*deloot);
            },
        }
    }
}

/// A new value for one field of a record.
#[derive(Clone, Debug, PartialEq, Eq)]
pub enum FieldValue {
    Name { name: String },
    Nominal { nominal: Option<u8> },
    Lifetime { lifetime: u32 },
    Restock { restock: Option<u32> },
    Min { min: u8 },
    Quantmin { quantmin: Option<i64> },
    Quantmax { quantmax: i64 },
    Cost { cost: Option<u32> },
    Flags { flags: FlagValues },
    Category { category: Option<Named> },
    Usages { usages: Option<Vec<Named>> },
    Values { values: Option<Vec<Named>> },
}

/// The record `t` with the field that `v` names set as it says.
pub open spec fn with_field(v: FieldValue, t: TypeModel) -> TypeModel {
    match v {
        FieldValue::Name { name } => TypeModel { name: name@, ..t },
        FieldValue::Nominal { nominal } => TypeModel { nominal, ..t },
        FieldValue::Lifetime { lifetime } => TypeModel { lifetime, ..t },
        FieldValue::Restock { restock } => TypeModel { restock, ..t },
        FieldValue::Min { min } => TypeModel { min, ..t },
        FieldValue::Quantmin { quantmin } => TypeModel { quantmin, ..t },
        FieldValue::Quantmax { quantmax } => TypeModel { quantmax, ..t },
        FieldValue::Cost { cost } => TypeModel { cost, ..t },
        FieldValue::Flags { flags } => TypeModel { flags: flags_with(flags, t.flags), ..t },
        FieldValue::Category { category } => TypeModel { category: opt_name(category), ..t },
        FieldValue::Usages { usages } => TypeModel { usages: opt_names(usages), ..t },
        FieldValue::Values { values } => TypeModel { values: opt_names(values), ..t },
    }
}

impl FieldValue {
    /// Sets the field that this value names on `typ`.
    pub fn set(&self, typ: &mut Type)
        ensures
            final(typ)@ == with_field(*self, old(typ)@),
    {
        match self {
            FieldValue::Name { name } => typ.set_name(name.as_str()),
            FieldValue::Nominal { nominal } => typ.set_nominal(*nominal),
            FieldValue::Lifetime { lifetime } => typ.set_lifetime(*lifetime),
            FieldValue::Restock { restock } => typ.set_restock(*restock),
            FieldValue::Min { min } => typ.set_min(*min),
            FieldValue::Quantmin { quantmin } => typ.set_quantmin(*quantmin),
            FieldValue::Quantmax { quantmax } => typ.set_quantmax(*quantmax),
            FieldValue::Cost { cost } => typ.set_cost(*cost),
            FieldValue::Flags { flags } => flags.set(typ),
            FieldValue::Category { category } => typ.set_category(category.as_ref()),
            FieldValue::Usages { usages } => match usages {
                Some(v) => typ.set_usages(Some(v.as_slice())),
                None => typ.set_usages(None),
            },
            FieldValue::Values { values } => match values {
                Some(v) => typ.set_values(Some(v.as_slice())),
                None => typ.set_values(None),
            },
        }
    }
}

} // verus!
