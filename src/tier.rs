use crate::util::str_eq;
use vstd::prelude::*;

verus! {

/// The value tiers of the map, from the spawn zones to the military ones.
#[derive(Clone, Copy, Debug, PartialEq, Eq, Structural)]
pub enum Tier {
    Tier1,
    Tier2,
    Tier3,
    Tier4,
}

/// The name of a tier.
pub open spec fn tier_name(t: Tier) -> Seq<char> {
    match t {
        Tier::Tier1 => "Tier1"@,
        Tier::Tier2 => "Tier2"@,
        Tier::Tier3 => "Tier3"@,
        Tier::Tier4 => "Tier4"@,
    }
}

impl Tier {
    /// The tier of that name; any other text is refused with a message
    /// that quotes it.
    pub fn from_str(s: &str) -> (r: Result<Tier, String>)
        ensures
            match r {
                Ok(t) => s@ == tier_name(t),
                Err(message) => (forall|t: Tier| s@ != #[trigger] tier_name(t)) && message@ == "Invalid tier: "@
                    + s@,
            },
    {
        if str_eq(s, "Tier1") {
            Ok(Tier::Tier1)
        } else if str_eq(s, "Tier2") {
            Ok(Tier::Tier2)
        } else if str_eq(s, "Tier3") {
            Ok(Tier::Tier3)
        } else if str_eq(s, "Tier4") {
            Ok(Tier::Tier4)
        } else {
            let mut message = String::from_str("Invalid tier: ");
            message.append(s);
            proof {
                assert forall|t: Tier| s@ != #[trigger] tier_name(t) by {
                    match t {
                        Tier::Tier1 => {},
                        Tier::Tier2 => {},
                        Tier::Tier3 => {},
                        Tier::Tier4 => {},
                    }
                }
            }
            Err(message)
        }
    }

    /// The name of this tier.
    pub fn to_string(&self) -> (r: String)
        ensures
            r@ == tier_name(*self),
    {
        match self {
            Tier::Tier1 => String::from_str("Tier1"),
            Tier::Tier2 => String::from_str("Tier2"),
            Tier::Tier3 => String::from_str("Tier3"),
            Tier::Tier4 => String::from_str("Tier4"),
        }
    }
}

} // verus!
