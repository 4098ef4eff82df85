use vstd::prelude::*;

verus! {

/// The six switches of a record that say where its items are counted and
/// how they come about.
#[derive(Clone, Copy, Debug, PartialEq, Eq, Structural)]
pub struct Flags {
    pub count_in_cargo: bool,
    pub count_in_hoarder: bool,
    pub count_in_map: bool,
    pub count_in_player: bool,
    pub crafted: bool,
    pub deloot: bool,
}

/// All six switches off.
pub open spec fn no_flags() -> Flags {
    Flags {
        count_in_cargo: false,
        count_in_hoarder: false,
        count_in_map: false,
        count_in_player: false,
        crafted: false,
        deloot: false,
    }
}

impl Default for Flags {
    fn default() -> (r: Self)
        ensures
            r == no_flags(),
    {
        Self::none()
    }
}

impl Flags {
    /// All six switches off.
    pub fn none() -> (r: Self)
        ensures
            r == no_flags(),
    {
        Flags {
            count_in_cargo: false,
            count_in_hoarder: false,
            count_in_map: false,
            count_in_player: false,
            crafted: false,
            deloot: false,
        }
    }

    pub fn set_count_in_cargo(&mut self, count_in_cargo: bool)
        ensures
            *final(self) == (Flags { count_in_cargo, ..*old(self) }),
    {
        self.count_in_cargo = count_in_cargo;
    }

    pub fn set_count_in_hoarder(&mut self, count_in_hoarder: bool)
        ensures
            *final(self) == (Flags { count_in_hoarder, ..*old(self) }),
    {
        self.count_in_hoarder = count_in_hoarder;
    }

    pub fn set_count_in_map(&mut self, count_in_map: bool)
        ensures
            *final(self) == (Flags { count_in_map, ..*old(self) }),
    {
        self.count_in_map = count_in_map;
    }

    pub fn set_count_in_player(&mut self, count_in_player: bool)
        ensures
            *final(self) == (Flags { count_in_player, ..*old(self) }),
    {
        self.count_in_player = count_in_player;
    }

    pub fn set_crafted(&mut self, crafted: bool)
        ensures
            *final(self) == (Flags { crafted, ..*old(self) }),
    {
        self.crafted = crafted;
    }

    pub fn set_deloot(&mut self, deloot: bool)
        ensures
            *final(self) == (Flags { deloot, ..*old(self) }),
    {
        self.deloot = deloot;
    }
}

} // verus!
