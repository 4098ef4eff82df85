use crate::error::Error;
use crate::flags::{no_flags, Flags};
use crate::named::{copy_names, names_of, Named};
use crate::number::{i64_of, parse_i64, parse_u32, parse_u8, u32_of, u8_of};
use crate::raw;
use crate::util::{
    bool_or_false, parse_bool_or_false, parse_xml_bool, trim_xml_spaces, trimmed, xml_bool_of,
};
use vstd::prelude::*;

verus! {

/// What a record holds, with each name as its characters.
pub ghost struct TypeModel {
    pub name: Seq<char>,
    pub nominal: Option<u8>,
    pub lifetime: u32,
    pub restock: Option<u32>,
    pub min: u8,
    pub quantmin: Option<i64>,
    pub quantmax: i64,
    pub cost: Option<u32>,
    pub flags: Flags,
    pub category: Option<Seq<char>>,
    pub usages: Option<Seq<Seq<char>>>,
    pub values: Option<Seq<Seq<char>>>,
}

/// One spawn type: the record of a collection, keyed by its name.
#[derive(Clone, Debug, PartialEq, Eq)]
pub struct Type {
    name: String,
    nominal: Option<u8>,
    lifetime: u32,
    restock: Option<u32>,
    min: u8,
    quantmin: Option<i64>,
    quantmax: i64,
    cost: Option<u32>,
    flags: Flags,
    category: Option<Named>,
    usages: Option<Vec<Named>>,
    values: Option<Vec<Named>>,
}

/// The name that an optional reference holds.
pub open spec fn opt_name(n: Option<Named>) -> Option<Seq<char>> {
    match n {
        Some(n) => Some(n@),
        None => None,
    }
}

/// The names that an optional list of references holds.
pub open spec fn opt_names(v: Option<Vec<Named>>) -> Option<Seq<Seq<char>>> {
    match v {
        Some(v) => Some(names_of(v@)),
        None => None,
    }
}

impl View for Type {
    type V = TypeModel;

    closed spec fn view(&self) -> TypeModel {
        TypeModel {
            name: self.name@,
            nominal: self.nominal,
            lifetime: self.lifetime,
            restock: self.restock,
            min: self.min,
            quantmin: self.quantmin,
            quantmax: self.quantmax,
            cost: self.cost,
            flags: self.flags,
            category: opt_name(self.category),
            usages: opt_names(self.usages),
            values: opt_names(self.values),
        }
    }
}

/// A new record: the name given, every optional value absent, every other
/// value zero and every switch off.
pub open spec fn new_model(name: Seq<char>) -> TypeModel {
    TypeModel {
        name,
        nominal: None,
        lifetime: 0,
        restock: None,
        min: 0,
        quantmin: None,
        quantmax: 0,
        cost: None,
        flags: no_flags(),
        category: None,
        usages: None,
        values: None,
    }
}

impl Type {
    pub fn new(name: &str) -> (r: Self)
        ensures
            r@ == new_model(name@),
    {
        Self {
            name: name.to_owned(),
            nominal: None,
            lifetime: 0,
            restock: None,
            min: 0,
            quantmin: None,
            quantmax: 0,
            cost: None,
            flags: Flags::none(),
            category: None,
            usages: None,
            values: None,
        }
    }

    pub fn get_name(&self) -> (r: &str)
        ensures
            r@ == self@.name,
    {
        self.name.as_str()
    }

    pub fn nominal(&self) -> (r: Option<u8>)
        ensures
            r == self@.nominal,
    {
        self.nominal
    }

    pub fn lifetime(&self) -> (r: u32)
        ensures
            r == self@.lifetime,
    {
        self.lifetime
    }

    pub fn restock(&self) -> (r: Option<u32>)
        ensures
            r == self@.restock,
    {
        self.restock
    }

    pub fn min(&self) -> (r: u8)
        ensures
            r == self@.min,
    {
        self.min
    }

    pub fn quantmin(&self) -> (r: Option<i64>)
        ensures
            r == self@.quantmin,
    {
        self.quantmin
    }

    pub fn quantmax(&self) -> (r: i64)
        ensures
            r == self@.quantmax,
    {
        self.quantmax
    }

    pub fn cost(&self) -> (r: Option<u32>)
        ensures
            r == self@.cost,
    {
        self.cost
    }

    pub fn flags(&self) -> (r: Flags)
        ensures
            r == self@.flags,
    {
        self.flags
    }

    pub fn category(&self) -> (r: Option<&Named>)
        ensures
            match r {
                Some(n) => self@.category == Some(n@),
                None => self@.category is None,
            },
    {
        self.category.as_ref()
    }

    pub fn usages(&self) -> (r: Option<&[Named]>)
        ensures
            match r {
                Some(v) => self@.usages == Some(names_of(v@)),
                None => self@.usages is None,
            },
    {
        match &self.usages {
            Some(v) => Some(v.as_slice()),
            None => None,
        }
    }

    pub fn values(&self) -> (r: Option<&[Named]>)
        ensures
            match r {
                Some(v) => self@.values == Some(names_of(v@)),
                None => self@.values is None,
            },
    {
        match &self.values {
            Some(v) => Some(v.as_slice()),
            None => None,
        }
    }

    pub fn mut_flags(&mut self) -> (r: &mut Flags)
        ensures
            *r == old(self)@.flags,
            final(self)@ == (TypeModel { flags: *final(r), ..old(self)@ }),
    {
        &mut self.flags
    }

    pub fn set_name(&mut self, name: &str)
        ensures
            final(self)@ == (TypeModel { name: name@, ..old(self)@ }),
    {
        self.name = name.to_owned();
    }

    pub fn set_nominal(&mut self, nominal: Option<u8>)
        ensures
            final(self)@ == (TypeModel { nominal, ..old(self)@ }),
    {
        self.nominal = nominal;
    }

    pub fn set_lifetime(&mut self, lifetime: u32)
        ensures
            final(self)@ == (TypeModel { lifetime, ..old(self)@ }),
    {
        self.lifetime = lifetime;
    }

    pub fn set_restock(&mut self, restock: Option<u32>)
        ensures
            final(self)@ == (TypeModel { restock, ..old(self)@ }),
    {
        self.restock = restock;
    }

    pub fn set_min(&mut self, min: u8)
        ensures
            final(self)@ == (TypeModel { min, ..old(self)@ }),
    {
        self.min = min;
    }

    pub fn set_quantmin(&mut self, quantmin: Option<i64>)
        ensures
            final(self)@ == (TypeModel { quantmin, ..old(self)@ }),
    {
        self.quantmin = quantmin;
    }

    pub fn set_quantmax(&mut self, quantmax: i64)
        ensures
            final(self)@ == (TypeModel { quantmax, ..old(self)@ }),
    {
        self.quantmax = quantmax;
    }

    pub fn set_cost(&mut self, cost: Option<u32>)
        ensures
            final(self)@ == (TypeModel { cost, ..old(self)@ }),
    {
        self.cost = cost;
    }

    pub fn set_flags(&mut self, flags: Flags)
        ensures
            final(self)@ == (TypeModel { flags, ..old(self)@ }),
    {
        self.flags = flags;
    }

    pub fn set_category(&mut self, category: Option<&Named>)
        ensures
            final(self)@ == (TypeModel {
                category: match category {
                    Some(n) => Some(n@),
                    None => None,
                },
                ..old(self)@
            }),
    {
        self.category = match category {
            Some(n) => Some(n.duplicate()),
            None => None,
        };
    }

    pub fn set_usages(&mut self, usages: Option<&[Named]>)
        ensures
            final(self)@ == (TypeModel {
                usages: match usages {
                    Some(v) => Some(names_of(v@)),
                    None => None,
                },
                ..old(self)@
            }),
    {
        self.usages = match usages {
            Some(v) => Some(copy_names(v)),
            None => None,
        };
    }

    pub fn set_values(&mut self, values: Option<&[Named]>)
        ensures
            final(self)@ == (TypeModel {
                values: match values {
                    Some(v) => Some(names_of(v@)),
                    None => None,
                },
                ..old(self)@
            }),
    {
        self.values = match values {
            Some(v) => Some(copy_names(v)),
            None => None,
        };
    }
}

/// A `u8` read leniently: absent, or not a `u8` as it stands, gives none.
pub open spec fn lenient_u8(o: Option<String>) -> Option<u8> {
    match o {
        Some(s) => u8_of(s@),
        None => None,
    }
}

/// A `u32` read leniently: absent, or not a `u32` as it stands, gives none.
pub open spec fn lenient_u32(o: Option<String>) -> Option<u32> {
    match o {
        Some(s) => u32_of(s@),
        None => None,
    }
}

/// An `i64` read leniently: absent, or not an `i64` as it stands, gives
/// none.
pub open spec fn lenient_i64(o: Option<String>) -> Option<i64> {
    match o {
        Some(s) => i64_of(s@),
        None => None,
    }
}

/// A switch read leniently, its text as it stands: absent means off.
pub open spec fn lenient_flag(o: Option<String>) -> bool {
    match o {
        Some(s) => bool_or_false(s@),
        None => false,
    }
}

/// The switches read leniently.
pub open spec fn lenient_flags(f: Option<raw::Flags>) -> Flags {
    match f {
        Some(f) => Flags {
            count_in_cargo: lenient_flag(f.count_in_cargo),
            count_in_hoarder: lenient_flag(f.count_in_hoarder),
            count_in_map: lenient_flag(f.count_in_map),
            count_in_player: lenient_flag(f.count_in_player),
            crafted: lenient_flag(f.crafted),
            deloot: lenient_flag(f.deloot),
        },
        None => no_flags(),
    }
}

/// The names of the references that have one, in order; the others are
/// left out.
pub open spec fn present_names(v: Seq<raw::Named>) -> Seq<Seq<char>>
    decreases v.len(),
{
    if v.len() == 0 {
        Seq::empty()
    } else {
        let rest = present_names(v.drop_last());
        match v.last().name {
            Some(n) => rest.push(n@),
            None => rest,
        }
    }
}

/// An optional list of references read leniently.
pub open spec fn lenient_names(v: Option<Vec<raw::Named>>) -> Option<Seq<Seq<char>>> {
    match v {
        Some(v) => Some(present_names(v@)),
        None => None,
    }
}

/// A record read leniently: a value that is absent or malformed becomes
/// none where it is optional and zero (or off) where it is not, and a
/// reference without a name is dropped.
pub open spec fn lenient_model(t: raw::Type) -> TypeModel {
    TypeModel {
        name: t.name@,
        nominal: lenient_u8(t.nominal),
        lifetime: match lenient_u32(t.lifetime) {
            Some(v) => v,
            None => 0,
        },
        restock: lenient_u32(t.restock),
        min: match lenient_u8(t.min) {
            Some(v) => v,
            None => 0,
        },
        quantmin: lenient_i64(t.quantmin),
        quantmax: match lenient_i64(t.quantmax) {
            Some(v) => v,
            None => 0,
        },
        cost: lenient_u32(t.cost),
        flags: lenient_flags(t.flags),
        category: match t.category {
            Some(c) => match c.name {
                Some(n) => Some(n@),
                None => None,
            },
            None => None,
        },
        usages: lenient_names(t.usages),
        values: lenient_names(t.values),
    }
}

fn read_u8(o: &Option<String>) -> (r: Option<u8>)
    ensures
        r == lenient_u8(*o),
{
    match o {
        Some(s) => parse_u8(s.as_str()),
        None => None,
    }
}

fn read_u32(o: &Option<String>) -> (r: Option<u32>)
    ensures
        r == lenient_u32(*o),
{
    match o {
        Some(s) => parse_u32(s.as_str()),
        None => None,
    }
}

fn read_i64(o: &Option<String>) -> (r: Option<i64>)
    ensures
        r == lenient_i64(*o),
{
    match o {
        Some(s) => parse_i64(s.as_str()),
        None => None,
    }
}

fn read_flag(o: &Option<String>) -> (r: bool)
    ensures
        r == lenient_flag(*o),
{
    match o {
        Some(s) => parse_bool_or_false(s.as_str()),
        None => false,
    }
}

impl Flags {
    /// Reads the switches leniently: each is on where its text, as it
    /// stands, is `true` or a decimal integer other than zero, and off
    /// otherwise.
    pub fn from_raw(f: &raw::Flags) -> (r: Flags)
        ensures
            r == lenient_flags(Some(*f)),
    {
        Flags {
            count_in_cargo: read_flag(&f.count_in_cargo),
            count_in_hoarder: read_flag(&f.count_in_hoarder),
            count_in_map: read_flag(&f.count_in_map),
            count_in_player: read_flag(&f.count_in_player),
            crafted: read_flag(&f.crafted),
            deloot: read_flag(&f.deloot),
        }
    }
}

fn read_flags(f: &Option<raw::Flags>) -> (r: Flags)
    ensures
        r == lenient_flags(*f),
{
    match f {
        Some(f) => Flags::from_raw(f),
        None => Flags::none(),
    }
}

fn read_names(v: &Vec<raw::Named>) -> (r: Vec<Named>)
    ensures
        names_of(r@) == present_names(v@),
{
    let mut out: Vec<Named> = Vec::new();
    let mut i: usize = 0;
    while i < v.len()
        invariant
            i <= v@.len(),
            names_of(out@) == present_names(v@.subrange(0, i as int)),
        decreases v@.len() - i,
    {
        match &v[i].name {
            Some(n) => {
                out.push(Named::new(n.clone()));
            },
            None => {},
        }
        proof {
            assert(v@.subrange(0, i + 1).drop_last() =~= v@.subrange(0, i as int));
            assert(names_of(out@) =~= present_names(v@.subrange(0, i + 1)));
        }
        i = i + 1;
    }
    proof {
        assert(v@.subrange(0, v@.len() as int) =~= v@);
    }
    out
}

fn read_opt_names(v: &Option<Vec<raw::Named>>) -> (r: Option<Vec<Named>>)
    ensures
        opt_names(r) == lenient_names(*v),
{
    match v {
        Some(v) => Some(read_names(v)),
        None => None,
    }
}

impl Type {
    /// Reads a record leniently: this never fails, and may lose data.
    pub fn from_raw(raw: &raw::Type) -> (r: Self)
        ensures
            r@ == lenient_model(*raw),
    {
        let category = match &raw.category {
            Some(c) => match &c.name {
                Some(n) => Some(Named::new(n.clone())),
                None => None,
            },
            None => None,
        };
        let usages = read_opt_names(&raw.usages);
        let values = read_opt_names(&raw.values);
        let lifetime = match read_u32(&raw.lifetime) {
            Some(v) => v,
            None => 0,
        };
        let min = match read_u8(&raw.min) {
            Some(v) => v,
            None => 0,
        };
        let quantmax = match read_i64(&raw.quantmax) {
            Some(v) => v,
            None => 0,
        };
        Type {
            nominal: read_u8(&raw.nominal),
            lifetime,
            restock: read_u32(&raw.restock),
            min,
            quantmin: read_i64(&raw.quantmin),
            quantmax,
            cost: read_u32(&raw.cost),
            flags: read_flags(&raw.flags),
            category,
            usages,
            values,
            name: raw.name.clone(),
        }
    }
}

/// An optional `u8` read strictly: absent gives none; present, it must be
/// a `u8`, with XML whitespace around it allowed, or the record is refused.
pub open spec fn strict_opt_u8(o: Option<String>) -> Option<Option<u8>> {
    match o {
        Some(s) => match u8_of(trimmed(s@)) {
            Some(v) => Some(Some(v)),
            None => None,
        },
        None => Some(None),
    }
}

/// An optional `u32` read strictly.
pub open spec fn strict_opt_u32(o: Option<String>) -> Option<Option<u32>> {
    match o {
        Some(s) => match u32_of(trimmed(s@)) {
            Some(v) => Some(Some(v)),
            None => None,
        },
        None => Some(None),
    }
}

/// An optional `i64` read strictly.
pub open spec fn strict_opt_i64(o: Option<String>) -> Option<Option<i64>> {
    match o {
        Some(s) => match i64_of(trimmed(s@)) {
            Some(v) => Some(Some(v)),
            None => None,
        },
        None => Some(None),
    }
}

/// A required value read strictly: it must be present and well-formed.
pub open spec fn required<T>(o: Option<Option<T>>) -> Option<T> {
    match o {
        Some(Some(v)) => Some(v),
        _ => None,
    }
}

/// A switch read strictly: it must be present and well-formed.
pub open spec fn strict_flag(o: Option<String>) -> Option<bool> {
    match o {
        Some(s) => xml_bool_of(s@),
        None => None,
    }
}

/// The switches read strictly: the element and all six attributes must be
/// present and well-formed.
pub open spec fn strict_flags(f: Option<raw::Flags>) -> Option<Flags> {
    match f {
        Some(f) => if strict_flag(f.count_in_cargo) is Some && strict_flag(f.count_in_hoarder) is Some
            && strict_flag(f.count_in_map) is Some && strict_flag(f.count_in_player) is Some
            && strict_flag(f.crafted) is Some && strict_flag(f.deloot) is Some {
            Some(
                Flags {
                    count_in_cargo: strict_flag(f.count_in_cargo)->0,
                    count_in_hoarder: strict_flag(f.count_in_hoarder)->0,
                    count_in_map: strict_flag(f.count_in_map)->0,
                    count_in_player: strict_flag(f.count_in_player)->0,
                    crafted: strict_flag(f.crafted)->0,
                    deloot: strict_flag(f.deloot)->0,
                },
            )
        } else {
            None
        },
        None => None,
    }
}

/// Whether every reference of a list has a name.
pub open spec fn all_named(v: Seq<raw::Named>) -> bool {
    forall|i: int| 0 <= i < v.len() ==> (#[trigger] v[i]).name is Some
}

/// An optional list of references read strictly: each must have a name.
pub open spec fn strict_names(v: Option<Vec<raw::Named>>) -> Option<Option<Seq<Seq<char>>>> {
    match v {
        Some(v) => if all_named(v@) {
            Some(Some(present_names(v@)))
        } else {
            None
        },
        None => Some(None),
    }
}

/// An optional category read strictly: where present it must have a name.
pub open spec fn strict_category(c: Option<raw::Named>) -> Option<Option<Seq<char>>> {
    match c {
        Some(c) => match c.name {
            Some(n) => Some(Some(n@)),
            None => None,
        },
        None => Some(None),
    }
}

/// Whether a record passes strict reading: every present value is
/// well-formed for its field, and `lifetime`, `min`, `quantmax` and all the
/// switches are present.
pub open spec fn strict_ok(t: raw::Type) -> bool {
    &&& strict_opt_u8(t.nominal) is Some
    &&& required(strict_opt_u32(t.lifetime)) is Some
    &&& strict_opt_u32(t.restock) is Some
    &&& required(strict_opt_u8(t.min)) is Some
    &&& strict_opt_i64(t.quantmin) is Some
    &&& required(strict_opt_i64(t.quantmax)) is Some
    &&& strict_opt_u32(t.cost) is Some
    &&& strict_flags(t.flags) is Some
    &&& strict_category(t.category) is Some
    &&& strict_names(t.usages) is Some
    &&& strict_names(t.values) is Some
}

/// The record that strict reading gives, where `strict_ok` holds.
pub open spec fn strict_model(t: raw::Type) -> TypeModel {
    TypeModel {
        name: t.name@,
        nominal: strict_opt_u8(t.nominal)->0,
        lifetime: required(strict_opt_u32(t.lifetime))->0,
        restock: strict_opt_u32(t.restock)->0,
        min: required(strict_opt_u8(t.min))->0,
        quantmin: strict_opt_i64(t.quantmin)->0,
        quantmax: required(strict_opt_i64(t.quantmax))->0,
        cost: strict_opt_u32(t.cost)->0,
        flags: strict_flags(t.flags)->0,
        category: strict_category(t.category)->0,
        usages: strict_names(t.usages)->0,
        values: strict_names(t.values)->0,
    }
}

fn check_u8(o: &Option<String>) -> (r: Result<Option<u8>, Error>)
    ensures
        match strict_opt_u8(*o) {
            Some(v) => r == Ok::<Option<u8>, Error>(v),
            None => r == Err::<Option<u8>, Error>(Error::ValidationFailure),
        },
{
    match o {
        Some(s) => match parse_u8(trim_xml_spaces(s.as_str())) {
            Some(v) => Ok(Some(v)),
            None => Err(Error::ValidationFailure),
        },
        None => Ok(None),
    }
}

fn check_u32(o: &Option<String>) -> (r: Result<Option<u32>, Error>)
    ensures
        match strict_opt_u32(*o) {
            Some(v) => r == Ok::<Option<u32>, Error>(v),
            None => r == Err::<Option<u32>, Error>(Error::ValidationFailure),
        },
{
    match o {
        Some(s) => match parse_u32(trim_xml_spaces(s.as_str())) {
            Some(v) => Ok(Some(v)),
            None => Err(Error::ValidationFailure),
        },
        None => Ok(None),
    }
}

fn check_i64(o: &Option<String>) -> (r: Result<Option<i64>, Error>)
    ensures
        match strict_opt_i64(*o) {
            Some(v) => r == Ok::<Option<i64>, Error>(v),
            None => r == Err::<Option<i64>, Error>(Error::ValidationFailure),
        },
{
    match o {
        Some(s) => match parse_i64(trim_xml_spaces(s.as_str())) {
            Some(v) => Ok(Some(v)),
            None => Err(Error::ValidationFailure),
        },
        None => Ok(None),
    }
}

fn check_flag(o: &Option<String>) -> (r: Result<bool, Error>)
    ensures
        match strict_flag(*o) {
            Some(v) => r == Ok::<bool, Error>(v),
            None => r == Err::<bool, Error>(Error::ValidationFailure),
        },
{
    match o {
        Some(s) => match parse_xml_bool(s.as_str()) {
            Some(v) => Ok(v),
            None => Err(Error::ValidationFailure),
        },
        None => Err(Error::ValidationFailure),
    }
}

fn check_flags(f: &Option<raw::Flags>) -> (r: Result<Flags, Error>)
    ensures
        match strict_flags(*f) {
            Some(v) => r == Ok::<Flags, Error>(v),
            None => r == Err::<Flags, Error>(Error::ValidationFailure),
        },
{
    match f {
        Some(f) => Ok(
            Flags {
                count_in_cargo: check_flag(&f.count_in_cargo)?,
                count_in_hoarder: check_flag(&f.count_in_hoarder)?,
                count_in_map: check_flag(&f.count_in_map)?,
                count_in_player: check_flag(&f.count_in_player)?,
                crafted: check_flag(&f.crafted)?,
                deloot: check_flag(&f.deloot)?,
            },
        ),
        None => Err(Error::ValidationFailure),
    }
}

fn check_names(v: &Option<Vec<raw::Named>>) -> (r: Result<Option<Vec<Named>>, Error>)
    ensures
        match strict_names(*v) {
            Some(n) => r is Ok && opt_names(r->Ok_0) == n,
            None => r == Err::<Option<Vec<Named>>, Error>(Error::ValidationFailure),
        },
{
    match v {
        Some(items) => {
            let mut i: usize = 0;
            while i < items.len()
                invariant
                    *v == Some(*items),
                    i <= items@.len(),
                    forall|k: int| 0 <= k < i ==> (#[trigger] items@[k]).name is Some,
                decreases items@.len() - i,
            {
                match &items[i].name {
                    Some(_) => {},
                    None => {
                        proof {
                            assert(!all_named(items@)) by {
                                assert(items@[i as int].name is None);
                            }
                        }
                        return Err(Error::ValidationFailure);
                    },
                }
                i = i + 1;
            }
            Ok(Some(read_names(items)))
        },
        None => Ok(None),
    }
}

fn check_category(c: &Option<raw::Named>) -> (r: Result<Option<Named>, Error>)
    ensures
        match strict_category(*c) {
            Some(n) => r is Ok && opt_name(r->Ok_0) == n,
            None => r == Err::<Option<Named>, Error>(Error::ValidationFailure),
        },
{
    match c {
        Some(c) => match &c.name {
            Some(n) => Ok(Some(Named::new(n.clone()))),
            None => Err(Error::ValidationFailure),
        },
        None => Ok(None),
    }
}

impl Type {
    /// Reads a record strictly: it is refused unless every present value is
    /// well-formed and every required one is there.
    pub fn try_from_raw(raw: &raw::Type) -> (r: Result<Self, Error>)
        ensures
            strict_ok(*raw) ==> r is Ok && r->Ok_0@ == strict_model(*raw),
            !strict_ok(*raw) ==> r == Err::<Type, Error>(Error::ValidationFailure),
    {
        let nominal = check_u8(&raw.nominal)?;
        let lifetime = match check_u32(&raw.lifetime)? {
            Some(v) => v,
            None => return Err(Error::ValidationFailure),
        };
        let restock = check_u32(&raw.restock)?;
        let min = match check_u8(&raw.min)? {
            Some(v) => v,
            None => return Err(Error::ValidationFailure),
        };
        let quantmin = check_i64(&raw.quantmin)?;
        let quantmax = match check_i64(&raw.quantmax)? {
            Some(v) => v,
            None => return Err(Error::ValidationFailure),
        };
        let cost = check_u32(&raw.cost)?;
        let flags = check_flags(&raw.flags)?;
        let category = check_category(&raw.category)?;
        let usages = check_names(&raw.usages)?;
        let values = check_names(&raw.values)?;
        Ok(
            Type {
                nominal,
                lifetime,
                restock,
                min,
                quantmin,
                quantmax,
                cost,
                flags,
                category,
                usages,
                values,
                name: raw.name.clone(),
            },
        )
    }
}

} // verus!
