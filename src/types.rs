use crate::error::Error;
use crate::field_value::{with_field, FieldValue};
use crate::order::{
    eq_ignore_ascii_case, lemma_name_lt_irreflexive, lemma_name_lt_total, lemma_name_lt_transitive,
    name_less, name_lt, same_ignoring_ascii_case,
};
use crate::raw;
use crate::record::{lenient_model, strict_model, strict_ok, Type, TypeModel};
use crate::util::str_eq;
use vstd::prelude::*;

verus! {

/// A collection of records, in the order of the document or of the edits
/// made to it.
#[derive(Clone, Debug, PartialEq, Eq)]
pub struct Types {
    types: Vec<Type>,
}

/// What a list of records holds.
pub open spec fn models(s: Seq<Type>) -> Seq<TypeModel> {
    s.map_values(|t: Type| t@)
}

impl View for Types {
    type V = Seq<TypeModel>;

    closed spec fn view(&self) -> Seq<TypeModel> {
        models(self.types@)
    }
}

/// Whether some record of `s` has the name `n`.
pub open spec fn has_name(s: Seq<TypeModel>, n: Seq<char>) -> bool {
    exists|i: int| 0 <= i < s.len() && (#[trigger] s[i]).name == n
}

/// Whether the records of `s` have pairwise different names.
pub open spec fn unique_names(s: Seq<TypeModel>) -> bool {
    forall|i: int, j: int|
        0 <= i < s.len() && 0 <= j < s.len() && i != j ==> (#[trigger] s[i]).name != (#[trigger] s[j]).name
}

/// The set of the names of the records of `s`.
pub open spec fn names(s: Seq<TypeModel>) -> Set<Seq<char>> {
    Set::new(|n: Seq<char>| has_name(s, n))
}

/// Whether `i` is the first position of `s` that holds a record named `n`.
pub open spec fn first_named(s: Seq<TypeModel>, n: Seq<char>, i: int) -> bool {
    &&& 0 <= i < s.len()
    &&& s[i].name == n
    &&& forall|k: int| 0 <= k < i ==> (#[trigger] s[k]).name != n
}

/// Whether `i` is the first position of `s` that holds a record whose name
/// matches `n` up to ASCII case.
pub open spec fn first_named_ignoring_case(s: Seq<TypeModel>, n: Seq<char>, i: int) -> bool {
    &&& 0 <= i < s.len()
    &&& eq_ignore_ascii_case(s[i].name, n)
    &&& forall|k: int| 0 <= k < i ==> !eq_ignore_ascii_case((#[trigger] s[k]).name, n)
}

/// Whether some record of `s` matches the name `n` up to ASCII case.
pub open spec fn has_name_ignoring_case(s: Seq<TypeModel>, n: Seq<char>) -> bool {
    exists|i: int| 0 <= i < s.len() && eq_ignore_ascii_case((#[trigger] s[i]).name, n)
}

/// The records read leniently from a document.
pub open spec fn lenient_models(raw: raw::Types) -> Seq<TypeModel> {
    match raw.types {
        Some(v) => v@.map_values(|t: raw::Type| lenient_model(t)),
        None => Seq::empty(),
    }
}

/// Whether every record of a document passes strict reading.
pub open spec fn strict_all_ok(raw: raw::Types) -> bool {
    match raw.types {
        Some(v) => forall|i: int| 0 <= i < v@.len() ==> strict_ok(#[trigger] v@[i]),
        None => true,
    }
}

/// The records read strictly from a document, where `strict_all_ok` holds.
pub open spec fn strict_models(raw: raw::Types) -> Seq<TypeModel> {
    match raw.types {
        Some(v) => v@.map_values(|t: raw::Type| strict_model(t)),
        None => Seq::empty(),
    }
}

impl Types {
    /// An empty collection.
    pub fn new() -> (r: Self)
        ensures
            r@ == Seq::<TypeModel>::empty(),
    {
        proof {
            assert(models(Seq::<Type>::empty()) =~= Seq::<TypeModel>::empty());
        }
        Types { types: Vec::new() }
    }

    /// Reads a document leniently: every record is kept, with its malformed
    /// values replaced as `Type::from_raw` does. This never fails and may
    /// lose data.
    pub fn read_gracefully(raw: &raw::Types) -> (r: Self)
        ensures
            r@ == lenient_models(*raw),
    {
        let mut out: Vec<Type> = Vec::new();
        match &raw.types {
            Some(v) => {
                let mut i: usize = 0;
                while i < v.len()
                    invariant
                        i <= v@.len(),
                        out@.len() == i,
                        forall|k: int| 0 <= k < i ==> (#[trigger] out@[k])@ == lenient_model(v@[k]),
                    decreases v@.len() - i,
                {
                    out.push(Type::from_raw(&v[i]));
                    i = i + 1;
                }
            },
            None => {},
        }
        proof {
            assert(models(out@) =~= lenient_models(*raw));
        }
        Types { types: out }
    }

    /// Reads a document strictly: refused as a whole if any record fails
    /// strict reading, else every record as `Type::try_from_raw` gives it.
    pub fn try_from_raw(raw: &raw::Types) -> (r: Result<Self, Error>)
        ensures
            strict_all_ok(*raw) ==> r is Ok && r->Ok_0@ == strict_models(*raw),
            !strict_all_ok(*raw) ==> r == Err::<Types, Error>(Error::ValidationFailure),
    {
        let mut out: Vec<Type> = Vec::new();
        match &raw.types {
            Some(v) => {
                let mut i: usize = 0;
                while i < v.len()
                    invariant
                        i <= v@.len(),
                        out@.len() == i,
                        raw.types == Some(*v),
                        forall|k: int| 0 <= k < i ==> strict_ok(#[trigger] v@[k]),
                        forall|k: int| 0 <= k < i ==> (#[trigger] out@[k])@ == strict_model(v@[k]),
                    decreases v@.len() - i,
                {
                    match Type::try_from_raw(&v[i]) {
                        Ok(t) => out.push(t),
                        Err(e) => {
                            proof {
                                assert(!strict_ok(v@[i as int]));
                                assert(raw.types->0 == *v);
                                assert(!strict_ok(raw.types->0@[i as int]));
                                assert(!strict_all_ok(*raw));
                            }
                            return Err(e);
                        },
                    }
                    i = i + 1;
                }
            },
            None => {},
        }
        proof {
            assert(models(out@) =~= strict_models(*raw));
        }
        Ok(Types { types: out })
    }

    /// The records, in order.
    pub fn types(&self) -> (r: &[Type])
        ensures
            models(r@) == self@,
    {
        self.types.as_slice()
    }

    /// The records, to edit in place.
    pub fn mut_types(&mut self) -> (r: &mut Vec<Type>)
        ensures
            models(r@) == old(self)@,
            final(self)@ == models(final(r)@),
    {
        &mut self.types
    }

    pub fn len(&self) -> (r: usize)
        ensures
            r == self@.len(),
    {
        self.types.len()
    }

    /// The position of the first record named `name`, if any.
    pub fn position(&self, name: &str) -> (r: Option<usize>)
        ensures
            match r {
                Some(i) => first_named(self@, name@, i as int),
                None => !has_name(self@, name@),
            },
    {
        let mut i: usize = 0;
        while i < self.types.len()
            invariant
                i <= self@.len(),
                self@ == models(self.types@),
                forall|k: int| 0 <= k < i ==> (#[trigger] self@[k]).name != name@,
            decreases self@.len() - i,
        {
            if str_eq(self.types[i].get_name(), name) {
                return Some(i);
            }
            i = i + 1;
        }
        None
    }

    /// The position of the first record whose name matches `name` up to
    /// ASCII case, if any.
    pub fn position_ignoring_case(&self, name: &str) -> (r: Option<usize>)
        ensures
            match r {
                Some(i) => first_named_ignoring_case(self@, name@, i as int),
                None => !has_name_ignoring_case(self@, name@),
            },
    {
        let mut i: usize = 0;
        while i < self.types.len()
            invariant
                i <= self@.len(),
                self@ == models(self.types@),
                forall|k: int| 0 <= k < i ==> !eq_ignore_ascii_case((#[trigger] self@[k]).name, name@),
            decreases self@.len() - i,
        {
            if same_ignoring_ascii_case(self.types[i].get_name(), name) {
                return Some(i);
            }
            i = i + 1;
        }
        None
    }

    /// Appends `typ`, unless a record of that name is there already: then
    /// the collection stays as it is.
    pub fn add(&mut self, typ: Type)
        ensures
            has_name(old(self)@, typ@.name) ==> final(self)@ == old(self)@,
            !has_name(old(self)@, typ@.name) ==> final(self)@ == old(self)@.push(typ@),
    {
        match self.position(typ.get_name()) {
            Some(_) => {},
            None => {
                self.types.push(typ);
                proof {
                    assert(models(self.types@) =~= old(self)@.push(typ@));
                }
            },
        }
    }

    /// Takes out the first record named `name` and hands it back; where
    /// there is none, the collection stays as it is.
    pub fn remove(&mut self, name: &str) -> (r: Option<Type>)
        ensures
            match r {
                Some(t) => exists|i: int|
                    first_named(old(self)@, name@, i) && t@ == old(self)@[i] && final(self)@
                        == old(self)@.remove(i),
                None => !has_name(old(self)@, name@) && final(self)@ == old(self)@,
            },
    {
        match self.position(name) {
            Some(i) => {
                let t = self.types.remove(i);
                proof {
                    assert(models(self.types@) =~= old(self)@.remove(i as int));
                }
                Some(t)
            },
            None => None,
        }
    }
}

/// Whether the records of `s` stand in strictly increasing order of name.
pub open spec fn sorted_by_name(s: Seq<TypeModel>) -> bool {
    forall|i: int, j: int| 0 <= i < j < s.len() ==> name_lt((#[trigger] s[i]).name, (#[trigger] s[j]).name)
}

/// Whether `j` is, from position `k` on, the first position of `src` that
/// holds a record of the name that `src[j]` has.
pub open spec fn first_from(src: Seq<TypeModel>, k: int, j: int) -> bool {
    &&& k <= j < src.len()
    &&& forall|m: int| k <= m < j ==> (#[trigger] src[m]).name != src[j].name
}

/// Whether `x` is, from position `k` on, the first record of its name in
/// `src`.
pub open spec fn leads_from(src: Seq<TypeModel>, k: int, x: TypeModel) -> bool {
    exists|j: int| first_from(src, k, j) && src[j] == x
}

/// Whether `merged` is the merge of `base` with `extension`: of each name
/// that either holds, the record that comes first in the extension
/// followed by the base (so the extension wins, and within one collection
/// the first record wins), one record per name, in increasing order of
/// name.
pub open spec fn is_merge(merged: Seq<TypeModel>, base: Seq<TypeModel>, extension: Seq<TypeModel>) -> bool {
    let src = extension + base;
    &&& sorted_by_name(merged)
    &&& forall|x: TypeModel| merged.contains(x) <==> leads_from(src, 0, x)
    &&& forall|j: int| 0 <= j < src.len() ==> has_name(merged, (#[trigger] src[j]).name)
}

/// Puts `item` into the sorted `out`, in place of the record of its name
/// if there is one.
fn place(out: &mut Vec<Type>, item: Type)
    requires
        sorted_by_name(models(old(out)@)),
    ensures
        sorted_by_name(models(final(out)@)),
        forall|x: TypeModel|
            models(final(out)@).contains(x) <==> (x == item@ || (models(old(out)@).contains(x) && x.name
                != item@.name)),
{
    let ghost before = models(out@);
    let mut lo: usize = 0;
    let mut hi: usize = out.len();
    while lo < hi
        invariant
            lo <= hi <= out@.len(),
            before == models(out@),
            sorted_by_name(before),
            forall|k: int| 0 <= k < lo ==> name_lt((#[trigger] before[k]).name, item@.name),
            forall|k: int| hi <= k < before.len() ==> !name_lt((#[trigger] before[k]).name, item@.name),
        decreases hi - lo,
    {
        let mid = lo + (hi - lo) / 2;
        if name_less(out[mid].get_name(), item.get_name()) {
            proof {
                assert forall|k: int| 0 <= k <= mid implies name_lt((#[trigger] before[k]).name, item@.name) by {
                    if k < mid {
                        lemma_name_lt_transitive(before[k].name, before[mid as int].name, item@.name);
                    }
                }
            }
            lo = mid + 1;
        } else {
            proof {
                assert forall|k: int| mid <= k < before.len() implies !name_lt((#[trigger] before[k]).name, item@.name) by {
                    if k > mid && name_lt(before[k].name, item@.name) {
                        lemma_name_lt_transitive(before[mid as int].name, before[k].name, item@.name);
                    }
                }
            }
            hi = mid;
        }
    }
    let p = lo;
    proof {
        assert forall|k: int| 0 <= k < p implies (#[trigger] before[k]).name != item@.name by {
            lemma_name_lt_irreflexive(item@.name);
        }
    }
    if p < out.len() && str_eq(out[p].get_name(), item.get_name()) {
        let ghost it = item@;
        out.set(p, item);
        proof {
            assert(before == models(old(out)@));
            assert(it == item@);
            assert(models(out@) =~= before.update(p as int, it));
            assert forall|k: int| 0 <= k < before.len() && k != p implies (#[trigger] before[k]).name
                != it.name by {
                if k > p {
                    lemma_name_lt_irreflexive(it.name);
                }
            }
            assert forall|x: TypeModel|
                models(out@).contains(x) <==> (x == item@ || (models(old(out)@).contains(x) && x.name
                    != item@.name)) by {
                if models(out@).contains(x) {
                    let i = choose|i: int| 0 <= i < models(out@).len() && models(out@)[i] == x;
                    if i != p {
                        assert(before[i] == x);
                    }
                }
                if before.contains(x) && x.name != it.name {
                    let i = choose|i: int| 0 <= i < before.len() && before[i] == x;
                    assert(models(out@)[i] == x);
                }
                if x == it {
                    assert(models(out@)[p as int] == x);
                }
            }
        }
    } else {
        let ghost it = item@;
        proof {
            assert forall|k: int| p <= k < before.len() implies name_lt(it.name, (#[trigger] before[k]).name) by {
                lemma_name_lt_total(it.name, before[p as int].name);
                if k > p {
                    lemma_name_lt_transitive(it.name, before[p as int].name, before[k].name);
                }
            }
        }
        out.insert(p, item);
        proof {
            let after = models(out@);
            assert(after =~= before.insert(p as int, it));
            assert forall|i: int, j: int| 0 <= i < j < after.len() implies name_lt(
                (#[trigger] after[i]).name,
                (#[trigger] after[j]).name,
            ) by {
                if i < p && j > p {
                    lemma_name_lt_transitive(before[i].name, it.name, before[j - 1].name);
                }
            }
            assert forall|k: int| 0 <= k < before.len() implies (#[trigger] before[k]).name != it.name by {
                if k >= p {
                    lemma_name_lt_irreflexive(it.name);
                }
            }
            assert forall|x: TypeModel|
                after.contains(x) <==> (x == it || (before.contains(x) && x.name != it.name)) by {
                if after.contains(x) {
                    let i = choose|i: int| 0 <= i < after.len() && after[i] == x;
                    if i < p {
                        assert(before[i] == x);
                    } else if i > p {
                        assert(before[i - 1] == x);
                    }
                }
                if before.contains(x) {
                    let i = choose|i: int| 0 <= i < before.len() && before[i] == x;
                    if i < p {
                        assert(after[i] == x);
                    } else {
                        assert(after[i + 1] == x);
                    }
                }
                if x == it {
                    assert(after[p as int] == x);
                }
            }
            assert(forall|x: TypeModel|
                models(out@).contains(x) <==> (x == item@ || (models(old(out)@).contains(x) && x.name
                    != item@.name)));
        }
    }
}

/// One record more of `src`, the one before position `k`, put in.
proof fn lemma_merge_step(
    src: Seq<TypeModel>,
    k: int,
    before: Seq<TypeModel>,
    after: Seq<TypeModel>,
)
    requires
        0 < k <= src.len(),
        forall|x: TypeModel| before.contains(x) <==> leads_from(src, k, x),
        forall|j: int| k <= j < src.len() ==> has_name(before, (#[trigger] src[j]).name),
        forall|x: TypeModel|
            after.contains(x) <==> (x == src[k - 1] || (before.contains(x) && x.name != src[k - 1].name)),
    ensures
        forall|x: TypeModel| after.contains(x) <==> leads_from(src, k - 1, x),
        forall|j: int| k - 1 <= j < src.len() ==> has_name(after, (#[trigger] src[j]).name),
{
    let item = src[k - 1];
    assert forall|x: TypeModel| after.contains(x) <==> leads_from(src, k - 1, x) by {
        if after.contains(x) {
            if x == item {
                assert(first_from(src, k - 1, k - 1));
            } else {
                assert(leads_from(src, k, x));
                let j = choose|j: int| first_from(src, k, j) && src[j] == x;
                assert(first_from(src, k - 1, j));
            }
        }
        if leads_from(src, k - 1, x) {
            let j = choose|j: int| first_from(src, k - 1, j) && src[j] == x;
            if j != k - 1 {
                assert(first_from(src, k, j));
                assert(leads_from(src, k, x));
                assert(src[k - 1].name != src[j].name);
            }
        }
    }
    assert(after.contains(item));
    assert forall|j: int| k - 1 <= j < src.len() implies has_name(after, (#[trigger] src[j]).name) by {
        if j == k - 1 {
            let i = choose|i: int| 0 <= i < after.len() && after[i] == item;
            assert(after[i].name == src[j].name);
        } else {
            let i = choose|i: int| 0 <= i < before.len() && (#[trigger] before[i]).name == src[j].name;
            let y = before[i];
            assert(before.contains(y));
            if y.name == item.name {
                let i2 = choose|i2: int| 0 <= i2 < after.len() && after[i2] == item;
                assert(after[i2].name == src[j].name);
            } else {
                assert(after.contains(y));
                let i2 = choose|i2: int| 0 <= i2 < after.len() && after[i2] == y;
                assert(after[i2].name == src[j].name);
            }
        }
    }
}

impl Types {
    /// Merges `extension` into this collection: of each name that either
    /// holds, one record, the extension's where it has one, and the records
    /// in increasing order of name.
    pub fn merge(self, extension: Types) -> (r: Types)
        ensures
            is_merge(r@, self@, extension@),
    {
        let ghost src = extension@ + self@;
        let ghost base_all = self@;
        let ghost ext_all = extension@;
        let mut base = self.types;
        let mut ext = extension.types;
        let mut out: Vec<Type> = Vec::new();
        proof {
            assert(models(base@).subrange(0, base@.len() as int) =~= models(base@));
            assert(models(out@) =~= Seq::<TypeModel>::empty());
        }
        while base.len() > 0
            invariant
                src == ext_all + base_all,
                models(ext@) == ext_all,
                models(base@) == base_all.subrange(0, base@.len() as int),
                base@.len() <= base_all.len(),
                sorted_by_name(models(out@)),
                forall|x: TypeModel|
                    models(out@).contains(x) <==> leads_from(src, (ext@.len() + base@.len()) as int, x),
                forall|j: int|
                    ext@.len() + base@.len() <= j < src.len() ==> has_name(
                        models(out@),
                        (#[trigger] src[j]).name,
                    ),
            decreases base@.len(),
        {
            let ghost k = (ext@.len() + base@.len()) as int;
            let ghost before = models(out@);
            let ghost old_base = base@;
            match base.pop() {
                Some(item) => {
                    proof {
                        assert(item@ == models(old_base)[old_base.len() - 1]);
                        assert(src[k - 1] == item@);
                        assert(models(base@) =~= base_all.subrange(0, base@.len() as int));
                    }
                    place(&mut out, item);
                    proof {
                        lemma_merge_step(src, k, before, models(out@));
                    }
                },
                None => {},
            }
        }
        proof {
            assert(models(ext@).subrange(0, ext@.len() as int) =~= models(ext@));
        }
        while ext.len() > 0
            invariant
                src == ext_all + base_all,
                models(ext@) == ext_all.subrange(0, ext@.len() as int),
                ext@.len() <= ext_all.len(),
                sorted_by_name(models(out@)),
                forall|x: TypeModel| models(out@).contains(x) <==> leads_from(src, ext@.len() as int, x),
                forall|j: int|
                    ext@.len() <= j < src.len() ==> has_name(models(out@), (#[trigger] src[j]).name),
            decreases ext@.len(),
        {
            let ghost k = ext@.len() as int;
            let ghost before = models(out@);
            let ghost old_ext = ext@;
            match ext.pop() {
                Some(item) => {
                    proof {
                        assert(item@ == models(old_ext)[old_ext.len() - 1]);
                        assert(src[k - 1] == item@);
                        assert(models(ext@) =~= ext_all.subrange(0, ext@.len() as int));
                    }
                    place(&mut out, item);
                    proof {
                        lemma_merge_step(src, k, before, models(out@));
                    }
                },
                None => {},
            }
        }
        Types { types: out }
    }
}

impl Types {
    /// Sets one field of the first record whose name matches `name` up to
    /// ASCII case; where none does, reports `NotFound` and changes nothing.
    pub fn set_value(&mut self, name: &str, field_value: &FieldValue) -> (r: Result<(), Error>)
        ensures
            !has_name_ignoring_case(old(self)@, name@) ==> r == Err::<(), Error>(Error::NotFound)
                && final(self)@ == old(self)@,
            has_name_ignoring_case(old(self)@, name@) ==> r is Ok && exists|i: int|
                first_named_ignoring_case(old(self)@, name@, i) && final(self)@ == old(self)@.update(
                    i,
                    with_field(*field_value, old(self)@[i]),
                ),
    {
        match self.position_ignoring_case(name) {
            Some(i) => {
                field_value.set(&mut self.types[i]);
                proof {
                    assert(models(self.types@) =~= old(self)@.update(
                        i as int,
                        with_field(*field_value, old(self)@[i as int]),
                    ));
                }
                Ok(())
            },
            None => Err(Error::NotFound),
        }
    }
}

} // verus!
