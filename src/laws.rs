//! What holds of every merge, proved from what `Types::merge` ensures.
use crate::number::{
    decimal_text, digit_chars, is_digit, lemma_decimal_text, lemma_signed_round_trip,
    lemma_unsigned_round_trip, signed_text, u32_of, u8_of, i64_of,
};
use crate::order::{lemma_name_lt_irreflexive, lemma_name_lt_transitive};
use crate::raw;
use crate::record::{lenient_model, present_names, strict_model, strict_ok, TypeModel};
use crate::util::{bool_or_false, is_xml_space, trim_end, trim_start, trimmed, xml_bool_of};
use crate::xml::{bit, opt_decimal, opt_signed};
use crate::types::{
    first_from, has_name, is_merge, lenient_models, names, sorted_by_name, strict_all_ok, strict_models,
    unique_names,
};
use vstd::prelude::*;

verus! {

/// Records in strictly increasing order of name have pairwise different
/// names.
pub proof fn lemma_sorted_unique(s: Seq<TypeModel>)
    requires
        sorted_by_name(s),
    ensures
        unique_names(s),
{
    assert forall|i: int, j: int|
        0 <= i < s.len() && 0 <= j < s.len() && i != j implies (#[trigger] s[i]).name
        != (#[trigger] s[j]).name by {
        lemma_name_lt_irreflexive(s[i].name);
    }
}

/// Records with pairwise different names are as many as their names.
pub proof fn lemma_unique_names_len(s: Seq<TypeModel>)
    requires
        unique_names(s),
    ensures
        names(s).finite(),
        names(s).len() == s.len(),
    decreases s.len(),
{
    if s.len() == 0 {
        assert(names(s) =~= Set::<Seq<char>>::empty());
    } else {
        let t = s.drop_last();
        assert(unique_names(t)) by {
            assert forall|i: int, j: int|
                0 <= i < t.len() && 0 <= j < t.len() && i != j implies (#[trigger] t[i]).name
                != (#[trigger] t[j]).name by {
                assert(t[i] == s[i] && t[j] == s[j]);
            }
        }
        lemma_unique_names_len(t);
        assert forall|n: Seq<char>| #[trigger] names(s).contains(n) <==> names(t).insert(s.last().name).contains(n) by {
            if has_name(s, n) {
                let i = choose|i: int| 0 <= i < s.len() && (#[trigger] s[i]).name == n;
                if i < t.len() {
                    assert(t[i] == s[i]);
                }
            }
            if has_name(t, n) {
                let i = choose|i: int| 0 <= i < t.len() && (#[trigger] t[i]).name == n;
                assert(s[i] == t[i]);
            }
            assert(s[s.len() - 1].name == s.last().name);
        }
        assert(names(s) =~= names(t).insert(s.last().name));
        assert(!names(t).contains(s.last().name)) by {
            if has_name(t, s.last().name) {
                let i = choose|i: int| 0 <= i < t.len() && (#[trigger] t[i]).name == s.last().name;
                assert(s[i] == t[i]);
            }
        }
    }
}

/// Two lists of records in strictly increasing order of name that hold the
/// same records are the same list.
pub proof fn lemma_sorted_same_records(s: Seq<TypeModel>, t: Seq<TypeModel>)
    requires
        sorted_by_name(s),
        sorted_by_name(t),
        forall|x: TypeModel| s.contains(x) <==> t.contains(x),
    ensures
        s == t,
    decreases s.len(),
{
    if s.len() == 0 {
        if t.len() > 0 {
            assert(t.contains(t[0]));
        }
        assert(s =~= t);
    } else {
        assert(s.contains(s[0]));
        assert(t.len() > 0);
        assert(t.contains(t[0]));
        let k = choose|k: int| 0 <= k < s.len() && s[k] == t[0];
        let m = choose|m: int| 0 <= m < t.len() && t[m] == s[0];
        if k > 0 && m > 0 {
            lemma_name_lt_transitive(s[0].name, t[0].name, s[0].name);
            lemma_name_lt_irreflexive(s[0].name);
        }
        assert(s[0] == t[0]) by {
            if k > 0 {
                lemma_name_lt_irreflexive(t[0].name);
            }
        }
        let s1 = s.drop_first();
        let t1 = t.drop_first();
        assert forall|x: TypeModel| s1.contains(x) <==> t1.contains(x) by {
            if s1.contains(x) {
                let i = choose|i: int| 0 <= i < s1.len() && s1[i] == x;
                assert(s[i + 1] == x);
                assert(s.contains(x));
                let j = choose|j: int| 0 <= j < t.len() && t[j] == x;
                if j == 0 {
                    lemma_name_lt_irreflexive(s[0].name);
                }
                assert(t1[j - 1] == x);
            }
            if t1.contains(x) {
                let i = choose|i: int| 0 <= i < t1.len() && t1[i] == x;
                assert(t[i + 1] == x);
                assert(t.contains(x));
                let j = choose|j: int| 0 <= j < s.len() && s[j] == x;
                if j == 0 {
                    lemma_name_lt_irreflexive(t[0].name);
                }
                assert(s1[j - 1] == x);
            }
        }
        lemma_sorted_same_records(s1, t1);
        assert(s =~= t1.insert(0, t[0]));
        assert(t =~= t1.insert(0, t[0]));
    }
}

/// A merge holds exactly the names of the base and of the extension
/// together, one record for each.
pub proof fn lemma_merge_names(base: Seq<TypeModel>, extension: Seq<TypeModel>, merged: Seq<TypeModel>)
    requires
        is_merge(merged, base, extension),
    ensures
        names(merged) == names(base).union(names(extension)),
        merged.len() == names(base).union(names(extension)).len(),
{
    let src = extension + base;
    assert forall|n: Seq<char>| #[trigger] names(merged).contains(n) <==> names(base).union(
        names(extension),
    ).contains(n) by {
        if has_name(merged, n) {
            let i = choose|i: int| 0 <= i < merged.len() && (#[trigger] merged[i]).name == n;
            assert(merged.contains(merged[i]));
            let j = choose|j: int| first_from(src, 0, j) && src[j] == merged[i];
            if j < extension.len() {
                assert(extension[j] == src[j]);
            } else {
                assert(base[j - extension.len()] == src[j]);
            }
        }
        if has_name(extension, n) {
            let j = choose|j: int| 0 <= j < extension.len() && (#[trigger] extension[j]).name == n;
            assert(src[j] == extension[j]);
        }
        if has_name(base, n) {
            let j = choose|j: int| 0 <= j < base.len() && (#[trigger] base[j]).name == n;
            assert(src[extension.len() + j] == base[j]);
        }
    }
    assert(names(merged) =~= names(base).union(names(extension)));
    lemma_sorted_unique(merged);
    lemma_unique_names_len(merged);
}

/// Where the extension, whose names are unique, holds a record, the merge
/// holds that very record, and no other of that name.
pub proof fn lemma_merge_extension_wins(
    base: Seq<TypeModel>,
    extension: Seq<TypeModel>,
    merged: Seq<TypeModel>,
    j: int,
)
    requires
        is_merge(merged, base, extension),
        unique_names(extension),
        0 <= j < extension.len(),
    ensures
        merged.contains(extension[j]),
        forall|i: int|
            0 <= i < merged.len() && (#[trigger] merged[i]).name == extension[j].name ==> merged[i]
                == extension[j],
{
    let src = extension + base;
    assert(src[j] == extension[j]);
    assert forall|i: int|
        0 <= i < merged.len() && (#[trigger] merged[i]).name == extension[j].name implies merged[i]
        == extension[j] by {
        assert(merged.contains(merged[i]));
        let j2 = choose|j2: int| first_from(src, 0, j2) && src[j2] == merged[i];
        if j2 > j {
            assert(src[j].name == src[j2].name);
        }
        assert(src[j2] == extension[j2]);
    }
    let i = choose|i: int| 0 <= i < merged.len() && (#[trigger] merged[i]).name == src[j].name;
    assert(merged[i] == extension[j]);
}

/// Merging the same extension a second time changes nothing.
pub proof fn lemma_merge_idempotent(
    base: Seq<TypeModel>,
    extension: Seq<TypeModel>,
    merged: Seq<TypeModel>,
    merged_again: Seq<TypeModel>,
)
    requires
        is_merge(merged, base, extension),
        is_merge(merged_again, merged, extension),
    ensures
        merged_again == merged,
{
    let src = extension + base;
    let src2 = extension + merged;
    lemma_sorted_unique(merged);
    assert forall|x: TypeModel| merged_again.contains(x) implies merged.contains(x) by {
        let j = choose|j: int| first_from(src2, 0, j) && src2[j] == x;
        if j < extension.len() {
            assert(src[j] == extension[j] && src2[j] == extension[j]);
            let i = choose|i: int| 0 <= i < merged.len() && (#[trigger] merged[i]).name == src[j].name;
            assert(merged.contains(merged[i]));
            let j1 = choose|j1: int| first_from(src, 0, j1) && src[j1] == merged[i];
            if j1 > j {
                assert(src[j].name == src[j1].name);
            }
            if j1 < j {
                assert(src2[j1] == extension[j1]);
            }
            assert(j1 == j);
        } else {
            assert(merged[j - extension.len()] == x);
        }
    }
    assert forall|x: TypeModel| merged.contains(x) implies merged_again.contains(x) by {
        let i = choose|i: int| 0 <= i < merged.len() && merged[i] == x;
        assert(src2[extension.len() + i] == x);
        let i2 = choose|i2: int| 0 <= i2 < merged_again.len() && (#[trigger] merged_again[i2]).name == src2[extension.len() + i].name;
        let z = merged_again[i2];
        assert(merged_again.contains(z));
        assert(merged.contains(z));
        let iz = choose|iz: int| 0 <= iz < merged.len() && merged[iz] == z;
        assert(iz == i);
    }
    lemma_sorted_same_records(merged_again, merged);
}

/// Whether `o` holds the text `t`, or neither is there.
pub open spec fn holds_text(o: Option<String>, t: Option<Seq<char>>) -> bool {
    match o {
        Some(s) => t == Some(s@),
        None => t is None,
    }
}

/// Whether a list of references in a document holds the names of `names`:
/// a list of no names is written as no element at all.
pub open spec fn written_list(v: Option<Vec<raw::Named>>, names: Option<Seq<Seq<char>>>) -> bool {
    match v {
        Some(v) => v@.len() > 0 && names is Some && names->0.len() == v@.len() && forall|i: int|
            0 <= i < v@.len() ==> holds_text((#[trigger] v@[i]).name, Some(names->0[i])),
        None => names is None || names == Some(Seq::<Seq<char>>::empty()),
    }
}

/// Whether `raw` is the document tree of the XML that is written for `t`:
/// each number as its decimal text, each switch as `0` or `1`, each name as
/// it is, and what is absent left out.
pub open spec fn written_tree(raw: raw::Type, t: TypeModel) -> bool {
    &&& raw.name@ == t.name
    &&& holds_text(
        raw.nominal,
        opt_decimal(
            match t.nominal {
                Some(v) => Some(v as nat),
                None => None,
            },
        ),
    )
    &&& holds_text(raw.lifetime, Some(decimal_text(t.lifetime as nat)))
    &&& holds_text(
        raw.restock,
        opt_decimal(
            match t.restock {
                Some(v) => Some(v as nat),
                None => None,
            },
        ),
    )
    &&& holds_text(raw.min, Some(decimal_text(t.min as nat)))
    &&& holds_text(raw.quantmin, opt_signed(t.quantmin))
    &&& holds_text(raw.quantmax, Some(signed_text(t.quantmax as int)))
    &&& holds_text(
        raw.cost,
        opt_decimal(
            match t.cost {
                Some(v) => Some(v as nat),
                None => None,
            },
        ),
    )
    &&& raw.flags is Some
    &&& holds_text(raw.flags->0.count_in_cargo, Some(bit(t.flags.count_in_cargo)))
    &&& holds_text(raw.flags->0.count_in_hoarder, Some(bit(t.flags.count_in_hoarder)))
    &&& holds_text(raw.flags->0.count_in_map, Some(bit(t.flags.count_in_map)))
    &&& holds_text(raw.flags->0.count_in_player, Some(bit(t.flags.count_in_player)))
    &&& holds_text(raw.flags->0.crafted, Some(bit(t.flags.crafted)))
    &&& holds_text(raw.flags->0.deloot, Some(bit(t.flags.deloot)))
    &&& match raw.category {
        Some(c) => t.category is Some && holds_text(c.name, t.category),
        None => t.category is None,
    }
    &&& written_list(raw.usages, t.usages)
    &&& written_list(raw.values, t.values)
}

proof fn lemma_trimmed_unchanged(s: Seq<char>)
    requires
        s.len() > 0,
        !is_xml_space(s[0]),
        !is_xml_space(s.last()),
    ensures
        trimmed(s) == s,
{
    assert(trim_start(s) == s);
    assert(trim_end(s) == s);
}

proof fn lemma_digit_not_space(c: char)
    requires
        is_digit(c),
    ensures
        !is_xml_space(c),
{
}

proof fn lemma_decimal_reads_back(n: nat)
    ensures
        trimmed(decimal_text(n)) == decimal_text(n),
        n <= u8::MAX ==> u8_of(decimal_text(n)) == Some(n as u8),
        n <= u32::MAX ==> u32_of(decimal_text(n)) == Some(n as u32),
{
    lemma_decimal_text(n);
    lemma_unsigned_round_trip(n);
    let t = decimal_text(n);
    assert(is_digit(t[0]));
    assert(is_digit(t[t.len() - 1]));
    lemma_digit_not_space(t[0]);
    lemma_digit_not_space(t.last());
    lemma_trimmed_unchanged(t);
}

proof fn lemma_signed_reads_back(v: i64)
    ensures
        trimmed(signed_text(v as int)) == signed_text(v as int),
        i64_of(signed_text(v as int)) == Some(v),
{
    lemma_signed_round_trip(v as int);
    let m = if v < 0 {
        (-(v as int)) as nat
    } else {
        v as nat
    };
    lemma_decimal_text(m);
    let d = decimal_text(m);
    let t = signed_text(v as int);
    assert(is_digit(d[d.len() - 1]));
    lemma_digit_not_space(d.last());
    if v < 0 {
        assert(t[0] == '-');
        assert(t.last() == d.last());
    } else {
        assert(is_digit(d[0]));
        lemma_digit_not_space(d[0]);
    }
    lemma_trimmed_unchanged(t);
}

proof fn lemma_bit_reads_back(b: bool)
    ensures
        xml_bool_of(bit(b)) == Some(b),
        trimmed(bit(b)) == bit(b),
        bool_or_false(bit(b)) == b,
{
    reveal_strlit("1");
    reveal_strlit("0");
    assert("1"@ =~= decimal_text(1));
    assert("0"@ =~= decimal_text(0));
    lemma_decimal_reads_back(1);
    lemma_decimal_reads_back(0);
    assert(digit_chars()[0] == '0');
    assert(digit_chars()[1] == '1');
}

proof fn lemma_list_reads_back(v: Seq<raw::Named>, names: Seq<Seq<char>>)
    requires
        names.len() == v.len(),
        forall|i: int| 0 <= i < v.len() ==> holds_text((#[trigger] v[i]).name, Some(names[i])),
    ensures
        present_names(v) == names,
        forall|i: int| 0 <= i < v.len() ==> (#[trigger] v[i]).name is Some,
    decreases v.len(),
{
    if v.len() > 0 {
        let w = v.drop_last();
        assert forall|i: int| 0 <= i < w.len() implies holds_text(
            (#[trigger] w[i]).name,
            Some(names.drop_last()[i]),
        ) by {
            assert(w[i] == v[i]);
        }
        lemma_list_reads_back(w, names.drop_last());
        assert(holds_text(v[v.len() - 1].name, Some(names[v.len() - 1])));
        assert(names =~= names.drop_last().push(names.last()));
    } else {
        assert(names =~= Seq::<Seq<char>>::empty());
    }
}

/// The document tree of what is written for a record reads back, strictly
/// and leniently, as that very record, unless the record holds a list of
/// usages or values with no names in it, which is written as no list.
pub proof fn lemma_written_tree_reads_back(raw: raw::Type, t: TypeModel)
    requires
        written_tree(raw, t),
        t.usages != Some(Seq::<Seq<char>>::empty()),
        t.values != Some(Seq::<Seq<char>>::empty()),
    ensures
        strict_ok(raw),
        strict_model(raw) == t,
        lenient_model(raw) == t,
{
    match t.nominal {
        Some(v) => lemma_decimal_reads_back(v as nat),
        None => {},
    }
    lemma_decimal_reads_back(t.lifetime as nat);
    match t.restock {
        Some(v) => lemma_decimal_reads_back(v as nat),
        None => {},
    }
    lemma_decimal_reads_back(t.min as nat);
    match t.quantmin {
        Some(v) => lemma_signed_reads_back(v),
        None => {},
    }
    lemma_signed_reads_back(t.quantmax);
    match t.cost {
        Some(v) => lemma_decimal_reads_back(v as nat),
        None => {},
    }
    lemma_bit_reads_back(t.flags.count_in_cargo);
    lemma_bit_reads_back(t.flags.count_in_hoarder);
    lemma_bit_reads_back(t.flags.count_in_map);
    lemma_bit_reads_back(t.flags.count_in_player);
    lemma_bit_reads_back(t.flags.crafted);
    lemma_bit_reads_back(t.flags.deloot);
    match raw.usages {
        Some(v) => lemma_list_reads_back(v@, t.usages->0),
        None => {},
    }
    match raw.values {
        Some(v) => lemma_list_reads_back(v@, t.values->0),
        None => {},
    }
    assert(strict_model(raw) == t);
    assert(lenient_model(raw) == t);
}

/// Whether `raw` is the document tree of the XML that is written for the
/// records `ts`: no `type` element where there is no record, else one tree
/// per record, in order.
pub open spec fn written_document(raw: raw::Types, ts: Seq<TypeModel>) -> bool {
    match raw.types {
        Some(v) => ts.len() > 0 && v@.len() == ts.len() && forall|i: int|
            0 <= i < ts.len() ==> written_tree(#[trigger] v@[i], ts[i]),
        None => ts.len() == 0,
    }
}

/// The document tree of what is written for a collection reads back,
/// strictly and leniently, as that very collection, unless a record holds
/// a list of usages or values with no names in it.
pub proof fn lemma_written_document_reads_back(raw: raw::Types, ts: Seq<TypeModel>)
    requires
        written_document(raw, ts),
        forall|i: int|
            0 <= i < ts.len() ==> (#[trigger] ts[i]).usages != Some(Seq::<Seq<char>>::empty())
                && ts[i].values != Some(Seq::<Seq<char>>::empty()),
    ensures
        strict_all_ok(raw),
        strict_models(raw) == ts,
        lenient_models(raw) == ts,
{
    match raw.types {
        Some(v) => {
            assert forall|i: int| 0 <= i < v@.len() implies strict_ok(#[trigger] v@[i]) && strict_model(
                v@[i],
            ) == ts[i] && lenient_model(v@[i]) == ts[i] by {
                lemma_written_tree_reads_back(v@[i], ts[i]);
            }
            assert(strict_models(raw) =~= ts);
            assert(lenient_models(raw) =~= ts);
        },
        None => {
            assert(strict_models(raw) =~= ts);
            assert(lenient_models(raw) =~= ts);
        },
    }
}

/// A record whose `lifetime` is absent, or is not a `u32` in decimal as it
/// stands, reads leniently with a lifetime of zero rather than failing.
pub proof fn lemma_lenient_lifetime_defaults(raw: raw::Type)
    requires
        match raw.lifetime {
            Some(s) => u32_of(s@) is None,
            None => true,
        },
    ensures
        lenient_model(raw).lifetime == 0,
{
}

/// Adding a record keeps the names of a collection unique: a record whose
/// name is there already is not added.
pub proof fn lemma_add_keeps_names_unique(s: Seq<TypeModel>, t: TypeModel)
    requires
        unique_names(s),
    ensures
        unique_names(if has_name(s, t.name) { s } else { s.push(t) }),
{
    if !has_name(s, t.name) {
        let r = s.push(t);
        assert forall|i: int, j: int|
            0 <= i < r.len() && 0 <= j < r.len() && i != j implies (#[trigger] r[i]).name
            != (#[trigger] r[j]).name by {
            if i == s.len() {
                assert(s[j] == r[j]);
            } else if j == s.len() {
                assert(s[i] == r[i]);
            } else {
                assert(s[i] == r[i] && s[j] == r[j]);
            }
        }
    }
}

/// Merging a collection whose names are unique with itself gives its own
/// records, in order of name.
pub proof fn lemma_merge_with_itself(base: Seq<TypeModel>, merged: Seq<TypeModel>)
    requires
        is_merge(merged, base, base),
        unique_names(base),
    ensures
        sorted_by_name(merged),
        forall|x: TypeModel| merged.contains(x) <==> base.contains(x),
{
    let src = base + base;
    assert forall|x: TypeModel| merged.contains(x) <==> base.contains(x) by {
        if merged.contains(x) {
            let j = choose|j: int| first_from(src, 0, j) && src[j] == x;
            if j >= base.len() {
                assert(src[j - base.len()] == src[j]);
            }
            assert(base[j] == x);
        }
        if base.contains(x) {
            let i = choose|i: int| 0 <= i < base.len() && base[i] == x;
            assert(src[i] == x);
            let k = choose|k: int| 0 <= k < merged.len() && (#[trigger] merged[k]).name == src[i].name;
            assert(merged.contains(merged[k]));
            let j = choose|j: int| first_from(src, 0, j) && src[j] == merged[k];
            if j >= base.len() {
                assert(src[j - base.len()] == src[j]);
            }
            if j > i {
                assert(src[i].name == src[j].name);
            }
            assert(base[j] == merged[k]);
            assert(j == i);
        }
    }
}

} // verus!
