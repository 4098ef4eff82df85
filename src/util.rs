use crate::named::{names_of, Named};
use crate::number::{decimal_value, integer_is_nonzero};
use vstd::prelude::*;

verus! {

/// The text `true`.
pub open spec fn true_text() -> Seq<char> {
    seq!['t', 'r', 'u', 'e']
}

/// The text `false`.
pub open spec fn false_text() -> Seq<char> {
    seq!['f', 'a', 'l', 's', 'e']
}

/// A flag value read leniently: the words `true` and `false`, or a decimal
/// integer of any size, with an optional sign, true where it is not zero;
/// anything else is false.
pub open spec fn bool_or_false(s: Seq<char>) -> bool {
    if s == true_text() {
        true
    } else if s == false_text() {
        false
    } else {
        match decimal_value(s, true) {
            Some(v) => v != 0,
            None => false,
        }
    }
}

/// The whitespace that XML allows around a value.
pub open spec fn is_xml_space(c: char) -> bool {
    c == ' ' || c == '\t' || c == '\r' || c == '\n'
}

/// `s` without the XML whitespace at its start.
pub open spec fn trim_start(s: Seq<char>) -> Seq<char>
    decreases s.len(),
{
    if s.len() > 0 && is_xml_space(s[0]) {
        trim_start(s.drop_first())
    } else {
        s
    }
}

/// `s` without the XML whitespace at its end.
pub open spec fn trim_end(s: Seq<char>) -> Seq<char>
    decreases s.len(),
{
    if s.len() > 0 && is_xml_space(s.last()) {
        trim_end(s.drop_last())
    } else {
        s
    }
}

/// `s` without the XML whitespace at either end.
pub open spec fn trimmed(s: Seq<char>) -> Seq<char> {
    trim_end(trim_start(s))
}

/// A flag value read strictly: `1` or `true`, `0` or `false`, with XML
/// whitespace around it allowed; anything else is refused.
pub open spec fn xml_bool_of(s: Seq<char>) -> Option<bool> {
    let t = trimmed(s);
    if t == seq!['1'] || t == true_text() {
        Some(true)
    } else if t == seq!['0'] || t == false_text() {
        Some(false)
    } else {
        None
    }
}

/// Whether two strings hold the same characters.
pub fn str_eq(a: &str, b: &str) -> (r: bool)
    ensures
        r == (a@ == b@),
{
    let n = a.unicode_len();
    if n != b.unicode_len() {
        return false;
    }
    let mut i: usize = 0;
    while i < n
        invariant
            n == a@.len() == b@.len(),
            i <= n,
            forall|k: int| 0 <= k < i ==> a@[k] == b@[k],
        decreases n - i,
    {
        if a.get_char(i) != b.get_char(i) {
            return false;
        }
        i = i + 1;
    }
    proof {
        assert(a@ =~= b@);
    }
    true
}

/// Reads a flag value leniently: `true` and `false`, or a decimal integer
/// of any size, where any value but zero means true; anything else means
/// false.
pub fn parse_bool_or_false(string: &str) -> (r: bool)
    ensures
        r == bool_or_false(string@),
{
    proof {
        reveal_strlit("true");
        reveal_strlit("false");
        assert("true"@ =~= true_text());
        assert("false"@ =~= false_text());
    }
    if str_eq(string, "true") {
        true
    } else if str_eq(string, "false") {
        false
    } else {
        match integer_is_nonzero(string) {
            Some(nonzero) => nonzero,
            None => false,
        }
    }
}

proof fn lemma_trim_start(s: Seq<char>, a: int)
    requires
        0 <= a <= s.len(),
        forall|k: int| 0 <= k < a ==> is_xml_space(#[trigger] s[k]),
        a == s.len() || !is_xml_space(s[a]),
    ensures
        trim_start(s) == s.subrange(a, s.len() as int),
    decreases a,
{
    if a == 0 {
        assert(s.subrange(0, s.len() as int) =~= s);
    } else {
        let t = s.drop_first();
        assert forall|k: int| 0 <= k < a - 1 implies is_xml_space(#[trigger] t[k]) by {
            assert(t[k] == s[k + 1]);
        }
        lemma_trim_start(t, a - 1);
        assert(t.subrange(a - 1, t.len() as int) =~= s.subrange(a, s.len() as int));
    }
}

proof fn lemma_trim_end(s: Seq<char>, b: int)
    requires
        0 <= b <= s.len(),
        forall|k: int| b <= k < s.len() ==> is_xml_space(#[trigger] s[k]),
        b == 0 || !is_xml_space(s[b - 1]),
    ensures
        trim_end(s) == s.subrange(0, b),
    decreases s.len() - b,
{
    if b == s.len() {
        assert(s.subrange(0, b) =~= s);
    } else {
        let t = s.drop_last();
        assert forall|k: int| b <= k < t.len() implies is_xml_space(#[trigger] t[k]) by {
            assert(t[k] == s[k]);
        }
        lemma_trim_end(t, b);
        assert(t.subrange(0, b) =~= s.subrange(0, b));
    }
}

/// `s` without the XML whitespace at either end.
pub fn trim_xml_spaces(s: &str) -> (r: &str)
    ensures
        r@ == trimmed(s@),
{
    let n = s.unicode_len();
    let mut a: usize = 0;
    while a < n
        invariant
            n == s@.len(),
            a <= n,
            forall|k: int| 0 <= k < a ==> is_xml_space(#[trigger] s@[k]),
        ensures
            a <= n,
            a == n || !is_xml_space(s@[a as int]),
        decreases n - a,
    {
        let c = s.get_char(a);
        if !(c == ' ' || c == '\t' || c == '\r' || c == '\n') {
            break;
        }
        a = a + 1;
    }
    let mut b: usize = n;
    while b > a
        invariant
            n == s@.len(),
            a <= b <= n,
            forall|k: int| b <= k < n ==> is_xml_space(#[trigger] s@[k]),
        ensures
            a <= b <= n,
            b == a || !is_xml_space(s@[b - 1]),
        decreases b,
    {
        let c = s.get_char(b - 1);
        if !(c == ' ' || c == '\t' || c == '\r' || c == '\n') {
            break;
        }
        b = b - 1;
    }
    proof {
        lemma_trim_start(s@, a as int);
        let t = s@.subrange(a as int, n as int);
        assert forall|k: int| b - a <= k < t.len() implies is_xml_space(#[trigger] t[k]) by {
            assert(t[k] == s@[k + a]);
        }
        if b > a {
            assert(t[b - a - 1] == s@[b - 1]);
        }
        lemma_trim_end(t, b - a);
        assert(t.subrange(0, b - a) =~= s@.subrange(a as int, b as int));
    }
    s.substring_char(a, b)
}

/// Reads a flag value strictly: `1` or `true`, `0` or `false`, with XML
/// whitespace around it allowed.
pub fn parse_xml_bool(s: &str) -> (r: Option<bool>)
    ensures
        r == xml_bool_of(s@),
{
    let t = trim_xml_spaces(s);
    proof {
        reveal_strlit("1");
        reveal_strlit("0");
        reveal_strlit("true");
        reveal_strlit("false");
        assert("1"@ =~= seq!['1']);
        assert("0"@ =~= seq!['0']);
        assert("true"@ =~= true_text());
        assert("false"@ =~= false_text());
    }
    if str_eq(t, "1") || str_eq(t, "true") {
        Some(true)
    } else if str_eq(t, "0") || str_eq(t, "false") {
        Some(false)
    } else {
        None
    }
}

/// Concatenation is associative.
pub proof fn lemma_concat_assoc(a: Seq<char>, b: Seq<char>, c: Seq<char>)
    ensures
        a + b + c == a + (b + c),
{
    assert(a + b + c =~= a + (b + c));
}

/// The names of `items` joined by `, `.
pub open spec fn joined(items: Seq<Seq<char>>) -> Seq<char>
    decreases items.len(),
{
    if items.len() == 0 {
        Seq::empty()
    } else if items.len() == 1 {
        items[0]
    } else {
        joined(items.drop_last()) + ", "@ + items.last()
    }
}

/// A list written for people: `prefix`, then the names between `[ ` and
/// ` ]`, separated by `, `.
pub open spec fn slice_text(prefix: Seq<char>, items: Seq<Seq<char>>) -> Seq<char> {
    prefix + "[ "@ + joined(items) + " ]"@
}

/// Appends `prefix` and the names of `items` as a list written for people.
pub fn fmt_slice(out: &mut String, prefix: &str, items: &[Named])
    ensures
        final(out)@ == old(out)@ + slice_text(prefix@, names_of(items@)),
{
    out.append(prefix);
    out.append("[ ");
    let ghost start = out@;
    let ghost all = names_of(items@);
    let mut i: usize = 0;
    proof {
        assert(all.subrange(0, 0) =~= Seq::<Seq<char>>::empty());
        assert(out@ =~= start + joined(all.subrange(0, 0)));
    }
    while i < items.len()
        invariant
            i <= items@.len(),
            all == names_of(items@),
            out@ == start + joined(all.subrange(0, i as int)),
        decreases items@.len() - i,
    {
        if i > 0 {
            out.append(", ");
        }
        out.append(items[i].name());
        proof {
            let next = all.subrange(0, i + 1);
            assert(next.drop_last() =~= all.subrange(0, i as int));
            assert(next.last() == items@[i as int]@);
            if i == 0 {
                assert(next =~= seq![items@[0]@]);
            }
            assert(out@ =~= start + joined(next));
        }
        i = i + 1;
    }
    out.append(" ]");
    proof {
        assert(all.subrange(0, items@.len() as int) =~= all);
        assert(out@ =~= old(out)@ + slice_text(prefix@, names_of(items@)));
    }
}

} // verus!
