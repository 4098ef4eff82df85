use vstd::prelude::*;

verus! {

/// Whether `c` is one of the ASCII digits `0` to `9`.
pub open spec fn is_digit(c: char) -> bool {
    48 <= c as u32 <= 57
}

/// The value of the ASCII digit `c`.
pub open spec fn digit_value(c: char) -> nat {
    ((c as u32) - 48) as nat
}

/// A non-empty run of digits.
pub open spec fn is_digits(s: Seq<char>) -> bool {
    s.len() > 0 && forall|i: int| 0 <= i < s.len() ==> is_digit(#[trigger] s[i])
}

/// The number that a run of decimal digits denotes.
pub open spec fn digits_value(s: Seq<char>) -> nat
    decreases s.len(),
{
    if s.len() == 0 {
        0
    } else {
        digits_value(s.drop_last()) * 10 + digit_value(s.last())
    }
}

/// The integer that `s` denotes in decimal: an optional sign (`-` only where
/// `signed`) followed by at least one digit, and nothing else.
pub open spec fn decimal_value(s: Seq<char>, signed: bool) -> Option<int> {
    if s.len() > 0 && s[0] == '+' {
        if is_digits(s.drop_first()) {
            Some(digits_value(s.drop_first()) as int)
        } else {
            None
        }
    } else if signed && s.len() > 0 && s[0] == '-' {
        if is_digits(s.drop_first()) {
            Some(-(digits_value(s.drop_first()) as int))
        } else {
            None
        }
    } else if is_digits(s) {
        Some(digits_value(s) as int)
    } else {
        None
    }
}

/// What parsing `s` as a `u8` gives: its decimal value where it fits.
pub open spec fn u8_of(s: Seq<char>) -> Option<u8> {
    match decimal_value(s, false) {
        Some(v) => if v <= u8::MAX { Some(v as u8) } else { None },
        None => None,
    }
}

/// What parsing `s` as a `u32` gives: its decimal value where it fits.
pub open spec fn u32_of(s: Seq<char>) -> Option<u32> {
    match decimal_value(s, false) {
        Some(v) => if v <= u32::MAX { Some(v as u32) } else { None },
        None => None,
    }
}

/// What parsing `s` as an `i64` gives: its decimal value where it fits.
pub open spec fn i64_of(s: Seq<char>) -> Option<i64> {
    match decimal_value(s, true) {
        Some(v) => if i64::MIN <= v <= i64::MAX { Some(v as i64) } else { None },
        None => None,
    }
}

/// The ten decimal digits, in order of value.
pub open spec fn digit_chars() -> Seq<char> {
    seq!['0', '1', '2', '3', '4', '5', '6', '7', '8', '9']
}

/// The decimal text of `n`, without sign or leading zeros.
pub open spec fn decimal_text(n: nat) -> Seq<char>
    decreases n,
{
    if n < 10 {
        seq![digit_chars()[n as int]]
    } else {
        decimal_text(n / 10).push(digit_chars()[(n % 10) as int])
    }
}

/// The decimal text of `v`, with a `-` in front where it is negative.
pub open spec fn signed_text(v: int) -> Seq<char> {
    if v < 0 {
        seq!['-'] + decimal_text((-v) as nat)
    } else {
        decimal_text(v as nat)
    }
}

proof fn lemma_digit_char(d: nat)
    requires
        d < 10,
    ensures
        is_digit(digit_chars()[d as int]),
        digit_value(digit_chars()[d as int]) == d,
{
    let c = digit_chars();
    assert(c[0] == '0' && c[1] == '1' && c[2] == '2' && c[3] == '3' && c[4] == '4');
    assert(c[5] == '5' && c[6] == '6' && c[7] == '7' && c[8] == '8' && c[9] == '9');
}

/// The decimal text of a number reads back as that number.
pub proof fn lemma_decimal_text(n: nat)
    ensures
        is_digits(decimal_text(n)),
        digits_value(decimal_text(n)) == n,
    decreases n,
{
    lemma_digit_char(n % 10);
    if n >= 10 {
        lemma_decimal_text(n / 10);
        let t = decimal_text(n);
        assert(t.drop_last() =~= decimal_text(n / 10));
        assert(digits_value(t) == digits_value(t.drop_last()) * 10 + digit_value(t.last()));
        assert(n == (n / 10) * 10 + n % 10);
        assert forall|i: int| 0 <= i < t.len() implies is_digit(#[trigger] t[i]) by {
            if i < t.len() - 1 {
                assert(t[i] == decimal_text(n / 10)[i]);
            }
        }
    } else {
        let t = decimal_text(n);
        assert(t.drop_last() =~= Seq::<char>::empty());
        assert(n % 10 == n);
        assert(digits_value(t) == digits_value(t.drop_last()) * 10 + digit_value(t.last()));
    }
}

/// The text of an unsigned number parses back to it.
pub proof fn lemma_unsigned_round_trip(n: nat)
    ensures
        decimal_value(decimal_text(n), false) == Some(n as int),
        decimal_value(decimal_text(n), true) == Some(n as int),
{
    lemma_decimal_text(n);
    let t = decimal_text(n);
    assert(is_digit(t[0]));
}

/// The text of a signed number parses back to it.
pub proof fn lemma_signed_round_trip(v: int)
    ensures
        decimal_value(signed_text(v), true) == Some(v),
{
    if v < 0 {
        lemma_decimal_text((-v) as nat);
        let t = signed_text(v);
        assert(t.drop_first() =~= decimal_text((-v) as nat));
    } else {
        lemma_unsigned_round_trip(v as nat);
    }
}

proof fn lemma_digits_value_grows(s: Seq<char>, i: int, j: int)
    requires
        0 <= i <= j <= s.len(),
    ensures
        digits_value(s.subrange(0, i)) <= digits_value(s.subrange(0, j)),
    decreases j - i,
{
    if i < j {
        lemma_digits_value_grows(s, i, j - 1);
        assert(s.subrange(0, j).drop_last() =~= s.subrange(0, j - 1));
    }
}

/// The value of the digits of `s` from `start` on, where they are all digits
/// and the value is at most `bound`.
fn digits_up_to(s: &str, start: usize, bound: u64) -> (r: Option<u64>)
    requires
        start <= s@.len(),
        bound >= 9,
    ensures
        ({
            let d = s@.subrange(start as int, s@.len() as int);
            match r {
                Some(v) => is_digits(d) && digits_value(d) == v && v <= bound,
                None => !(is_digits(d) && digits_value(d) <= bound),
            }
        }),
{
    let len = s.unicode_len();
    let ghost d = s@.subrange(start as int, s@.len() as int);
    if start >= len {
        return None;
    }
    let mut acc: u64 = 0;
    let mut i: usize = start;
    while i < len
        invariant
            start <= i <= len,
            len == s@.len(),
            d == s@.subrange(start as int, len as int),
            acc as nat == digits_value(d.subrange(0, i - start)),
            acc <= bound,
            bound >= 9,
            forall|k: int| 0 <= k < i - start ==> is_digit(#[trigger] d[k]),
        decreases len - i,
    {
        let c = s.get_char(i);
        proof {
            assert(d[i - start] == c);
            assert(d.subrange(0, i - start + 1).drop_last() =~= d.subrange(0, i - start));
        }
        let code = c as u32;
        if code < 48 || code > 57 {
            return None;
        }
        let digit = (code - 48) as u64;
        if acc > (bound - digit) / 10 {
            proof {
                lemma_digits_value_grows(d, i - start + 1, d.len() as int);
                assert(d.subrange(0, d.len() as int) =~= d);
            }
            return None;
        }
        acc = acc * 10 + digit;
        i = i + 1;
    }
    proof {
        assert(d.subrange(0, d.len() as int) =~= d);
    }
    Some(acc)
}

/// The unsigned decimal number that `s` denotes, where it is at most `bound`.
fn parse_unsigned(s: &str, bound: u64) -> (r: Option<u64>)
    requires
        bound >= 9,
    ensures
        r == (match decimal_value(s@, false) {
            Some(v) => if v <= bound { Some(v as u64) } else { None },
            None => None,
        }),
{
    let len = s.unicode_len();
    if len > 0 && s.get_char(0) == '+' {
        proof {
            assert(s@.drop_first() =~= s@.subrange(1, s@.len() as int));
        }
        digits_up_to(s, 1, bound)
    } else {
        proof {
            assert(s@ =~= s@.subrange(0, s@.len() as int));
        }
        digits_up_to(s, 0, bound)
    }
}

/// Parses `s` as a `u8` in decimal, as `str::parse::<u8>` does.
pub fn parse_u8(s: &str) -> (r: Option<u8>)
    ensures
        r == u8_of(s@),
{
    match parse_unsigned(s, 255) {
        Some(v) => Some(v as u8),
        None => None,
    }
}

/// Parses `s` as a `u32` in decimal, as `str::parse::<u32>` does.
pub fn parse_u32(s: &str) -> (r: Option<u32>)
    ensures
        r == u32_of(s@),
{
    match parse_unsigned(s, 4294967295) {
        Some(v) => Some(v as u32),
        None => None,
    }
}

/// Parses `s` as an `i64` in decimal, as `str::parse::<i64>` does.
pub fn parse_i64(s: &str) -> (r: Option<i64>)
    ensures
        r == i64_of(s@),
{
    let len = s.unicode_len();
    if len > 0 && s.get_char(0) == '-' {
        proof {
            assert(s@.drop_first() =~= s@.subrange(1, s@.len() as int));
        }
        match digits_up_to(s, 1, 9223372036854775808) {
            Some(v) => if v == 9223372036854775808 {
                Some(i64::MIN)
            } else {
                Some(-(v as i64))
            },
            None => None,
        }
    } else {
        match parse_unsigned(s, 9223372036854775807) {
            Some(v) => Some(v as i64),
            None => None,
        }
    }
}

/// Appends the decimal text of `n` to `out`.
pub fn push_decimal(out: &mut String, n: u64)
    ensures
        final(out)@ == old(out)@ + decimal_text(n as nat),
    decreases n,
{
    if n >= 10 {
        push_decimal(out, n / 10);
    }
    let d = (n % 10) as usize;
    let digits = "0123456789";
    proof {
        reveal_strlit("0123456789");
        assert(digits@ =~= digit_chars());
    }
    out.append(digits.substring_char(d, d + 1));
    proof {
        assert(digits@.subrange(d as int, d + 1) =~= seq![digit_chars()[d as int]]);
        if n >= 10 {
            assert(out@ =~= old(out)@ + decimal_text(n as nat));
        } else {
            assert(out@ =~= old(out)@ + decimal_text(n as nat));
        }
    }
}

/// Appends the decimal text of `v` to `out`, with a `-` where it is negative.
pub fn push_signed(out: &mut String, v: i64)
    ensures
        final(out)@ == old(out)@ + signed_text(v as int),
{
    if v < 0 {
        let minus = "-";
        proof {
            reveal_strlit("-");
        }
        out.append(minus);
        let magnitude = (-(v as i128)) as u64;
        push_decimal(out, magnitude);
        proof {
            assert(out@ =~= old(out)@ + signed_text(v as int));
        }
    } else {
        push_decimal(out, v as u64);
    }
}

/// A run of digits denotes a nonzero number exactly when one of its digits
/// is not zero.
proof fn lemma_digits_nonzero(d: Seq<char>)
    ensures
        digits_value(d) > 0 <==> exists|k: int| 0 <= k < d.len() && digit_value(#[trigger] d[k]) > 0,
    decreases d.len(),
{
    if d.len() > 0 {
        let e = d.drop_last();
        lemma_digits_nonzero(e);
        if exists|k: int| 0 <= k < e.len() && digit_value(#[trigger] e[k]) > 0 {
            let k = choose|k: int| 0 <= k < e.len() && digit_value(#[trigger] e[k]) > 0;
            assert(d[k] == e[k]);
        }
        if exists|k: int| 0 <= k < d.len() && digit_value(#[trigger] d[k]) > 0 {
            let k = choose|k: int| 0 <= k < d.len() && digit_value(#[trigger] d[k]) > 0;
            if k < e.len() {
                assert(e[k] == d[k]);
            }
        }
    }
}

/// Whether `s` is a decimal integer of any size, with an optional sign,
/// that is not zero; none where `s` is not such an integer at all.
pub fn integer_is_nonzero(s: &str) -> (r: Option<bool>)
    ensures
        r == (match decimal_value(s@, true) {
            Some(v) => Some(v != 0),
            None => None,
        }),
{
    let len = s.unicode_len();
    let start: usize = if len > 0 && (s.get_char(0) == '+' || s.get_char(0) == '-') {
        1
    } else {
        0
    };
    let ghost d = s@.subrange(start as int, len as int);
    proof {
        if start == 1 {
            assert(s@.drop_first() =~= d);
        } else {
            assert(s@ =~= d);
        }
    }
    if start >= len {
        return None;
    }
    let mut nonzero = false;
    let mut i: usize = start;
    while i < len
        invariant
            start <= i <= len,
            len == s@.len(),
            d == s@.subrange(start as int, len as int),
            start == 1 <==> (len > 0 && (s@[0] == '+' || s@[0] == '-')),
            start == 1 ==> s@.drop_first() == d,
            start == 0 ==> s@ == d,
            start <= 1,
            forall|k: int| 0 <= k < i - start ==> is_digit(#[trigger] d[k]),
            nonzero == exists|k: int| 0 <= k < i - start && digit_value(#[trigger] d[k]) > 0,
        decreases len - i,
    {
        let code = s.get_char(i) as u32;
        proof {
            assert(d[i - start] == s@[i as int]);
        }
        if code < 48 || code > 57 {
            proof {
                assert(!is_digit(d[i - start]));
            }
            return None;
        }
        if code > 48 {
            nonzero = true;
        }
        proof {
            if !nonzero {
                assert forall|k: int| 0 <= k < i + 1 - start implies !(digit_value(#[trigger] d[k]) > 0) by {
                    if k < i - start {
                        assert(!(exists|k2: int| 0 <= k2 < i - start && digit_value(#[trigger] d[k2]) > 0));
                    }
                }
            } else {
                assert(exists|k: int| 0 <= k < i + 1 - start && digit_value(#[trigger] d[k]) > 0);
            }
        }
        i = i + 1;
    }
    proof {
        lemma_digits_nonzero(d);
    }
    Some(nonzero)
}

} // verus!
