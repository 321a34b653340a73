//! Decimal integers in text: parsing as `FromStr` does and formatting.
use vstd::prelude::*;

verus! {

/// An ASCII decimal digit.
pub open spec fn is_digit(b: u8) -> bool {
    48 <= b <= 57
}

/// Every byte is an ASCII decimal digit.
pub open spec fn all_digits(s: Seq<u8>) -> bool {
    forall|i: int| 0 <= i < s.len() ==> is_digit(#[trigger] s[i])
}

/// The value of a run of decimal digits.
pub open spec fn digits_value(s: Seq<u8>) -> int
    decreases s.len(),
{
    if s.len() == 0 {
        0
    } else {
        digits_value(s.drop_last()) * 10 + (s.last() - 48)
    }
}

/// Decimal integer syntax with an optional leading `+` or `-` (the syntax
/// `i64::from_str` accepts), and its value.
pub open spec fn parse_signed(s: Seq<u8>) -> Option<int> {
    if s.len() > 0 && (s[0] == 43 || s[0] == 45) {
        let rest = s.drop_first();
        if rest.len() > 0 && all_digits(rest) {
            Some(if s[0] == 45 { -digits_value(rest) } else { digits_value(rest) })
        } else {
            None
        }
    } else if s.len() > 0 && all_digits(s) {
        Some(digits_value(s))
    } else {
        None
    }
}

/// Unsigned decimal syntax as the integer types' `FromStr` accepts it (an
/// optional leading `+`, then at least one digit), and its value.
pub open spec fn parse_unsigned(s: Seq<u8>) -> Option<int> {
    let digits = if s.len() > 0 && s[0] == 43 { s.drop_first() } else { s };
    if digits.len() > 0 && all_digits(digits) {
        Some(digits_value(digits))
    } else {
        None
    }
}

/// Digit values never shrink when more digits follow.
pub proof fn lemma_digits_value_prefix(s: Seq<u8>, k: int)
    requires
        all_digits(s),
        0 <= k <= s.len(),
    ensures
        0 <= digits_value(s.take(k)) <= digits_value(s),
    decreases s.len(),
{
    if s.len() > 0 {
        assert(all_digits(s.drop_last()));
        if k == s.len() {
            assert(s.take(k) =~= s);
            lemma_digits_value_prefix(s.drop_last(), 0);
            assert(s.take(0) =~= s.drop_last().take(0));
        } else {
            lemma_digits_value_prefix(s.drop_last(), k);
            assert(s.drop_last().take(k) =~= s.take(k));
            lemma_digits_value_prefix(s.drop_last(), s.len() - 1);
            assert(s.drop_last().take(s.len() - 1) =~= s.drop_last());
        }
    } else {
        assert(s.take(k) =~= s);
    }
}

/// Parses `s[start..]` as a run of one or more decimal digits whose value
/// is at most `max` (`None` when it is not such a run, or is larger).
pub fn parse_digits(s: &[u8], start: usize, max: u64) -> (r: Option<u64>)
    requires
        start <= s@.len(),
    ensures
        ({
            let digits = s@.subrange(start as int, s@.len() as int);
            &&& r matches Some(v) ==> digits.len() > 0 && all_digits(digits) && digits_value(digits) == v && v <= max
            &&& r is None ==> !(digits.len() > 0 && all_digits(digits)) || digits_value(digits) > max
        }),
{
    let ghost digits = s@.subrange(start as int, s@.len() as int);
    if start == s.len() {
        return None;
    }
    let mut value: u64 = 0;
    let mut i: usize = start;
    while i < s.len()
        invariant
            start <= i <= s@.len(),
            start < s@.len(),
            digits == s@.subrange(start as int, s@.len() as int),
            all_digits(digits.take(i - start)),
            value as int == digits_value(digits.take(i - start)),
            value <= max,
        decreases s@.len() - i,
    {
        let c = s[i];
        if c < 48 || c > 57 {
            assert(digits[i - start] == c);
            assert(!is_digit(digits[i - start]));
            assert(!all_digits(digits));
            return None;
        }
        proof {
            assert(digits.take(i - start + 1).drop_last() =~= digits.take(i - start));
            assert(digits.take(i - start + 1).last() == c);
        }
        let d: u64 = (c - 48) as u64;
        if d > max || value > (max - d) / 10 {
            proof {
                assert(value * 10 + d > max) by (nonlinear_arith)
                    requires
                        d > max || value > (max - d) / 10,
                        d <= max ==> value > (max - d) / 10,
                        d <= 9,
                ;
                if all_digits(digits) {
                    lemma_digits_value_prefix(digits, i - start + 1);
                }
            }
            return None;
        }
        proof {
            assert(value * 10 + d <= max) by (nonlinear_arith)
                requires
                    value <= (max - d) / 10,
                    d <= max,
            ;
        }
        value = value * 10 + d;
        i += 1;
    }
    assert(digits.take(i - start) =~= digits);
    Some(value)
}

/// Parses `s` as an unsigned decimal no larger than `max`, as `u64`,
/// `usize` and `u32` parse (`None` for bad syntax or a value above `max`).
pub fn parse_unsigned_bytes(s: &[u8], max: u64) -> (r: Option<u64>)
    ensures
        r matches Some(v) ==> parse_unsigned(s@) == Some(v as int) && v <= max,
        r is None ==> (parse_unsigned(s@) is None || parse_unsigned(s@)->0 > max),
{
    let start: usize = if s.len() > 0 && s[0] == 43 { 1 } else { 0 };
    proof {
        if s@.len() > 0 && s@[0] == 43 {
            assert(s@.drop_first() =~= s@.subrange(1, s@.len() as int));
        } else {
            assert(s@ =~= s@.subrange(0, s@.len() as int));
        }
    }
    parse_digits(s, start, max)
}

/// Parses `s` as `i64::from_str` does: an optional sign, then digits, with
/// a value in range (`None` otherwise).
pub fn parse_i64_bytes(s: &[u8]) -> (r: Option<i64>)
    ensures
        r matches Some(v) ==> parse_signed(s@) == Some(v as int),
        r is None ==> (parse_signed(s@) is None || parse_signed(s@)->0 < i64::MIN || parse_signed(s@)->0 > i64::MAX),
{
    if s.len() > 0 && (s[0] == 43 || s[0] == 45) {
        proof {
            assert(s@.drop_first() =~= s@.subrange(1, s@.len() as int));
        }
        if s[0] == 45 {
            match parse_digits(s, 1, 9223372036854775808u64) {
                Some(m) => {
                    if m == 9223372036854775808u64 {
                        Some(i64::MIN)
                    } else {
                        Some(-(m as i64))
                    }
                },
                None => None,
            }
        } else {
            match parse_digits(s, 1, 9223372036854775807u64) {
                Some(m) => Some(m as i64),
                None => None,
            }
        }
    } else {
        proof {
            assert(s@ =~= s@.subrange(0, s@.len() as int));
        }
        match parse_digits(s, 0, 9223372036854775807u64) {
            Some(m) => Some(m as i64),
            None => None,
        }
    }
}

/// An ASCII letter in lower case.
pub open spec fn lower_byte(b: u8) -> u8 {
    if 65 <= b <= 90 {
        (b + 32) as u8
    } else {
        b
    }
}

/// Position of the first byte of `s` that is `e` or `E`, or `s.len()`.
pub open spec fn exponent_at(s: Seq<u8>) -> int
    decreases s.len(),
{
    if s.len() == 0 {
        0
    } else {
        let p = exponent_at(s.drop_last());
        if p < s.len() - 1 {
            p
        } else if lower_byte(s.last()) == 101 {
            s.len() - 1
        } else {
            s.len() as int
        }
    }
}

proof fn lemma_exponent_at(s: Seq<u8>)
    ensures
        0 <= exponent_at(s) <= s.len(),
        exponent_at(s) < s.len() ==> lower_byte(s[exponent_at(s)]) == 101,
        forall|k: int| 0 <= k < exponent_at(s) ==> lower_byte(#[trigger] s[k]) != 101,
    decreases s.len(),
{
    if s.len() > 0 {
        lemma_exponent_at(s.drop_last());
        let p = exponent_at(s.drop_last());
        assert forall|k: int| 0 <= k < exponent_at(s) implies lower_byte(#[trigger] s[k]) != 101 by {
            if k < s.len() - 1 {
                assert(s.drop_last()[k] == s[k]);
            }
        }
        if p < s.len() - 1 {
            assert(s.drop_last()[p] == s[p]);
        }
    }
}

/// Digits, optionally with one `.`, and at least one digit in all.
pub open spec fn mantissa_syntax(m: Seq<u8>) -> bool {
    ||| m.len() > 0 && all_digits(m)
    ||| exists|d: int| 0 <= d < m.len() && #[trigger] m[d] == 46 && all_digits(m.take(d)) && all_digits(m.skip(d + 1))
        && m.len() >= 2
}

/// `e` or `E`, an optional sign, and at least one digit.
pub open spec fn exponent_syntax(x: Seq<u8>) -> bool {
    &&& x.len() >= 2
    &&& lower_byte(x[0]) == 101
    &&& {
        let rest = x.drop_first();
        let digits = if rest[0] == 43 || rest[0] == 45 { rest.drop_first() } else { rest };
        digits.len() > 0 && all_digits(digits)
    }
}

/// The text of a floating-point number as `f32::from_str` documents its
/// grammar: an optional sign, then `inf`, `infinity` or `nan` (any case),
/// or digits with an optional `.` and an optional exponent.
pub open spec fn float_syntax(s: Seq<u8>) -> bool {
    let body = if s.len() > 0 && (s[0] == 43 || s[0] == 45) { s.drop_first() } else { s };
    let lower = body.map_values(|b: u8| lower_byte(b));
    ||| lower == seq![105u8, 110, 102]
    ||| lower == seq![105u8, 110, 102, 105, 110, 105, 116, 121]
    ||| lower == seq![110u8, 97, 110]
    ||| {
        let e = exponent_at(body);
        &&& mantissa_syntax(body.take(e))
        &&& (e == body.len() || exponent_syntax(body.skip(e)))
    }
}

/// The decimal digits of `n`, most significant first, no leading zeros.
pub open spec fn decimal_chars(n: nat) -> Seq<char>
    decreases n,
{
    if n < 10 {
        seq![((n + 48) as u8) as char]
    } else {
        decimal_chars(n / 10).push((((n % 10) + 48) as u8) as char)
    }
}

fn decimal_vec(n: u64) -> (v: Vec<char>)
    ensures
        v@ == decimal_chars(n as nat),
    decreases n,
{
    let c: char = ((n % 10) as u8 + 48u8) as char;
    if n < 10 {
        vec![c]
    } else {
        let mut v = decimal_vec(n / 10);
        v.push(c);
        v
    }
}

/// `n` written in decimal.
pub fn decimal_string(n: u64) -> (s: String)
    ensures
        s@ == decimal_chars(n as nat),
{
    let v = decimal_vec(n);
    crate::text::string_from_chars(&v)
}

/// `n` written in decimal, with a leading `-` when negative.
pub open spec fn decimal_signed_chars(n: int) -> Seq<char> {
    if n < 0 {
        seq!['-'] + decimal_chars((-n) as nat)
    } else {
        decimal_chars(n as nat)
    }
}

/// `n` written in decimal, with a leading `-` when negative.
pub fn decimal_signed(n: i64) -> (s: String)
    ensures
        s@ == decimal_signed_chars(n as int),
{
    if n < 0 {
        let magnitude: u64 = if n == i64::MIN { 9223372036854775808u64 } else { (-n) as u64 };
        let digits = decimal_string(magnitude);
        proof {
            reveal_strlit("-");
        }
        crate::text::concat("-", digits.as_str())
    } else {
        decimal_string(n as u64)
    }
}

/// Whether `s[lo..hi]` is all decimal digits.
fn digits_only(s: &[u8], lo: usize, hi: usize) -> (r: bool)
    requires
        lo <= hi <= s@.len(),
    ensures
        r == all_digits(s@.subrange(lo as int, hi as int)),
{
    let mut i: usize = lo;
    while i < hi
        invariant
            lo <= i <= hi <= s@.len(),
            forall|k: int| lo <= k < i ==> is_digit(#[trigger] s@[k]),
        decreases hi - i,
    {
        if s[i] < 48 || s[i] > 57 {
            assert(s@.subrange(lo as int, hi as int)[i - lo] == s@[i as int]);
            return false;
        }
        i += 1;
    }
    assert forall|k: int| 0 <= k < hi - lo implies is_digit(#[trigger] s@.subrange(lo as int, hi as int)[k]) by {
        assert(s@.subrange(lo as int, hi as int)[k] == s@[lo + k]);
    }
    true
}

/// Position of the first `b` in `s[lo..hi]`, or `hi`.
fn find_byte(s: &[u8], lo: usize, hi: usize, b: u8) -> (r: usize)
    requires
        lo <= hi <= s@.len(),
    ensures
        lo <= r <= hi,
        r < hi ==> s@[r as int] == b,
        forall|k: int| lo <= k < r ==> #[trigger] s@[k] != b,
{
    let mut i: usize = lo;
    while i < hi
        invariant
            lo <= i <= hi <= s@.len(),
            forall|k: int| lo <= k < i ==> #[trigger] s@[k] != b,
        decreases hi - i,
    {
        if s[i] == b {
            return i;
        }
        i += 1;
    }
    hi
}

/// Whether `s[lo..hi]` is digits with at most one `.` and at least one
/// digit.
fn mantissa_ok(s: &[u8], lo: usize, hi: usize) -> (r: bool)
    requires
        lo <= hi <= s@.len(),
    ensures
        r == mantissa_syntax(s@.subrange(lo as int, hi as int)),
{
    let ghost m = s@.subrange(lo as int, hi as int);
    let d = find_byte(s, lo, hi, 46);
    if d == hi {
        let r = hi > lo && digits_only(s, lo, hi);
        proof {
            assert forall|k: int| 0 <= k < m.len() implies #[trigger] m[k] != 46 by {
                assert(m[k] == s@[lo + k]);
            }
        }
        r
    } else {
        let left = digits_only(s, lo, d);
        let right = digits_only(s, d + 1, hi);
        let r = hi - lo >= 2 && left && right;
        proof {
            let dd = d - lo;
            assert(m[dd] == 46);
            assert(m.take(dd) =~= s@.subrange(lo as int, d as int));
            assert(m.skip(dd + 1) =~= s@.subrange(d + 1, hi as int));
            assert(!all_digits(m)) by {
                assert(!is_digit(m[dd]));
            }
            if r {
                assert(mantissa_syntax(m));
            } else {
                assert forall|e: int| 0 <= e < m.len() && #[trigger] m[e] == 46 implies !(all_digits(m.take(e))
                    && all_digits(m.skip(e + 1)) && m.len() >= 2) by {
                    if e > dd {
                        assert(m.take(e)[dd] == 46);
                        assert(!is_digit(m.take(e)[dd]));
                    } else if e < dd {
                        assert(m[e] == s@[lo + e]);
                    }
                }
            }
        }
        r
    }
}

/// Whether `s[lo..hi]` is `e` or `E`, an optional sign and digits.
fn exponent_ok(s: &[u8], lo: usize, hi: usize) -> (r: bool)
    requires
        lo <= hi <= s@.len(),
    ensures
        r == exponent_syntax(s@.subrange(lo as int, hi as int)),
{
    let ghost x = s@.subrange(lo as int, hi as int);
    if hi - lo < 2 {
        return false;
    }
    let c = s[lo];
    let lower = if 65 <= c && c <= 90 { c + 32 } else { c };
    assert(x[0] == c);
    if lower != 101 {
        return false;
    }
    let sign = s[lo + 1];
    let from: usize = if sign == 43 || sign == 45 { lo + 2 } else { lo + 1 };
    proof {
        let rest = x.drop_first();
        assert(rest[0] == sign);
        if sign == 43 || sign == 45 {
            assert(rest.drop_first() =~= s@.subrange(lo + 2, hi as int));
        } else {
            assert(rest =~= s@.subrange(lo + 1, hi as int));
        }
    }
    from < hi && digits_only(s, from, hi)
}

/// Whether `s` is the text of a floating-point number by the grammar
/// `f32::from_str` documents (see [`float_syntax`]).
pub fn is_float_text(s: &[u8]) -> (r: bool)
    ensures
        r == float_syntax(s@),
{
    let lo: usize = if s.len() > 0 && (s[0] == 43 || s[0] == 45) { 1 } else { 0 };
    let ghost body = if s@.len() > 0 && (s@[0] == 43 || s@[0] == 45) { s@.drop_first() } else { s@ };
    assert(body =~= s@.subrange(lo as int, s@.len() as int));
    let mut lower: Vec<u8> = Vec::new();
    let mut i: usize = lo;
    while i < s.len()
        invariant
            lo <= i <= s@.len(),
            body == s@.subrange(lo as int, s@.len() as int),
            lower@ == body.take(i - lo).map_values(|b: u8| lower_byte(b)),
        decreases s@.len() - i,
    {
        let c = s[i];
        let l = if 65 <= c && c <= 90 { c + 32 } else { c };
        lower.push(l);
        i += 1;
        proof {
            assert(lower@ =~= body.take(i - lo).map_values(|b: u8| lower_byte(b)));
        }
    }
    proof {
        assert(body.take(body.len() as int) =~= body);
    }
    let n = lower.len();
    let special = (n == 3 && lower[0] == 105 && lower[1] == 110 && lower[2] == 102)
        || (n == 8 && lower[0] == 105 && lower[1] == 110 && lower[2] == 102 && lower[3] == 105 && lower[4] == 110
            && lower[5] == 105 && lower[6] == 116 && lower[7] == 121)
        || (n == 3 && lower[0] == 110 && lower[1] == 97 && lower[2] == 110);
    proof {
        let lw = body.map_values(|b: u8| lower_byte(b));
        assert(lower@ == lw);
        if special {
            if n == 3 && lower@[0] == 105 {
                assert(lw =~= seq![105u8, 110, 102]);
            } else if n == 8 {
                assert(lw =~= seq![105u8, 110, 102, 105, 110, 105, 116, 121]);
            } else {
                assert(lw =~= seq![110u8, 97, 110]);
            }
        } else {
            assert(lw != seq![105u8, 110, 102]) by {
                if lw.len() == 3 {
                    assert(lw[0] == lower@[0]);
                }
            }
            assert(lw != seq![105u8, 110, 102, 105, 110, 105, 116, 121]) by {
                if lw.len() == 8 {
                    assert(lw[0] == lower@[0]);
                }
            }
            assert(lw != seq![110u8, 97, 110]) by {
                if lw.len() == 3 {
                    assert(lw[0] == lower@[0]);
                }
            }
        }
    }
    if special {
        return true;
    }
    let mut e: usize = 0;
    while e < n && lower[e] != 101
        invariant
            e <= n,
            n == lower@.len(),
            forall|k: int| 0 <= k < e ==> lower@[k] != 101,
        decreases n - e,
    {
        e += 1;
    }
    proof {
        lemma_exponent_at(body);
        let p = exponent_at(body);
        assert(lower@.len() == body.len());
        assert forall|k: int| 0 <= k < body.len() implies lower@[k] == lower_byte(#[trigger] body[k]) by {}
        if p < e {
            assert(lower@[p] == lower_byte(body[p]));
        } else if e < p {
            assert(lower@[e as int] == lower_byte(body[e as int]));
        }
        assert(p == e);
        assert(body.take(e as int) =~= s@.subrange(lo as int, lo + e));
        assert(body.skip(e as int) =~= s@.subrange(lo + e, s@.len() as int));
    }
    let mant = mantissa_ok(s, lo, lo + e);
    let exp = e == n || exponent_ok(s, lo + e, s.len());
    mant && exp
}

} // verus!
