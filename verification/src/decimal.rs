//! Decimal text of integers, as written by `format!("{}", ..)` and read by
//! `str::parse`: the registration-id file and the names of key and session
//! files carry numbers in this form.

use crate::text::all_ascii;
use vstd::prelude::*;

verus! {

/// ASCII code of the digit zero.
pub const ZERO: u8 = 48;

/// Whether `b` is an ASCII decimal digit.
pub open spec fn is_digit(b: u8) -> bool {
    ZERO <= b <= ZERO + 9
}

/// The value of a sequence of decimal digits, most significant first.
pub open spec fn digits_value(s: Seq<u8>) -> int
    decreases s.len(),
{
    if s.len() == 0 {
        0
    } else {
        digits_value(s.drop_last()) * 10 + (s.last() - ZERO)
    }
}

/// Whether every byte of `s` is a decimal digit.
pub open spec fn all_digits(s: Seq<u8>) -> bool {
    forall|i: int| 0 <= i < s.len() ==> is_digit(#[trigger] s[i])
}

/// The decimal text of `n` without leading zeros (`"0"` for zero).
pub open spec fn decimal(n: nat) -> Seq<u8>
    decreases n,
{
    if n < 10 {
        seq![(ZERO + n) as u8]
    } else {
        decimal(n / 10).push((ZERO + n % 10) as u8)
    }
}

/// The decimal text of `n`, padded with leading zeros to `width` digits.
pub open spec fn decimal_padded(n: nat, width: nat) -> Seq<u8> {
    let d = decimal(n);
    if d.len() >= width {
        d
    } else {
        Seq::new((width - d.len()) as nat, |i: int| ZERO) + d
    }
}

/// The decimal text of a signed number: a minus sign before negative ones.
pub open spec fn decimal_signed(n: int) -> Seq<u8> {
    if n < 0 {
        seq![45u8] + decimal((-n) as nat)
    } else {
        decimal(n as nat)
    }
}

/// The digits after an optional leading sign that `str::parse` accepts:
/// `'+'` always, `'-'` only when `signed`.
pub open spec fn unsigned_part(s: Seq<u8>, signed: bool) -> Seq<u8> {
    if s.len() > 0 && (s[0] == 43u8 || (signed && s[0] == 45u8)) {
        s.drop_first()
    } else {
        s
    }
}

/// The number that `str::parse::<u32>` reads from `s`: an optional `'+'`,
/// then at least one decimal digit and nothing else, with a value that fits.
pub open spec fn parse_u32_spec(s: Seq<u8>) -> Option<u32> {
    let d = unsigned_part(s, false);
    if d.len() > 0 && all_digits(d) && digits_value(d) <= u32::MAX {
        Some(digits_value(d) as u32)
    } else {
        None
    }
}

/// The number that `str::parse::<i32>` reads from `s`: an optional sign,
/// then at least one decimal digit and nothing else, within range.
pub open spec fn parse_i32_spec(s: Seq<u8>) -> Option<i32> {
    let d = unsigned_part(s, true);
    let negative = s.len() > 0 && s[0] == 45u8;
    let v = if negative {
        -digits_value(d)
    } else {
        digits_value(d)
    };
    if d.len() > 0 && all_digits(d) && i32::MIN <= v <= i32::MAX {
        Some(v as i32)
    } else {
        None
    }
}

proof fn lemma_digits_value_nonneg(s: Seq<u8>)
    requires
        all_digits(s),
    ensures
        digits_value(s) >= 0,
    decreases s.len(),
{
    if s.len() > 0 {
        assert(all_digits(s.drop_last())) by {
            assert forall|i: int| 0 <= i < s.drop_last().len() implies is_digit(
                #[trigger] s.drop_last()[i],
            ) by {
                assert(s.drop_last()[i] == s[i]);
            }
        }
        lemma_digits_value_nonneg(s.drop_last());
        assert(is_digit(s[s.len() - 1]));
    }
}

/// Reads the decimal digits `d` (already known to be digits) as a `u64`
/// value as long as it stays within `limit`; `None` once it exceeds it.
fn digits_to_u64(d: &[u8], start: usize, limit: u64) -> (res: Option<u64>)
    requires
        start <= d@.len(),
        all_digits(d@.skip(start as int)),
        limit <= u32::MAX + 1,
    ensures
        res is Some <==> digits_value(d@.skip(start as int)) <= limit,
        res is Some ==> res->Some_0 == digits_value(d@.skip(start as int)),
{
    let ghost s = d@.skip(start as int);
    let mut acc: u64 = 0;
    let mut i = start;
    while i < d.len()
        invariant
            start <= i <= d@.len(),
            s == d@.skip(start as int),
            all_digits(s),
            limit <= u32::MAX + 1,
            acc == digits_value(s.take(i - start)),
            acc <= limit,
        decreases d@.len() - i,
    {
        proof {
            let t = s.take(i - start + 1);
            assert(t.drop_last() =~= s.take(i - start));
            assert(t.last() == d@[i as int]);
            assert(is_digit(s[i - start]));
        }
        let digit = (d[i] - ZERO) as u64;
        let next = acc * 10 + digit;
        if next > limit {
            proof {
                // every further digit only grows the value
                lemma_digits_value_prefix_bound(s, i - start + 1);
            }
            return None;
        }
        acc = next;
        i = i + 1;
    }
    proof {
        assert(s.take(i - start) =~= s);
    }
    Some(acc)
}

/// A longer prefix of digits has at least the value of a shorter one.
proof fn lemma_digits_value_prefix_bound(s: Seq<u8>, j: int)
    requires
        all_digits(s),
        0 <= j <= s.len(),
    ensures
        digits_value(s) >= digits_value(s.take(j)),
    decreases s.len() - j,
{
    if j < s.len() {
        lemma_digits_value_prefix_bound(s, j + 1);
        let t = s.take(j + 1);
        assert(t.drop_last() =~= s.take(j));
        assert(all_digits(s.take(j))) by {
            assert forall|i: int| 0 <= i < s.take(j).len() implies is_digit(#[trigger] s.take(j)[i]) by {
                assert(s.take(j)[i] == s[i]);
            }
        }
        lemma_digits_value_nonneg(s.take(j));
        assert(is_digit(s[j]));
    } else {
        assert(s.take(j) =~= s);
    }
}

/// Checks that `d[start..]` consists of decimal digits.
fn check_digits(d: &[u8], start: usize) -> (res: bool)
    requires
        start <= d@.len(),
    ensures
        res == all_digits(d@.skip(start as int)),
{
    let mut i = start;
    while i < d.len()
        invariant
            start <= i <= d@.len(),
            forall|j: int| start <= j < i ==> is_digit(#[trigger] d@[j]),
        decreases d@.len() - i,
    {
        if d[i] < ZERO || d[i] > ZERO + 9 {
            proof {
                assert(d@.skip(start as int)[i - start] == d@[i as int]);
            }
            return false;
        }
        i = i + 1;
    }
    proof {
        assert forall|j: int| 0 <= j < d@.skip(start as int).len() implies is_digit(
            #[trigger] d@.skip(start as int)[j],
        ) by {
            assert(d@.skip(start as int)[j] == d@[start + j]);
        }
    }
    true
}

/// `str::parse::<u32>` on the bytes of a string.
pub fn parse_u32(s: &[u8]) -> (res: Option<u32>)
    ensures
        res == parse_u32_spec(s@),
{
    if s.len() == 0 {
        return None;
    }
    let start: usize = if s[0] == 43u8 {
        1
    } else {
        0
    };
    proof {
        assert(unsigned_part(s@, false) =~= s@.skip(start as int));
    }
    if start == s.len() {
        return None;
    }
    if !check_digits(s, start) {
        return None;
    }
    match digits_to_u64(s, start, 0xffff_ffff) {
        Some(v) => Some(v as u32),
        None => None,
    }
}

/// `str::parse::<i32>` on the bytes of a string.
pub fn parse_i32(s: &[u8]) -> (res: Option<i32>)
    ensures
        res == parse_i32_spec(s@),
{
    if s.len() == 0 {
        return None;
    }
    let negative = s[0] == 45u8;
    let start: usize = if s[0] == 43u8 || negative {
        1
    } else {
        0
    };
    proof {
        assert(unsigned_part(s@, true) =~= s@.skip(start as int));
    }
    if start == s.len() {
        return None;
    }
    if !check_digits(s, start) {
        return None;
    }
    proof {
        lemma_digits_value_nonneg(s@.skip(start as int));
    }
    let limit: u64 = if negative {
        0x8000_0000
    } else {
        0x7fff_ffff
    };
    match digits_to_u64(s, start, limit) {
        Some(v) => {
            if negative {
                Some((0i64 - (v as i64)) as i32)
            } else {
                Some(v as i32)
            }
        },
        None => None,
    }
}

/// The decimal text of `n` (`format!("{}", n)`).
pub fn decimal_u32(n: u32) -> (res: Vec<u8>)
    ensures
        res@ == decimal(n as nat),
    decreases n,
{
    if n < 10 {
        let mut v: Vec<u8> = Vec::new();
        v.push(ZERO + n as u8);
        proof {
            assert(v@ =~= seq![(ZERO + n) as u8]);
        }
        v
    } else {
        let mut v = decimal_u32(n / 10);
        v.push(ZERO + (n % 10) as u8);
        v
    }
}

/// The decimal text of `n` padded with zeros to `width` digits
/// (`format!("{:0width$}", n)`).
pub fn decimal_u32_padded(n: u32, width: usize) -> (res: Vec<u8>)
    ensures
        res@ == decimal_padded(n as nat, width as nat),
{
    let d = decimal_u32(n);
    if d.len() >= width {
        return d;
    }
    let mut res: Vec<u8> = Vec::new();
    let pad = width - d.len();
    let mut i: usize = 0;
    while i < pad
        invariant
            i <= pad,
            res@ == Seq::new(i as nat, |j: int| ZERO),
        decreases pad - i,
    {
        res.push(ZERO);
        proof {
            assert(res@ =~= Seq::new((i + 1) as nat, |j: int| ZERO));
        }
        i = i + 1;
    }
    let mut d = d;
    res.append(&mut d);
    res
}

/// The decimal text of a signed `n` (`format!("{}", n)`).
pub fn decimal_i32(n: i32) -> (res: Vec<u8>)
    ensures
        res@ == decimal_signed(n as int),
{
    if n < 0 {
        let magnitude = (0i64 - (n as i64)) as u32;
        let mut res: Vec<u8> = Vec::new();
        res.push(45u8);
        let mut d = decimal_u32(magnitude);
        res.append(&mut d);
        proof {
            assert(res@ =~= seq![45u8] + decimal((-n) as nat));
        }
        res
    } else {
        decimal_u32(n as u32)
    }
}

/// The decimal text of a number consists of digits, starts with a digit
/// and has the number's value.
pub proof fn lemma_decimal_value(n: nat)
    ensures
        decimal(n).len() > 0,
        all_digits(decimal(n)),
        digits_value(decimal(n)) == n,
    decreases n,
{
    if n < 10 {
        let d = decimal(n);
        assert(d.drop_last() =~= Seq::<u8>::empty());
        assert(digits_value(d) == digits_value(d.drop_last()) * 10 + (d.last() - ZERO));
    }
    if n >= 10 {
        lemma_decimal_value(n / 10);
        let d = decimal(n);
        assert(d.drop_last() =~= decimal(n / 10));
        assert(d.last() == (ZERO + n % 10) as u8);
        assert(n % 10 < 10);
        assert(d.last() - ZERO == n % 10);
        assert((n / 10) * 10 + n % 10 == n);
        assert(digits_value(d) == digits_value(d.drop_last()) * 10 + (d.last() - ZERO));
        assert forall|i: int| 0 <= i < d.len() implies is_digit(#[trigger] d[i]) by {
            if i < d.len() - 1 {
                assert(d[i] == decimal(n / 10)[i]);
            }
        }
    }
}

/// Leading zeros do not change the value of a digit sequence.
proof fn lemma_leading_zeros(z: nat, d: Seq<u8>)
    ensures
        digits_value(Seq::new(z, |i: int| ZERO) + d) == digits_value(d),
    decreases d.len(), z,
{
    let zs = Seq::new(z, |i: int| ZERO);
    if d.len() == 0 {
        assert(zs + d =~= zs);
        if z > 0 {
            assert(zs.drop_last() =~= Seq::new((z - 1) as nat, |i: int| ZERO));
            lemma_leading_zeros((z - 1) as nat, d);
            assert(Seq::new((z - 1) as nat, |i: int| ZERO) + d =~= Seq::new(
                (z - 1) as nat,
                |i: int| ZERO,
            ));
        }
    } else {
        lemma_leading_zeros(z, d.drop_last());
        assert((zs + d).drop_last() =~= zs + d.drop_last());
    }
}

/// Reading back the decimal text of a number gives the number, also when
/// it is padded with zeros.
pub proof fn lemma_parse_decimal_u32(n: u32, width: nat)
    ensures
        parse_u32_spec(decimal(n as nat)) == Some(n),
        parse_u32_spec(decimal_padded(n as nat, width)) == Some(n),
{
    lemma_decimal_value(n as nat);
    let d = decimal(n as nat);
    assert(unsigned_part(d, false) == d);
    let p = decimal_padded(n as nat, width);
    if d.len() < width {
        let z = (width - d.len()) as nat;
        lemma_leading_zeros(z, d);
        assert forall|i: int| 0 <= i < p.len() implies is_digit(#[trigger] p[i]) by {
            if i >= z {
                assert(p[i] == d[i - z]);
            }
        }
        assert(p[0] == ZERO);
        assert(unsigned_part(p, false) == p);
    }
}

/// Reading back the decimal text of a signed number gives the number.
pub proof fn lemma_parse_decimal_i32(n: i32)
    ensures
        parse_i32_spec(decimal_signed(n as int)) == Some(n),
{
    if n < 0 {
        let m = (-n) as nat;
        lemma_decimal_value(m);
        let s = decimal_signed(n as int);
        assert(s.drop_first() =~= decimal(m));
        assert(unsigned_part(s, true) == decimal(m));
    } else {
        lemma_decimal_value(n as nat);
        assert(unsigned_part(decimal(n as nat), true) == decimal(n as nat));
    }
}

/// Decimal text is ASCII.
pub proof fn lemma_decimal_ascii(n: nat, width: nat, m: int)
    ensures
        all_ascii(decimal(n)),
        all_ascii(decimal_padded(n, width)),
        all_ascii(decimal_signed(m)),
{
    lemma_decimal_value(n);
    let d = decimal(n);
    assert forall|i: int| 0 <= i < d.len() implies #[trigger] d[i] < 128 by {
        assert(is_digit(d[i]));
    }
    let p = decimal_padded(n, width);
    if d.len() < width {
        let z = (width - d.len()) as nat;
        assert forall|i: int| 0 <= i < p.len() implies #[trigger] p[i] < 128 by {
            if i >= z {
                assert(p[i] == d[i - z]);
            }
        }
    }
    let a: nat = if m < 0 {
        (-m) as nat
    } else {
        m as nat
    };
    lemma_decimal_value(a);
    let e = decimal(a);
    assert forall|i: int| 0 <= i < e.len() implies #[trigger] e[i] < 128 by {
        assert(is_digit(e[i]));
    }
    let t = decimal_signed(m);
    if m < 0 {
        assert forall|i: int| 0 <= i < t.len() implies #[trigger] t[i] < 128 by {
            if i > 0 {
                assert(t[i] == e[i - 1]);
            }
        }
    }
}

} // verus!
