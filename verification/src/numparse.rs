//! Decimal integer parsing with the semantics of `FromStr` for the primitive
//! integer types: an optional sign, then at least one ASCII digit, read from
//! left to right; the first failure found decides the error.
use vstd::prelude::*;

verus! {

/// Why a decimal integer could not be read.
#[derive(Debug, Clone, Copy, PartialEq, Eq)]
pub enum IntErrorKind {
    /// The text is empty.
    Empty,
    /// A character that is not a digit (or a lone sign).
    InvalidDigit,
    /// The value is above the type's maximum.
    PosOverflow,
    /// The value is below the type's minimum.
    NegOverflow,
}

pub open spec fn is_digit(c: char) -> bool {
    '0' <= c && c <= '9'
}

pub open spec fn digit_value(c: char) -> int {
    c as int - '0' as int
}

/// Reads the digits of `ds` from left to right into a value that must stay
/// within `lo..=hi`; digits are subtracted when `neg` holds.
pub open spec fn accumulate(ds: Seq<char>, neg: bool, lo: int, hi: int) -> Result<int, IntErrorKind>
    decreases ds.len(),
{
    if ds.len() == 0 {
        Ok(0)
    } else {
        match accumulate(ds.drop_last(), neg, lo, hi) {
            Err(e) => Err(e),
            Ok(v) => {
                let c = ds.last();
                if !is_digit(c) {
                    Err(IntErrorKind::InvalidDigit)
                } else if neg {
                    if v * 10 - digit_value(c) < lo {
                        Err(IntErrorKind::NegOverflow)
                    } else {
                        Ok(v * 10 - digit_value(c))
                    }
                } else {
                    if v * 10 + digit_value(c) > hi {
                        Err(IntErrorKind::PosOverflow)
                    } else {
                        Ok(v * 10 + digit_value(c))
                    }
                }
            },
        }
    }
}

/// The value of the decimal text `s` for an integer type with range
/// `lo..=hi`; a leading `-` is a sign only for signed types.
pub open spec fn parse_int(s: Seq<char>, signed: bool, lo: int, hi: int) -> Result<int, IntErrorKind> {
    if s.len() == 0 {
        Err(IntErrorKind::Empty)
    } else if s.len() == 1 && (s[0] == '+' || s[0] == '-') {
        Err(IntErrorKind::InvalidDigit)
    } else if s[0] == '+' {
        accumulate(s.drop_first(), false, lo, hi)
    } else if s[0] == '-' && signed {
        accumulate(s.drop_first(), true, lo, hi)
    } else {
        accumulate(s, false, lo, hi)
    }
}

pub open spec fn parse_u32_spec(s: Seq<char>) -> Result<int, IntErrorKind> {
    parse_int(s, false, 0, u32::MAX as int)
}

pub open spec fn parse_i32_spec(s: Seq<char>) -> Result<int, IntErrorKind> {
    parse_int(s, true, i32::MIN as int, i32::MAX as int)
}

pub open spec fn parse_i64_spec(s: Seq<char>) -> Result<int, IntErrorKind> {
    parse_int(s, true, i64::MIN as int, i64::MAX as int)
}

proof fn lemma_accumulate_bounds(ds: Seq<char>, neg: bool, lo: int, hi: int)
    requires
        lo <= 0 <= hi,
    ensures
        accumulate(ds, neg, lo, hi) matches Ok(v) ==> lo <= v <= hi && (neg ==> v <= 0) && (!neg ==> v >= 0),
    decreases ds.len(),
{
    if ds.len() > 0 {
        lemma_accumulate_bounds(ds.drop_last(), neg, lo, hi);
    }
}

/// Reads `ds[from..]` as digits, as `accumulate` says.
fn accumulate_exec(ds: &[char], from: usize, neg: bool, lo: i64, hi: i64) -> (r: Result<i64, IntErrorKind>)
    requires
        from <= ds.len(),
        lo <= 0 <= hi,
    ensures
        r matches Ok(v) ==> accumulate(ds@.skip(from as int), neg, lo as int, hi as int) == Ok::<int, IntErrorKind>(v as int),
        r matches Err(e) ==> accumulate(ds@.skip(from as int), neg, lo as int, hi as int) == Err::<int, IntErrorKind>(e),
{
    let ghost full = ds@.skip(from as int);
    let mut acc: i64 = 0;
    let mut i: usize = from;
    while i < ds.len()
        invariant
            from <= i <= ds.len(),
            lo <= 0 <= hi,
            full == ds@.skip(from as int),
            accumulate(full.take(i - from), neg, lo as int, hi as int) == Ok::<int, IntErrorKind>(acc as int),
        decreases ds.len() - i,
    {
        let ghost pre = full.take(i - from);
        let ghost next = full.take(i + 1 - from);
        assert(next.drop_last() =~= pre);
        assert(next.last() == ds@[i as int]);
        let c = ds[i];
        if !('0' <= c && c <= '9') {
            proof { lemma_accumulate_invalid_prefix(full, (i + 1 - from) as int, neg, lo as int, hi as int); }
            return Err(IntErrorKind::InvalidDigit);
        }
        let d: i64 = (c as u32 - '0' as u32) as i64;
        assert(d == digit_value(c));
        proof { lemma_accumulate_bounds(pre, neg, lo as int, hi as int); }
        let wide: i128 = if neg { acc as i128 * 10 - d as i128 } else { acc as i128 * 10 + d as i128 };
        if neg && wide < lo as i128 {
            proof { lemma_accumulate_invalid_prefix(full, (i + 1 - from) as int, neg, lo as int, hi as int); }
            return Err(IntErrorKind::NegOverflow);
        }
        if !neg && wide > hi as i128 {
            proof { lemma_accumulate_invalid_prefix(full, (i + 1 - from) as int, neg, lo as int, hi as int); }
            return Err(IntErrorKind::PosOverflow);
        }
        acc = wide as i64;
        i = i + 1;
    }
    assert(full.take(i - from) =~= full);
    Ok(acc)
}

/// Once a prefix fails, the whole text fails with the same error.
proof fn lemma_accumulate_invalid_prefix(ds: Seq<char>, k: int, neg: bool, lo: int, hi: int)
    requires
        0 <= k <= ds.len(),
        accumulate(ds.take(k), neg, lo, hi) is Err,
    ensures
        accumulate(ds, neg, lo, hi) == accumulate(ds.take(k), neg, lo, hi),
    decreases ds.len() - k,
{
    if k < ds.len() {
        assert(ds.take(k + 1).drop_last() =~= ds.take(k));
        lemma_accumulate_invalid_prefix(ds, k + 1, neg, lo, hi);
    } else {
        assert(ds.take(k) =~= ds);
    }
}

/// Reads `s` as `parse_int` says, for a range inside that of `i64`.
fn parse_int_exec(s: &[char], signed: bool, lo: i64, hi: i64) -> (r: Result<i64, IntErrorKind>)
    requires
        lo <= 0 <= hi,
    ensures
        r matches Ok(v) ==> parse_int(s@, signed, lo as int, hi as int) == Ok::<int, IntErrorKind>(v as int),
        r matches Err(e) ==> parse_int(s@, signed, lo as int, hi as int) == Err::<int, IntErrorKind>(e),
{
    if s.len() == 0 {
        return Err(IntErrorKind::Empty);
    }
    if s.len() == 1 && (s[0] == '+' || s[0] == '-') {
        return Err(IntErrorKind::InvalidDigit);
    }
    if s[0] == '+' {
        assert(s@.skip(1) =~= s@.drop_first());
        accumulate_exec(s, 1, false, lo, hi)
    } else if s[0] == '-' && signed {
        assert(s@.skip(1) =~= s@.drop_first());
        accumulate_exec(s, 1, true, lo, hi)
    } else {
        assert(s@.skip(0) =~= s@);
        accumulate_exec(s, 0, false, lo, hi)
    }
}

/// `u32::from_str` on the characters `s`.
pub fn parse_u32(s: &[char]) -> (r: Result<u32, IntErrorKind>)
    ensures
        r matches Ok(v) ==> parse_u32_spec(s@) == Ok::<int, IntErrorKind>(v as int),
        r matches Err(e) ==> parse_u32_spec(s@) == Err::<int, IntErrorKind>(e),
{
    match parse_int_exec(s, false, 0, 4294967295) {
        Ok(v) => {
            proof { lemma_parse_int_bounds(s@, false, 0, 4294967295); }
            Ok(v as u32)
        },
        Err(e) => Err(e),
    }
}

/// `i32::from_str` on the characters `s`.
pub fn parse_i32(s: &[char]) -> (r: Result<i32, IntErrorKind>)
    ensures
        r matches Ok(v) ==> parse_i32_spec(s@) == Ok::<int, IntErrorKind>(v as int),
        r matches Err(e) ==> parse_i32_spec(s@) == Err::<int, IntErrorKind>(e),
{
    match parse_int_exec(s, true, -2147483648, 2147483647) {
        Ok(v) => {
            proof { lemma_parse_int_bounds(s@, true, -2147483648, 2147483647); }
            Ok(v as i32)
        },
        Err(e) => Err(e),
    }
}

/// `i64::from_str` on the characters `s`.
pub fn parse_i64(s: &[char]) -> (r: Result<i64, IntErrorKind>)
    ensures
        r matches Ok(v) ==> parse_i64_spec(s@) == Ok::<int, IntErrorKind>(v as int),
        r matches Err(e) ==> parse_i64_spec(s@) == Err::<int, IntErrorKind>(e),
{
    parse_int_exec(s, true, -9223372036854775808, 9223372036854775807)
}

proof fn lemma_parse_int_bounds(s: Seq<char>, signed: bool, lo: int, hi: int)
    requires
        lo <= 0 <= hi,
    ensures
        parse_int(s, signed, lo, hi) matches Ok(v) ==> lo <= v <= hi,
{
    if s.len() > 0 {
        lemma_accumulate_bounds(s.drop_first(), false, lo, hi);
        lemma_accumulate_bounds(s.drop_first(), true, lo, hi);
        lemma_accumulate_bounds(s, false, lo, hi);
    }
}


/// The decimal digit character of `d < 10`.
pub open spec fn digit_char(d: nat) -> char {
    (48 + d) as char
}

/// The decimal text of `n`, without sign or leading zeros (`Display`).
pub open spec fn decimal(n: nat) -> Seq<char>
    decreases n,
{
    if n < 10 {
        seq![digit_char(n)]
    } else {
        decimal(n / 10).push(digit_char(n % 10))
    }
}

pub(crate) fn push_decimal(out: &mut Vec<char>, n: u32)
    ensures
        final(out)@ == old(out)@ + decimal(n as nat),
    decreases n,
{
    if n >= 10 {
        push_decimal(out, n / 10);
    }
    let d: u8 = (n % 10) as u8;
    let c: char = (48u8 + d) as char;
    assert(c == digit_char((n % 10) as nat));
    let ghost before = out@;
    out.push(c);
    proof {
        if n >= 10 {
            assert(out@ =~= old(out)@ + decimal(n as nat));
        } else {
            assert(out@ =~= old(out)@ + decimal(n as nat));
        }
    }
}

/// The decimal text of `n`, as `n.to_string()` writes it.
pub fn format_u32(n: u32) -> (r: String)
    ensures
        r@ == decimal(n as nat),
{
    let mut cs: Vec<char> = Vec::new();
    push_decimal(&mut cs, n);
    assert(cs@ =~= decimal(n as nat));
    crate::text::string_of(cs.as_slice())
}

/// `k` zeros (none when `k` is not positive).
pub open spec fn zeros(k: int) -> Seq<char> {
    Seq::new(if k > 0 { k as nat } else { 0 }, |i: int| '0')
}

/// The decimal text of `n`, with zeros in front up to `width` characters.
pub open spec fn zero_padded(n: nat, width: nat) -> Seq<char> {
    zeros(width - decimal(n).len()) + decimal(n)
}

/// Appends the decimal text of `n`, with zeros in front up to `width`
/// characters.
pub(crate) fn push_zero_padded(out: &mut Vec<char>, n: u32, width: usize)
    ensures
        final(out)@ == old(out)@ + zero_padded(n as nat, width as nat),
{
    let mut digits: Vec<char> = Vec::new();
    push_decimal(&mut digits, n);
    assert(digits@ =~= decimal(n as nat));
    let pad: usize = if width > digits.len() { width - digits.len() } else { 0 };
    let mut j: usize = 0;
    while j < pad
        invariant
            j <= pad,
            out@ == old(out)@ + zeros(j as int),
        decreases pad - j,
    {
        out.push('0');
        assert(zeros(j as int).push('0') =~= zeros(j + 1));
        j = j + 1;
    }
    assert(zeros(pad as int) =~= zeros(width - decimal(n as nat).len()));
    crate::text::extend_chars(out, digits.as_slice());
    assert(out@ =~= old(out)@ + zero_padded(n as nat, width as nat));
}

proof fn lemma_accumulate_decimal(n: nat)
    requires
        n <= u32::MAX,
    ensures
        accumulate(decimal(n), false, 0, u32::MAX as int) == Ok::<int, IntErrorKind>(n as int),
        decimal(n).len() >= 1,
        is_digit(decimal(n)[0]),
    decreases n,
{
    let d = n % 10;
    assert(digit_char(d) as int == 48 + d);
    assert(is_digit(digit_char(d)) && digit_value(digit_char(d)) == d);
    if n >= 10 {
        lemma_accumulate_decimal(n / 10);
        assert(decimal(n).drop_last() =~= decimal(n / 10));
        assert(decimal(n).last() == digit_char(d));
        assert(decimal(n)[0] == decimal(n / 10)[0]);
        assert((n / 10) * 10 + n % 10 == n) by (nonlinear_arith);
        assert(accumulate(decimal(n).drop_last(), false, 0, u32::MAX as int) == Ok::<int, IntErrorKind>((n / 10) as int));
    } else {
        assert(decimal(n).drop_last() =~= Seq::<char>::empty());
        assert(accumulate(Seq::<char>::empty(), false, 0, u32::MAX as int) == Ok::<int, IntErrorKind>(0));
        assert(accumulate(decimal(n).drop_last(), false, 0, u32::MAX as int) == Ok::<int, IntErrorKind>(0));
        assert(d == n);
    }
}

/// A number read as a `u32` lies in the range of `u32`.
pub proof fn law_parse_u32_in_range(s: Seq<char>)
    ensures
        parse_u32_spec(s) matches Ok(v) ==> 0 <= v <= u32::MAX,
{
    lemma_parse_int_bounds(s, false, 0, u32::MAX as int);
}

/// Every character of the decimal text of `n` is a digit.
pub proof fn law_decimal_digits(n: nat)
    ensures
        decimal(n).len() >= 1,
        forall|i: int| 0 <= i < decimal(n).len() ==> #[trigger] is_digit(decimal(n)[i]),
    decreases n,
{
    let d = n % 10;
    assert(digit_char(d) as int == 48 + d);
    if n >= 10 {
        law_decimal_digits(n / 10);
        assert forall|i: int| 0 <= i < decimal(n).len() implies #[trigger] is_digit(decimal(n)[i]) by {
            if i < decimal(n / 10).len() {
                assert(decimal(n)[i] == decimal(n / 10)[i]);
            }
        }
    }
}

/// Reading back the decimal text of a `u32` gives the number.
pub proof fn law_parse_u32_of_decimal(n: u32)
    ensures
        parse_u32_spec(decimal(n as nat)) == Ok::<int, IntErrorKind>(n as int),
{
    lemma_accumulate_decimal(n as nat);
    let d = decimal(n as nat);
    assert(d[0] != '+' && d[0] != '-');
}

} // verus!
