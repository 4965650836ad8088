use vstd::prelude::*;

verus! {

/// The value of an ASCII hex digit, or -1 for any other byte.
pub open spec fn digit_value(b: u8) -> int {
    if 0x30 <= b <= 0x39 {
        b - 0x30
    } else if 0x61 <= b <= 0x66 {
        b - 0x61 + 10
    } else if 0x41 <= b <= 0x46 {
        b - 0x41 + 10
    } else {
        -1
    }
}

/// `b` is a digit of base `base` (10 or 16).
pub open spec fn is_digit(b: u8, base: int) -> bool {
    0 <= digit_value(b) < base
}

/// `s` is made of base-`base` digits only.
pub open spec fn all_digits(s: Seq<u8>, base: int) -> bool {
    forall|i: int| 0 <= i < s.len() ==> is_digit(#[trigger] s[i], base)
}

/// The number that the digits `s` write in base `base`, most significant
/// first.
pub open spec fn digits_value(s: Seq<u8>, base: int) -> int
    decreases s.len(),
{
    if s.len() == 0 {
        0
    } else {
        digits_value(s.drop_last(), base) * base + digit_value(s.last())
    }
}

fn digit(b: u8) -> (r: u64)
    requires
        digit_value(b) >= 0,
    ensures
        r == digit_value(b),
{
    if b <= 0x39 {
        (b - 0x30) as u64
    } else if b >= 0x61 {
        (b - 0x61 + 10) as u64
    } else {
        (b - 0x41 + 10) as u64
    }
}

/// Whether `b` is an ASCII digit of base `base`.
pub fn check_digit(b: u8, base: u64) -> (r: bool)
    ensures
        r == is_digit(b, base as int),
{
    let v: u64 = if 0x30 <= b && b <= 0x39 {
        (b - 0x30) as u64
    } else if 0x61 <= b && b <= 0x66 {
        (b - 0x61 + 10) as u64
    } else if 0x41 <= b && b <= 0x46 {
        (b - 0x41 + 10) as u64
    } else {
        return false;
    };
    v < base
}

proof fn lemma_value_grows(s: Seq<u8>, base: int, i: int)
    requires
        2 <= base,
        all_digits(s, base),
        0 <= i <= s.len(),
    ensures
        digits_value(s.subrange(0, i), base) <= digits_value(s, base),
        digits_value(s.subrange(0, i), base) >= 0,
    decreases s.len() - i,
{
    if i < s.len() {
        lemma_value_grows(s, base, i + 1);
        let p = s.subrange(0, i + 1);
        assert(p.drop_last() =~= s.subrange(0, i));
        let q = s.subrange(0, i);
        assert forall|j: int| 0 <= j < q.len() implies is_digit(#[trigger] q[j], base) by {
            assert(q[j] == s[j]);
        }
        lemma_nonneg(q, base);
        assert(digits_value(p, base) == digits_value(s.subrange(0, i), base) * base + digit_value(p.last()));
        assert(digits_value(s.subrange(0, i), base) <= digits_value(s.subrange(0, i), base) * base) by (nonlinear_arith)
            requires digits_value(s.subrange(0, i), base) >= 0, base >= 2;
    } else {
        assert(s.subrange(0, i) =~= s);
        lemma_nonneg(s, base);
    }
}

proof fn lemma_nonneg(s: Seq<u8>, base: int)
    requires
        2 <= base,
        all_digits(s, base),
    ensures
        digits_value(s, base) >= 0,
    decreases s.len(),
{
    if s.len() > 0 {
        lemma_nonneg(s.drop_last(), base);
        assert(digits_value(s.drop_last(), base) * base >= 0) by (nonlinear_arith)
            requires digits_value(s.drop_last(), base) >= 0, base >= 2;
    }
}

/// The `u64` that the digits `s[start..end]` write in base `base`, or `None`
/// when it does not fit.
pub fn parse_digits(s: &[u8], start: usize, end: usize, base: u64) -> (r: Option<u64>)
    requires
        start <= end <= s@.len(),
        base == 10 || base == 16,
        all_digits(s@.subrange(start as int, end as int), base as int),
    ensures
        r is Some <==> digits_value(s@.subrange(start as int, end as int), base as int)
            <= u64::MAX,
        r matches Some(v) ==> v == digits_value(s@.subrange(start as int, end as int), base as int),
{
    let ghost all = s@.subrange(start as int, end as int);
    let mut v: u64 = 0;
    let mut i = start;
    assert(all.subrange(0, 0) =~= Seq::<u8>::empty());
    while i < end
        invariant
            start <= i <= end <= s@.len(),
            base == 10 || base == 16,
            all == s@.subrange(start as int, end as int),
            all_digits(all, base as int),
            v == digits_value(all.subrange(0, i - start), base as int),
        decreases end - i,
    {
        let ghost prefix = all.subrange(0, i - start + 1);
        assert(prefix.drop_last() =~= all.subrange(0, i - start));
        assert(prefix.last() == s@[i as int]);
        assert(is_digit(all[i - start], base as int));
        let d = digit(s[i]);
        let q: u64 = (u64::MAX - d) / base;
        if v > q {
            proof {
                assert(v * base + d > u64::MAX) by (nonlinear_arith)
                    requires v as int > q as int, q as int == (u64::MAX as int - d as int) / (base as int), base > 0, d <= u64::MAX;
                lemma_value_grows(all, base as int, i - start + 1);
            }
            return None;
        }
        assert(v * base + d <= u64::MAX) by (nonlinear_arith)
            requires v as int <= q as int, q as int == (u64::MAX as int - d as int) / (base as int), base > 0, d <= u64::MAX;
        v = v * base + d;
        i = i + 1;
    }
    assert(all.subrange(0, end - start) =~= all);
    Some(v)
}

} // verus!
