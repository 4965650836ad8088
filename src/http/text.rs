use vstd::prelude::*;

verus! {

/// ASCII whitespace as `str::trim` removes it: space, tab, LF, VT, FF, CR.
pub open spec fn is_space(b: u8) -> bool {
    b == 0x20 || (0x09 <= b <= 0x0d)
}

/// `s` without its leading whitespace.
pub open spec fn trim_front(s: Seq<u8>) -> Seq<u8>
    decreases s.len(),
{
    if s.len() > 0 && is_space(s[0]) {
        trim_front(s.drop_first())
    } else {
        s
    }
}

/// `s` without its trailing whitespace.
pub open spec fn trim_back(s: Seq<u8>) -> Seq<u8>
    decreases s.len(),
{
    if s.len() > 0 && is_space(s.last()) {
        trim_back(s.drop_last())
    } else {
        s
    }
}

/// `s` without whitespace at either end.
pub open spec fn trim(s: Seq<u8>) -> Seq<u8> {
    trim_back(trim_front(s))
}

/// The ASCII lower-case form of a byte.
pub open spec fn lower(b: u8) -> u8 {
    if 0x41 <= b <= 0x5a {
        (b + 0x20) as u8
    } else {
        b
    }
}

/// The ASCII lower-case form of a byte string.
pub open spec fn lower_seq(s: Seq<u8>) -> Seq<u8> {
    Seq::new(s.len(), |i: int| lower(s[i]))
}

/// `a` and `b` are equal but for ASCII case.
pub open spec fn eq_ignore_case(a: Seq<u8>, b: Seq<u8>) -> bool {
    lower_seq(a) == lower_seq(b)
}

pub fn space(b: u8) -> (r: bool)
    ensures
        r == is_space(b),
{
    b == 0x20 || (0x09 <= b && b <= 0x0d)
}

pub fn to_lower(b: u8) -> (r: u8)
    ensures
        r == lower(b),
{
    if 0x41 <= b && b <= 0x5a {
        b + 0x20
    } else {
        b
    }
}

/// The bounds of `s[start..end]` once whitespace is trimmed from the front.
pub fn trim_front_range(s: &[u8], start: usize, end: usize) -> (r: usize)
    requires
        start <= end <= s@.len(),
    ensures
        start <= r <= end,
        s@.subrange(r as int, end as int) == trim_front(s@.subrange(start as int, end as int)),
{
    let mut a = start;
    while a < end && space(s[a])
        invariant
            start <= a <= end <= s@.len(),
            trim_front(s@.subrange(a as int, end as int)) == trim_front(
                s@.subrange(start as int, end as int),
            ),
        decreases end - a,
    {
        assert(s@.subrange(a as int, end as int).drop_first() =~= s@.subrange(a + 1, end as int));
        a = a + 1;
    }
    a
}

/// The bounds of `s[start..end]` once whitespace is trimmed from the back.
pub fn trim_back_range(s: &[u8], start: usize, end: usize) -> (r: usize)
    requires
        start <= end <= s@.len(),
    ensures
        start <= r <= end,
        s@.subrange(start as int, r as int) == trim_back(s@.subrange(start as int, end as int)),
{
    let mut b = end;
    while b > start && space(s[b - 1])
        invariant
            start <= b <= end <= s@.len(),
            trim_back(s@.subrange(start as int, b as int)) == trim_back(
                s@.subrange(start as int, end as int),
            ),
        decreases b - start,
    {
        assert(s@.subrange(start as int, b as int).drop_last() =~= s@.subrange(
            start as int,
            b - 1,
        ));
        b = b - 1;
    }
    b
}

/// Whether `s[start..end]` equals `word` but for ASCII case.
pub fn range_eq_ignore_case(s: &[u8], start: usize, end: usize, word: &[u8]) -> (r: bool)
    requires
        start <= end <= s@.len(),
    ensures
        r == eq_ignore_case(s@.subrange(start as int, end as int), word@),
{
    let ghost a = s@.subrange(start as int, end as int);
    if end - start != word.len() {
        assert(lower_seq(a).len() != lower_seq(word@).len());
        return false;
    }
    let mut i: usize = 0;
    while i < word.len()
        invariant
            end - start == word@.len(),
            start <= end <= s@.len(),
            a == s@.subrange(start as int, end as int),
            i <= word@.len(),
            forall|j: int| 0 <= j < i ==> lower(a[j]) == lower(word@[j]),
        decreases word@.len() - i,
    {
        if to_lower(s[start + i]) != to_lower(word[i]) {
            assert(lower_seq(a)[i as int] != lower_seq(word@)[i as int]);
            return false;
        }
        i = i + 1;
    }
    assert(lower_seq(a) =~= lower_seq(word@));
    true
}

/// The index of the first `b` in `s[start..end]`, if any.
pub fn find_byte(s: &[u8], start: usize, end: usize, b: u8) -> (r: Option<usize>)
    requires
        start <= end <= s@.len(),
    ensures
        r matches Some(i) ==> start <= i < end && s@[i as int] == b && forall|j: int|
            start <= j < i ==> s@[j] != b,
        r is None ==> forall|j: int| start <= j < end ==> s@[j] != b,
{
    let mut i = start;
    while i < end
        invariant
            start <= i <= end <= s@.len(),
            forall|j: int| start <= j < i ==> s@[j] != b,
        decreases end - i,
    {
        if s[i] == b {
            return Some(i);
        }
        i = i + 1;
    }
    None
}

/// A copy of `s`.
pub fn copy_bytes(s: &[u8]) -> (r: Vec<u8>)
    ensures
        r@ == s@,
{
    let mut r: Vec<u8> = Vec::new();
    let mut i: usize = 0;
    while i < s.len()
        invariant
            i <= s@.len(),
            r@ == s@.subrange(0, i as int),
        decreases s@.len() - i,
    {
        r.push(s[i]);
        i = i + 1;
        assert(r@ =~= s@.subrange(0, i as int));
    }
    assert(s@.subrange(0, s@.len() as int) =~= s@);
    r
}

} // verus!
