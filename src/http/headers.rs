use vstd::prelude::*;

use crate::http::error::HttpError;
use crate::http::text::{copy_bytes, lower, lower_seq, to_lower};

verus! {

/// A header name byte: an RFC 7230 `tchar`.
pub open spec fn is_token_byte(b: u8) -> bool {
    (0x30 <= b <= 0x39) || (0x41 <= b <= 0x5a) || (0x61 <= b <= 0x7a) || b == 0x21 || b == 0x23
        || b == 0x24 || b == 0x25 || b == 0x26 || b == 0x27 || b == 0x2a || b == 0x2b || b == 0x2d
        || b == 0x2e || b == 0x5e || b == 0x5f || b == 0x60 || b == 0x7c || b == 0x7e
}

/// A valid header name: one or more token bytes.
pub open spec fn valid_name(s: Seq<u8>) -> bool {
    s.len() > 0 && forall|i: int| 0 <= i < s.len() ==> is_token_byte(#[trigger] s[i])
}

/// A header value byte: visible ASCII, space, tab or any byte above 0x7f.
pub open spec fn is_value_byte(b: u8) -> bool {
    (b >= 0x20 && b != 0x7f) || b == 0x09
}

/// A valid header value.
pub open spec fn valid_value(s: Seq<u8>) -> bool {
    forall|i: int| 0 <= i < s.len() ==> is_value_byte(#[trigger] s[i])
}

pub fn check_name(s: &[u8]) -> (r: bool)
    ensures
        r == valid_name(s@),
{
    if s.len() == 0 {
        return false;
    }
    let mut i: usize = 0;
    while i < s.len()
        invariant
            i <= s@.len(),
            forall|j: int| 0 <= j < i ==> is_token_byte(#[trigger] s@[j]),
        decreases s@.len() - i,
    {
        let b = s[i];
        let ok = (0x30 <= b && b <= 0x39) || (0x41 <= b && b <= 0x5a) || (0x61 <= b && b <= 0x7a)
            || b == 0x21 || b == 0x23 || b == 0x24 || b == 0x25 || b == 0x26 || b == 0x27 || b
            == 0x2a || b == 0x2b || b == 0x2d || b == 0x2e || b == 0x5e || b == 0x5f || b == 0x60
            || b == 0x7c || b == 0x7e;
        if !ok {
            return false;
        }
        i = i + 1;
    }
    true
}

pub fn check_value(s: &[u8]) -> (r: bool)
    ensures
        r == valid_value(s@),
{
    let mut i: usize = 0;
    while i < s.len()
        invariant
            i <= s@.len(),
            forall|j: int| 0 <= j < i ==> is_value_byte(#[trigger] s@[j]),
        decreases s@.len() - i,
    {
        let b = s[i];
        if !((b >= 0x20 && b != 0x7f) || b == 0x09) {
            return false;
        }
        i = i + 1;
    }
    true
}

/// The lower-case copy of a header name.
pub fn lowercase(s: &[u8]) -> (r: Vec<u8>)
    ensures
        r@ == lower_seq(s@),
{
    let mut r: Vec<u8> = Vec::new();
    let mut i: usize = 0;
    while i < s.len()
        invariant
            i <= s@.len(),
            r@ == lower_seq(s@.subrange(0, i as int)),
        decreases s@.len() - i,
    {
        r.push(to_lower(s[i]));
        i = i + 1;
        assert(r@ =~= lower_seq(s@.subrange(0, i as int)));
    }
    assert(s@.subrange(0, s@.len() as int) =~= s@);
    r
}

/// A set of header fields: names compared without regard to ASCII case, one
/// value per name, in order of first insertion.
#[derive(Debug)]
pub struct Headers {
    pub entries: Vec<(Vec<u8>, Vec<u8>)>,
}

/// The header fields as a map from lower-case name to value.
pub open spec fn fields_map(e: Seq<(Seq<u8>, Seq<u8>)>) -> Map<Seq<u8>, Seq<u8>>
    decreases e.len(),
{
    if e.len() == 0 {
        Map::empty()
    } else {
        fields_map(e.drop_last()).insert(e.last().0, e.last().1)
    }
}

impl View for Headers {
    type V = Seq<(Seq<u8>, Seq<u8>)>;

    open spec fn view(&self) -> Seq<(Seq<u8>, Seq<u8>)> {
        self.entries@.map_values(|p: (Vec<u8>, Vec<u8>)| (p.0@, p.1@))
    }
}

impl Headers {
    /// Names are valid, lower-case and distinct; values are valid.
    pub open spec fn wf(&self) -> bool {
        &&& forall|i: int|
            0 <= i < self@.len() ==> valid_name(#[trigger] self@[i].0) && lower_seq(self@[i].0)
                == self@[i].0 && valid_value(self@[i].1)
        &&& forall|i: int, j: int|
            0 <= i < j < self@.len() ==> #[trigger] self@[i].0 != #[trigger] self@[j].0
    }

    /// The fields as a map from lower-case name to value.
    pub open spec fn map(&self) -> Map<Seq<u8>, Seq<u8>> {
        fields_map(self@)
    }

    pub fn new() -> (r: Headers)
        ensures
            r.wf(),
            r@.len() == 0,
            r.map() == Map::<Seq<u8>, Seq<u8>>::empty(),
    {
        Headers { entries: Vec::new() }
    }

    pub fn len(&self) -> (r: usize)
        ensures
            r == self@.len(),
    {
        self.entries.len()
    }

    fn index_of(&self, lname: &[u8]) -> (r: Option<usize>)
        ensures
            r matches Some(i) ==> i < self@.len() && self@[i as int].0 == lname@,
            r is None ==> forall|i: int| 0 <= i < self@.len() ==> self@[i].0 != lname@,
    {
        let mut i: usize = 0;
        while i < self.entries.len()
            invariant
                i <= self@.len(),
                forall|j: int| 0 <= j < i ==> self@[j].0 != lname@,
            decreases self@.len() - i,
        {
            if bytes_eq(self.entries[i].0.as_slice(), lname) {
                return Some(i);
            }
            i = i + 1;
        }
        None
    }

    /// The value of the field named `name`, in any ASCII case.
    pub fn get(&self, name: &[u8]) -> (r: Option<&Vec<u8>>)
        requires
            self.wf(),
        ensures
            r is Some <==> self.map().contains_key(lower_seq(name@)),
            r matches Some(v) ==> v@ == self.map()[lower_seq(name@)],
    {
        let lname = lowercase(name);
        proof {
            lemma_fields_map(self@);
        }
        match self.index_of(lname.as_slice()) {
            Some(i) => Some(&self.entries[i].1),
            None => None,
        }
    }

    /// Whether a field named `name` is present.
    pub fn contains_key(&self, name: &[u8]) -> (r: bool)
        requires
            self.wf(),
        ensures
            r == self.map().contains_key(lower_seq(name@)),
    {
        self.get(name).is_some()
    }

    /// Removes the field `name`, in any ASCII case, and returns its value.
    pub fn remove(&mut self, name: &[u8]) -> (r: Option<Vec<u8>>)
        requires
            old(self).wf(),
        ensures
            final(self).wf(),
            r is Some <==> old(self).map().contains_key(lower_seq(name@)),
            r matches Some(v) ==> v@ == old(self).map()[lower_seq(name@)],
            final(self).map() == old(self).map().remove(lower_seq(name@)),
    {
        let lname = lowercase(name);
        proof {
            lemma_fields_map(self@);
        }
        let ghost before = self@;
        match self.index_of(lname.as_slice()) {
            Some(i) => {
                let (_, v) = self.entries.remove(i);
                proof {
                    assert(self@ =~= before.remove(i as int));
                    lemma_fields_map_remove(before, i as int);
                }
                Some(v)
            },
            None => {
                proof {
                    assert(!fields_map(before).contains_key(lower_seq(name@)));
                    assert(fields_map(before).remove(lower_seq(name@)) =~= fields_map(before));
                }
                None
            },
        }
    }

    /// Sets the field `name` to `value`, replacing any value it had. A name
    /// that is not a token, or a value with control bytes, is refused and the
    /// set is left as it was.
    pub fn insert(&mut self, name: &[u8], value: &[u8]) -> (r: Result<(), HttpError>)
        requires
            old(self).wf(),
        ensures
            final(self).wf(),
            r is Ok <==> valid_name(name@) && valid_value(value@),
            r is Ok ==> final(self).map() == old(self).map().insert(lower_seq(name@), value@),
            r is Err ==> *final(self) == *old(self),
            !valid_name(name@) ==> (r matches Err(HttpError::InvalidHeaderName(n)) && n@ == name@),
            valid_name(name@) && !valid_value(value@) ==> (r matches Err(
                HttpError::InvalidHeaderValue(v),
            ) && v@ == value@),
    {
        if !check_name(name) {
            return Err(HttpError::InvalidHeaderName(copy_bytes(name)));
        }
        if !check_value(value) {
            return Err(HttpError::InvalidHeaderValue(copy_bytes(value)));
        }
        let lname = lowercase(name);
        let v = copy_bytes(value);
        proof {
            lemma_lower_valid(name@);
            lemma_fields_map(self@);
        }
        let ghost before = self@;
        match self.index_of(lname.as_slice()) {
            Some(i) => {
                self.entries.set(i, (lname, v));
                proof {
                    assert(self@ =~= before.update(i as int, (lower_seq(name@), value@)));
                    lemma_fields_map_update(before, i as int, value@);
                }
            },
            None => {
                self.entries.push((lname, v));
                proof {
                    assert(self@ =~= before.push((lower_seq(name@), value@)));
                    assert(self@.drop_last() =~= before);
                }
            },
        }
        Ok(())
    }
}

/// Whether two byte strings are equal.
pub fn bytes_eq(a: &[u8], b: &[u8]) -> (r: bool)
    ensures
        r == (a@ == b@),
{
    if a.len() != b.len() {
        return false;
    }
    let mut i: usize = 0;
    while i < a.len()
        invariant
            a@.len() == b@.len(),
            i <= a@.len(),
            forall|j: int| 0 <= j < i ==> a@[j] == b@[j],
        decreases a@.len() - i,
    {
        if a[i] != b[i] {
            return false;
        }
        i = i + 1;
    }
    assert(a@ =~= b@);
    true
}

proof fn lemma_lower_valid(s: Seq<u8>)
    requires
        valid_name(s),
    ensures
        valid_name(lower_seq(s)),
        lower_seq(lower_seq(s)) == lower_seq(s),
{
    assert(lower_seq(lower_seq(s)) =~= lower_seq(s));
    assert forall|i: int| 0 <= i < lower_seq(s).len() implies is_token_byte(#[trigger] lower_seq(s)[i]) by {
        assert(is_token_byte(s[i]));
    }
}

/// Each key of the map is the name of some field, and each field's value is
/// the map's value for its name, when names are distinct.
proof fn lemma_fields_map(e: Seq<(Seq<u8>, Seq<u8>)>)
    requires
        forall|i: int, j: int| 0 <= i < j < e.len() ==> #[trigger] e[i].0 != #[trigger] e[j].0,
    ensures
        forall|k: Seq<u8>| #[trigger] fields_map(e).contains_key(k) <==> exists|i: int| 0 <= i < e.len() && e[i].0 == k,
        forall|i: int| 0 <= i < e.len() ==> fields_map(e)[#[trigger] e[i].0] == e[i].1,
    decreases e.len(),
{
    if e.len() > 0 {
        let p = e.drop_last();
        lemma_fields_map(p);
        assert forall|k: Seq<u8>| #[trigger] fields_map(e).contains_key(k) implies exists|i: int| 0 <= i < e.len() && e[i].0 == k by {
            if k != e.last().0 {
                assert(fields_map(p).contains_key(k));
                let i = choose|i: int| 0 <= i < p.len() && p[i].0 == k;
                assert(p[i] == e[i]);
                assert(e[i].0 == k);
            } else {
                assert(e[e.len() - 1].0 == k);
            }
        }
        assert forall|k: Seq<u8>| (exists|i: int| 0 <= i < e.len() && e[i].0 == k) implies #[trigger] fields_map(e).contains_key(k) by {
            let i = choose|i: int| 0 <= i < e.len() && e[i].0 == k;
            if i < e.len() - 1 {
                assert(p[i].0 == k);
            }
        }
        assert forall|i: int| 0 <= i < e.len() implies fields_map(e)[#[trigger] e[i].0] == e[i].1 by {
            if i < e.len() - 1 {
                assert(p[i] == e[i]);
                assert(e[i].0 != e[e.len() - 1].0);
            }
        }
    }
}

proof fn lemma_fields_map_update(e: Seq<(Seq<u8>, Seq<u8>)>, i: int, v: Seq<u8>)
    requires
        0 <= i < e.len(),
        forall|a: int, b: int| 0 <= a < b < e.len() ==> #[trigger] e[a].0 != #[trigger] e[b].0,
    ensures
        fields_map(e.update(i, (e[i].0, v))) == fields_map(e).insert(e[i].0, v),
    decreases e.len(),
{
    let u = e.update(i, (e[i].0, v));
    if i == e.len() - 1 {
        assert(u.drop_last() =~= e.drop_last());
    } else {
        let p = e.drop_last();
        lemma_fields_map_update(p, i, v);
        assert(u.drop_last() =~= p.update(i, (p[i].0, v)));
        assert(e[i].0 != e.last().0);
        assert(fields_map(u) =~= fields_map(e).insert(e[i].0, v));
    }
}

proof fn lemma_fields_map_remove(e: Seq<(Seq<u8>, Seq<u8>)>, i: int)
    requires
        0 <= i < e.len(),
        forall|a: int, b: int| 0 <= a < b < e.len() ==> #[trigger] e[a].0 != #[trigger] e[b].0,
    ensures
        fields_map(e.remove(i)) == fields_map(e).remove(e[i].0),
    decreases e.len(),
{
    let r = e.remove(i);
    if i == e.len() - 1 {
        assert(r =~= e.drop_last());
        lemma_fields_map(e.drop_last());
        assert(!fields_map(e.drop_last()).contains_key(e[i].0));
        assert(fields_map(e).remove(e[i].0) =~= fields_map(e.drop_last()));
    } else {
        let p = e.drop_last();
        lemma_fields_map_remove(p, i);
        assert(r.drop_last() =~= p.remove(i));
        assert(r.last() == e.last());
        assert(e[i].0 != e.last().0);
        assert(fields_map(r) =~= fields_map(e).remove(e[i].0));
    }
}

} // verus!
