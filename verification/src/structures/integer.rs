//! Signed integers in the shortest two's-complement, big-endian form.

use vstd::prelude::*;
use crate::common::TagClass;
use crate::structure::{StructureTag, PL, BerPayload, BerValue};
use crate::structures::ASNTag;
use crate::universal;

verus! {

/// Integer value.
#[derive(Clone, Copy, Debug, PartialEq)]
pub struct Integer {
    pub id: u64,
    pub class: TagClass,
    pub inner: i64,
}

/// Integer with a different tag.
#[derive(Clone, Copy, Debug, PartialEq)]
pub struct Enumerated {
    pub id: u64,
    pub class: TagClass,
    pub inner: i64,
}

/// The octets that stand for `i`: big-endian two's complement, as few as keep the sign.
pub open spec fn int_octets(i: int) -> Seq<u8>
    decreases (if i < 0 { -i } else { i }),
{
    if -128 <= i < 128 {
        seq![(i % 256) as u8]
    } else {
        int_octets(i / 256).push((i % 256) as u8)
    }
}

/// The number that a run of octets stands for, read as big-endian two's complement.
pub open spec fn octets_value(s: Seq<u8>) -> int
    decreases s.len(),
{
    if s.len() == 0 {
        0
    } else if s.len() == 1 {
        if s[0] >= 128 {
            s[0] - 256
        } else {
            s[0] as int
        }
    } else {
        octets_value(s.drop_last()) * 256 + s.last()
    }
}

/// No leading octet is a mere sign extension of the one behind it.
pub open spec fn is_minimal(s: Seq<u8>) -> bool {
    &&& s.len() >= 1
    &&& s.len() >= 2 ==> !(s[0] == 0 && s[1] < 128) && !(s[0] == 0xff && s[1] >= 128)
}

/// `128 * 256^(k-1)`: the numbers that fit in `k` octets lie in `-limit(k) .. limit(k)`.
pub open spec fn limit(k: nat) -> int
    decreases k,
{
    if k <= 1 {
        128
    } else {
        256 * limit((k - 1) as nat)
    }
}

/// The value of `k` octets lies within the limit of `k` octets.
proof fn lemma_octets_value_range(s: Seq<u8>)
    requires
        s.len() >= 1,
    ensures
        -limit(s.len()) <= octets_value(s) < limit(s.len()),
    decreases s.len(),
{
    if s.len() > 1 {
        lemma_octets_value_range(s.drop_last());
    }
}

/// A minimal run of two or more octets stands for a number that needs them all.
proof fn lemma_minimal_value_large(s: Seq<u8>)
    requires
        is_minimal(s),
        s.len() >= 2,
    ensures
        octets_value(s) < -limit((s.len() - 1) as nat) || octets_value(s) >= limit(
            (s.len() - 1) as nat,
        ),
        octets_value(s) < 0 <==> s[0] >= 128,
    decreases s.len(),
{
    let t = s.drop_last();
    if s.len() == 2 {
        reveal_with_fuel(octets_value, 2);
        assert(t.len() == 1);
        assert(t[0] == s[0]);
        assert(limit(1) == 128);
    } else {
        assert(t[0] == s[0] && t[1] == s[1]);
        lemma_minimal_value_large(t);
        assert(limit((s.len() - 1) as nat) == 256 * limit((s.len() - 2) as nat));
        assert(octets_value(s) == octets_value(t) * 256 + s.last());
    }
}

/// Writing a number and reading the octets back gives the number.
pub proof fn lemma_octets_round_trip(i: int)
    ensures
        octets_value(int_octets(i)) == i,
        int_octets(i).len() >= 1,
    decreases (if i < 0 { -i } else { i }),
{
    if -128 <= i < 128 {
    } else {
        lemma_octets_round_trip(i / 256);
        let s = int_octets(i);
        assert(s.drop_last() =~= int_octets(i / 256));
    }
}

/// The octets written for a number carry no removable leading octet.
pub proof fn lemma_int_octets_minimal(i: int)
    ensures
        is_minimal(int_octets(i)),
    decreases (if i < 0 { -i } else { i }),
{
    if -128 <= i < 128 {
    } else {
        let q = i / 256;
        lemma_int_octets_minimal(q);
        lemma_octets_round_trip(q);
        let p = int_octets(q);
        let s = int_octets(i);
        assert(s[0] == p[0]);
        if -128 <= q < 128 {
            assert(p.len() == 1);
            assert(s[1] == (i % 256) as u8);
        } else {
            assert(s[1] == p[1]);
        }
    }
}

/// Dropping the first octet of what was written for a number changes the
/// number that the octets stand for.
pub proof fn lemma_int_octets_no_spare_octet(i: int)
    requires
        int_octets(i).len() >= 2,
    ensures
        octets_value(int_octets(i).drop_first()) != i,
{
    let s = int_octets(i);
    lemma_int_octets_minimal(i);
    lemma_octets_round_trip(i);
    lemma_minimal_value_large(s);
    lemma_octets_value_range(s.drop_first());
}

/// A minimal run of octets is exactly what is written for the number it stands for.
pub proof fn lemma_minimal_is_canonical(s: Seq<u8>)
    requires
        is_minimal(s),
    ensures
        int_octets(octets_value(s)) == s,
    decreases s.len(),
{
    if s.len() == 1 {
        assert(int_octets(octets_value(s)) =~= s);
    } else {
        let t = s.drop_last();
        lemma_minimal_value_large(s);
        lemma_octets_value_range(s);
        if s.len() == 2 {
            assert(t[0] == s[0]);
            assert(is_minimal(t));
        } else {
            assert(t[0] == s[0] && t[1] == s[1]);
        }
        lemma_minimal_is_canonical(t);
        let v = octets_value(s);
        assert(v / 256 == octets_value(t) && v % 256 == s.last());
        assert(int_octets(v) =~= s);
    }
}

/// The number that content octets stand for, if they are the shortest form
/// of a 64-bit number.
pub open spec fn integer_of(octets: Seq<u8>) -> Option<int> {
    if is_minimal(octets) && octets.len() <= 8 {
        Some(octets_value(octets))
    } else {
        None
    }
}

/// Decoding the octets that were written for a 64-bit number gives the
/// number back.
pub proof fn lemma_integer_round_trip(i: int)
    requires
        i64::MIN <= i <= i64::MAX,
    ensures
        integer_of(int_octets(i)) == Some(i),
{
    lemma_octets_round_trip(i);
    lemma_int_octets_minimal(i);
    lemma_int_octets_len(i);
}

/// A 64-bit number takes at most eight octets.
pub proof fn lemma_int_octets_len(i: int)
    requires
        i64::MIN <= i <= i64::MAX,
    ensures
        1 <= int_octets(i).len() <= 8,
{
    lemma_octets_round_trip(i);
    lemma_int_octets_minimal(i);
    let s = int_octets(i);
    if s.len() >= 2 {
        lemma_minimal_value_large(s);
        if s.len() > 8 {
            lemma_limit_monotone(8, (s.len() - 1) as nat);
        }
        lemma_limit_eight();
    }
}

/// Eight octets cover exactly the 64-bit numbers.
proof fn lemma_limit_eight()
    ensures
        limit(8) == 0x8000_0000_0000_0000,
{
    reveal_with_fuel(limit, 9);
}

/// More octets reach further.
proof fn lemma_limit_monotone(a: nat, b: nat)
    requires
        a <= b,
    ensures
        limit(a) <= limit(b),
        limit(a) >= 128,
    decreases b,
{
    if a < b {
        lemma_limit_monotone(a, (b - 1) as nat);
    } else if a > 1 {
        lemma_limit_monotone((a - 1) as nat, (a - 1) as nat);
    }
}

/// Builds the primitive value that carries `inner` under the given tag.
pub fn i_e_into_structure(id: u64, class: TagClass, inner: i64) -> (r: StructureTag)
    ensures
        r@ == (BerValue { class, id, payload: BerPayload::Primitive(int_octets(inner as int)) }),
        r.payload is P,
{
    let out = encode_integer(inner);
    StructureTag { id: id, class: class, payload: PL::P(out) }
}

/// The content octets of `inner`: at most eight, none of them spare, and
/// they stand for `inner`.
pub fn encode_integer(inner: i64) -> (out: Vec<u8>)
    ensures
        out@ == int_octets(inner as int),
        is_minimal(out@),
        1 <= out@.len() <= 8,
        integer_of(out@) == Some(inner as int),
{
    proof {
        lemma_int_octets_minimal(inner as int);
        lemma_int_octets_len(inner as int);
        lemma_octets_round_trip(inner as int);
    }
    let mut v: i64 = inner;
    let mut low_first: Vec<u8> = Vec::new();
    while v < -128 || v > 127
        invariant
            int_octets(inner as int) == int_octets(v as int) + low_first@.reverse(),
        decreases (if v < 0 { -v } else { v as int }),
    {
        let ghost before = low_first@;
        assert(0 <= (v & 0xff) < 256 && (v & 0xff) == v % 256 && (v >> 8u64) == v / 256)
            by (bit_vector);
        let low: u8 = (v & 0xff) as u8;
        low_first.push(low);
        proof {
            assert(low_first@.reverse() =~= seq![low] + before.reverse());
            assert(int_octets(v as int) + before.reverse() =~= int_octets(v as int / 256)
                + low_first@.reverse());
        }
        v = v >> 8;
    }
    assert(0 <= (v & 0xff) < 256 && (v & 0xff) == v % 256) by (bit_vector);
    let ghost before = low_first@;
    let low: u8 = (v & 0xff) as u8;
    low_first.push(low);
    proof {
        assert(low_first@.reverse() =~= seq![low] + before.reverse());
    }
    let mut out: Vec<u8> = Vec::new();
    let mut k: usize = low_first.len();
    while k > 0
        invariant
            k <= low_first.len(),
            out@.len() == low_first.len() - k,
            forall|j: int| 0 <= j < out@.len() ==> out@[j] == low_first@[low_first.len() - 1 - j],
        decreases k,
    {
        k -= 1;
        out.push(low_first[k]);
    }
    assert(out@ =~= low_first@.reverse());
    out
}

/// Reads content octets as a number. Only the shortest form of a 64-bit
/// number is accepted.
pub fn decode_integer(octets: &[u8]) -> (r: Option<i64>)
    ensures
        match integer_of(octets@) {
            Some(v) => r == Some(v as i64) && i64::MIN <= v <= i64::MAX && int_octets(v) == octets@,
            None => r.is_none(),
        },
{
    let n = octets.len();
    if n == 0 || n > 8 {
        return None;
    }
    if n >= 2 {
        let spare_zero = octets[0] == 0 && octets[1] < 128;
        let spare_ones = octets[0] == 0xff && octets[1] >= 128;
        if spare_zero || spare_ones {
            return None;
        }
    }
    let mut v: i64 = if octets[0] >= 128 {
        octets[0] as i64 - 256
    } else {
        octets[0] as i64
    };
    let mut k: usize = 1;
    assert(octets@.subrange(0, 1)[0] == octets@[0]);
    while k < n
        invariant
            1 <= k <= n <= 8,
            n == octets@.len(),
            v == octets_value(octets@.subrange(0, k as int)),
        decreases n - k,
    {
        proof {
            let s = octets@.subrange(0, k as int);
            let s2 = octets@.subrange(0, k + 1);
            lemma_octets_value_range(s);
            lemma_limit_monotone(k as nat, 7);
            reveal_with_fuel(limit, 8);
            assert(limit(7) == 0x80_0000_0000_0000);
            assert(s2.drop_last() =~= s);
        }
        v = v * 256 + octets[k] as i64;
        k += 1;
    }
    proof {
        assert(octets@.subrange(0, n as int) =~= octets@);
        lemma_minimal_is_canonical(octets@);
    }
    Some(v)
}

impl ASNTag for Integer {
    open spec fn structure(&self) -> BerValue {
        BerValue {
            class: self.class,
            id: self.id,
            payload: BerPayload::Primitive(int_octets(self.inner as int)),
        }
    }

    fn into_structure(self) -> (r: StructureTag) {
        i_e_into_structure(self.id, self.class, self.inner)
    }
}

impl ASNTag for Enumerated {
    open spec fn structure(&self) -> BerValue {
        BerValue {
            class: self.class,
            id: self.id,
            payload: BerPayload::Primitive(int_octets(self.inner as int)),
        }
    }

    fn into_structure(self) -> (r: StructureTag) {
        i_e_into_structure(self.id, self.class, self.inner)
    }
}

impl Default for Integer {
    fn default() -> (r: Integer)
        ensures
            r == (Integer { id: universal::INTEGER, class: TagClass::Universal, inner: 0 }),
    {
        Integer { id: universal::INTEGER, class: TagClass::Universal, inner: 0i64 }
    }
}

impl Default for Enumerated {
    fn default() -> (r: Enumerated)
        ensures
            r == (Enumerated { id: universal::ENUMERATED, class: TagClass::Universal, inner: 0 }),
    {
        Enumerated { id: universal::ENUMERATED, class: TagClass::Universal, inner: 0i64 }
    }
}

} // verus!
