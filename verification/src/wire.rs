//! The wire format at the mathematical level: little-endian byte strings for
//! integers of any byte width, two's-complement residues for signed values,
//! and the NUL framing used by text.

use vstd::prelude::*;
use vstd::arithmetic::power2::pow2;
use vstd::arithmetic::power2::lemma_pow2_adds;
use vstd::arithmetic::power2::lemma_pow2_pos;
use vstd::arithmetic::div_mod::lemma_mod_breakdown;
use vstd::arithmetic::div_mod::lemma_small_mod;

use crate::err::ErrorKind;

verus! {

/// The `w` little-endian bytes of `v` (that is, of `v` reduced modulo 2^(8w)).
pub open spec fn le_bytes(v: nat, w: nat) -> Seq<u8>
    decreases w,
{
    if w == 0 {
        seq![]
    } else {
        seq![(v % 256) as u8] + le_bytes(v / 256, (w - 1) as nat)
    }
}

/// The number a little-endian byte string denotes.
pub open spec fn le_val(s: Seq<u8>) -> nat
    decreases s.len(),
{
    if s.len() == 0 {
        0
    } else {
        s[0] as nat + 256 * le_val(s.drop_first())
    }
}

/// The signed reading of an unsigned `w`-byte value: two's complement.
pub open spec fn sint_of(u: nat, w: nat) -> int
    recommends
        w > 0,
{
    if u < pow2((8 * w - 1) as nat) {
        u as int
    } else {
        u - pow2(8 * w)
    }
}

/// The two's-complement residue of a signed value in `w` bytes.
pub open spec fn tc_residue(v: int, w: nat) -> nat {
    (v % (pow2(8 * w) as int)) as nat
}

/// A `w`-byte unsigned little-endian integer at the head of `s`: the value
/// and the bytes consumed, or the error when `s` is too short.
pub open spec fn dec_uint(s: Seq<u8>, w: nat) -> Result<(nat, nat), ErrorKind> {
    if s.len() < w {
        Err(ErrorKind::FileRead)
    } else {
        Ok((le_val(s.take(w as int)), w))
    }
}

/// A `w`-byte signed little-endian integer at the head of `s`.
pub open spec fn dec_sint(s: Seq<u8>, w: nat) -> Result<(int, nat), ErrorKind> {
    if s.len() < w {
        Err(ErrorKind::FileRead)
    } else {
        Ok((sint_of(le_val(s.take(w as int)), w), w))
    }
}

/// `le_bytes` always produces exactly `w` bytes, whatever the value.
pub broadcast proof fn lemma_le_bytes_len(v: nat, w: nat)
    ensures
        (#[trigger] le_bytes(v, w)).len() == w,
    decreases w,
{
    if w > 0 {
        lemma_le_bytes_len(v / 256, (w - 1) as nat);
    }
}

/// A `w`-byte string denotes a number below 2^(8w).
pub proof fn lemma_le_val_bound(s: Seq<u8>)
    ensures
        le_val(s) < pow2(8 * s.len()),
    decreases s.len(),
{
    if s.len() == 0 {
        lemma_pow2_pos(0);
    } else {
        lemma_le_val_bound(s.drop_first());
        lemma_pow2_adds(8, 8 * (s.len() - 1) as nat);
        assert(pow2(8) == 256) by {
            vstd::arithmetic::power2::lemma2_to64();
        }
    }
}

/// Reading back the bytes of `v` gives `v` reduced modulo 2^(8w).
pub proof fn lemma_le_val_le_bytes(v: nat, w: nat)
    ensures
        le_val(le_bytes(v, w)) == v % pow2(8 * w),
    decreases w,
{
    vstd::arithmetic::power2::lemma2_to64();
    if w == 0 {
        lemma_pow2_pos(0);
        lemma_small_mod(0, 1);
        assert(v % pow2(0) == 0) by {
            assert(pow2(0) == 1);
        }
    } else {
        let tail = le_bytes(v / 256, (w - 1) as nat);
        assert((seq![(v % 256) as u8] + tail).drop_first() =~= tail);
        lemma_le_val_le_bytes(v / 256, (w - 1) as nat);
        lemma_pow2_pos(8 * (w - 1) as nat);
        lemma_mod_breakdown(v as int, 256, pow2(8 * (w - 1) as nat) as int);
        lemma_pow2_adds(8, 8 * (w - 1) as nat);
    }
}

/// Reading back the bytes of a value that fits in `w` bytes gives the value.
pub proof fn lemma_le_val_le_bytes_small(v: nat, w: nat)
    requires
        v < pow2(8 * w),
    ensures
        le_val(le_bytes(v, w)) == v,
{
    lemma_le_val_le_bytes(v, w);
    lemma_small_mod(v, pow2(8 * w));
}

/// The two's-complement residue of a value in range is below 2^(8w) and
/// reads back, signed, as the value itself.
pub proof fn lemma_tc_residue(v: int, w: nat)
    requires
        1 <= w,
        -(pow2((8 * w - 1) as nat) as int) <= v,
        v < pow2((8 * w - 1) as nat) as int,
    ensures
        tc_residue(v, w) < pow2(8 * w),
        sint_of(tc_residue(v, w), w) == v,
{
    let p = pow2(8 * w) as int;
    let half = pow2((8 * w - 1) as nat) as int;
    assert(p == 2 * half) by {
        lemma_pow2_adds((8 * w - 1) as nat, 1);
        vstd::arithmetic::power2::lemma2_to64();
    }
    lemma_pow2_pos((8 * w - 1) as nat);
    if v >= 0 {
        lemma_small_mod(v as nat, p as nat);
    } else {
        vstd::arithmetic::div_mod::lemma_mod_multiples_vanish(1, v, p);
        lemma_small_mod((v + p) as nat, p as nat);
    }
}

/// The index of the first zero byte of `s`, if any.
pub open spec fn first_zero(s: Seq<u8>) -> Option<nat>
    decreases s.len(),
{
    if s.len() == 0 {
        None
    } else if s[0] == 0 {
        Some(0nat)
    } else {
        match first_zero(s.drop_first()) {
            Some(k) => Some((k + 1) as nat),
            None => None,
        }
    }
}

/// A string without zero bytes has no first zero.
pub proof fn lemma_first_zero_none(s: Seq<u8>)
    requires
        forall|j: int| 0 <= j < s.len() ==> s[j] != 0,
    ensures
        first_zero(s) is None,
    decreases s.len(),
{
    if s.len() > 0 {
        let t = s.drop_first();
        assert(forall|j: int| 0 <= j < t.len() ==> t[j] == s[j + 1] && s[j + 1] != 0);
        lemma_first_zero_none(t);
    }
}

/// A zero byte preceded by no other zero byte is the first zero.
pub proof fn lemma_first_zero_at(s: Seq<u8>, k: int)
    requires
        0 <= k < s.len(),
        s[k] == 0,
        forall|j: int| 0 <= j < k ==> s[j] != 0,
    ensures
        first_zero(s) == Some(k as nat),
    decreases s.len(),
{
    if k > 0 {
        let t = s.drop_first();
        assert(s[0] != 0);
        assert(t[k - 1] == 0);
        assert(forall|j: int| 0 <= j < k - 1 ==> t[j] == s[j + 1] && s[j + 1] != 0);
        lemma_first_zero_at(t, k - 1);
    }
}

/// In a zero-free string followed by a zero byte, the first zero sits exactly
/// at the end of the string, whatever comes after.
pub proof fn lemma_first_zero_framed(a: Seq<u8>, rest: Seq<u8>)
    requires
        forall|j: int| 0 <= j < a.len() ==> a[j] != 0,
    ensures
        first_zero(a + seq![0u8] + rest) == Some(a.len() as nat),
        (a + seq![0u8] + rest).take(a.len() as int) == a,
{
    let s = a + seq![0u8] + rest;
    assert(s.take(a.len() as int) =~= a);
    assert(s[a.len() as int] == 0);
    assert(forall|j: int| 0 <= j < a.len() ==> s[j] == a[j]);
    lemma_first_zero_at(s, a.len() as int);
}

} // verus!
