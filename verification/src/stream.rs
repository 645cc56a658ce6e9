//! The two stream roles, realized over in-memory byte buffers: a `Sink` that
//! accepts raw bytes and a `Source` that supplies them on demand. Every
//! higher-level codec is written only against these two types. The
//! variable-width little-endian routines shared by all integer widths up to
//! eight bytes live here, together with the dedicated sixteen-byte path.

use vstd::prelude::*;
use vstd::arithmetic::power2::pow2;
use vstd::arithmetic::power2::lemma_pow2_adds;
use vstd::arithmetic::power2::lemma_pow2_pos;
use vstd::arithmetic::power2::lemma_pow2_strictly_increases;
use vstd::arithmetic::power2::lemma2_to64;
use vstd::arithmetic::power2::lemma2_to64_rest;
use vstd::arithmetic::div_mod::lemma_small_mod;
use vstd::arithmetic::div_mod::lemma_mod_multiples_vanish;

use crate::err::Error;
use crate::err::ErrorKind;
use crate::wire::le_bytes;
use crate::wire::le_val;
use crate::wire::sint_of;
use crate::wire::tc_residue;
use crate::wire::lemma_le_val_bound;

verus! {

/// 2^(8w) for widths strictly below eight bytes.
fn pow256(w: usize) -> (r: u64)
    requires
        w <= 7,
    ensures
        r as nat == pow2(8 * w as nat),
        r >= 1,
{
    proof {
        lemma2_to64();
        lemma2_to64_rest();
    }
    if w == 0 {
        1
    } else if w == 1 {
        0x100
    } else if w == 2 {
        0x10000
    } else if w == 3 {
        0x1000000
    } else if w == 4 {
        0x100000000
    } else if w == 5 {
        0x10000000000
    } else if w == 6 {
        0x1000000000000
    } else {
        0x100000000000000
    }
}

/// A byte sink: accepts raw bytes, in order. Its view is the byte string
/// written so far.
pub struct Sink {
    buf: Vec<u8>,
}

impl View for Sink {
    type V = Seq<u8>;

    closed spec fn view(&self) -> Seq<u8> {
        self.buf@
    }
}

impl Sink {
    /// An empty sink.
    pub fn new() -> (r: Sink)
        ensures
            r@ == Seq::<u8>::empty(),
    {
        Sink { buf: Vec::new() }
    }

    /// Hands the written bytes out.
    pub fn into_vec(self) -> (r: Vec<u8>)
        ensures
            r@ == self@,
    {
        self.buf
    }

    /// Appends one raw byte.
    pub fn write_byte(&mut self, b: u8)
        ensures
            final(self)@ == old(self)@ + seq![b],
    {
        self.buf.push(b);
        proof {
            assert(self@ =~= old(self)@ + seq![b]);
        }
    }

    /// Appends raw bytes in order.
    pub fn write_bytes(&mut self, bytes: &[u8])
        ensures
            final(self)@ == old(self)@ + bytes@,
    {
        let n = bytes.len();
        let mut i: usize = 0;
        while i < n
            invariant
                i <= n,
                n == bytes@.len(),
                self@ == old(self)@ + bytes@.take(i as int),
            decreases n - i,
        {
            let b = bytes[i];
            self.buf.push(b);
            proof {
                assert(self@ =~= old(self)@ + bytes@.take(i + 1));
            }
            i = i + 1;
        }
        proof {
            assert(bytes@.take(n as int) =~= bytes@);
        }
    }

    /// The shared variable-width routine: appends the `w` low bytes of `n`,
    /// little-endian, for any width up to eight.
    fn write_le(&mut self, n: u64, w: usize)
        requires
            w <= 8,
        ensures
            final(self)@ == old(self)@ + le_bytes(n as nat % pow2(8 * w as nat), w as nat),
    {
        let m: u64 = if w < 8 {
            n % pow256(w)
        } else {
            n
        };
        proof {
            lemma2_to64();
            lemma2_to64_rest();
            if w == 8 {
                lemma_small_mod(n as nat, pow2(64));
            }
            assert(m as nat == n as nat % pow2(8 * w as nat));
        }
        let mut x: u64 = m;
        let mut i: usize = 0;
        while i < w
            invariant
                i <= w,
                w <= 8,
                self@ + le_bytes(x as nat, (w - i) as nat) == old(self)@ + le_bytes(
                    m as nat,
                    w as nat,
                ),
            decreases w - i,
        {
            let b: u8 = (x % 256) as u8;
            proof {
                assert(le_bytes(x as nat, (w - i) as nat) == seq![(x as nat % 256) as u8]
                    + le_bytes(x as nat / 256, (w - i - 1) as nat));
            }
            self.buf.push(b);
            proof {
                assert(self@ + le_bytes(x as nat / 256, (w - i - 1) as nat) =~= old(self)@
                    + le_bytes(m as nat, w as nat));
            }
            x = x / 256;
            i = i + 1;
        }
        proof {
            assert(le_bytes(x as nat, 0) =~= Seq::<u8>::empty());
            assert(self@ + Seq::<u8>::empty() =~= self@);
        }
    }

    /// Appends an unsigned value at one of the supported widths up to eight
    /// bytes. The value must fit the width, as it always does when it comes
    /// from an integer type of that width.
    pub fn write_leuint(&mut self, n: u64, w: usize)
        requires
            w == 1 || w == 2 || w == 4 || w == 8,
            (n as nat) < pow2(8 * w as nat),
        ensures
            final(self)@ == old(self)@ + le_bytes(n as nat, w as nat),
    {
        self.write_le(n, w);
        proof {
            lemma_small_mod(n as nat, pow2(8 * w as nat));
        }
    }

    /// Appends a signed value at one of the supported widths up to eight
    /// bytes, as its two's-complement residue, little-endian.
    pub fn write_leint(&mut self, n: i64, w: usize)
        requires
            w == 1 || w == 2 || w == 4 || w == 8,
            -(pow2((8 * w - 1) as nat) as int) <= n as int,
            (n as int) < pow2((8 * w - 1) as nat) as int,
        ensures
            final(self)@ == old(self)@ + le_bytes(tc_residue(n as int, w as nat), w as nat),
    {
        proof {
            lemma2_to64();
            lemma2_to64_rest();
            lemma_pow2_adds((8 * w - 1) as nat, 1);
            lemma_pow2_pos((8 * w - 1) as nat);
            lemma_pow2_pos(8 * w as nat);
        }
        let bits: u64 = if n >= 0 {
            n as u64
        } else {
            let neg: u64 = ((-(n + 1)) as u64) + 1;
            if w < 8 {
                pow256(w) - neg
            } else {
                (u64::MAX - neg) + 1
            }
        };
        proof {
            let p = pow2(8 * w as nat) as int;
            if n >= 0 {
                lemma_small_mod(n as nat, p as nat);
            } else {
                lemma_mod_multiples_vanish(1, n as int, p);
                lemma_small_mod((n as int + p) as nat, p as nat);
            }
            assert(bits as nat == tc_residue(n as int, w as nat));
            lemma_small_mod(bits as nat, p as nat);
        }
        self.write_le(bits, w);
    }

    /// The dedicated sixteen-byte path: appends an unsigned 128-bit value,
    /// little-endian.
    pub fn write_u128(&mut self, n: u128)
        ensures
            final(self)@ == old(self)@ + le_bytes(n as nat, 16),
    {
        let mut x: u128 = n;
        let mut i: usize = 0;
        while i < 16
            invariant
                i <= 16,
                self@ + le_bytes(x as nat, (16 - i) as nat) == old(self)@ + le_bytes(
                    n as nat,
                    16,
                ),
            decreases 16 - i,
        {
            let b: u8 = (x % 256) as u8;
            proof {
                assert(le_bytes(x as nat, (16 - i) as nat) == seq![(x as nat % 256) as u8]
                    + le_bytes(x as nat / 256, (16 - i - 1) as nat));
            }
            self.buf.push(b);
            proof {
                assert(self@ + le_bytes(x as nat / 256, (16 - i - 1) as nat) =~= old(self)@
                    + le_bytes(n as nat, 16));
            }
            x = x / 256;
            i = i + 1;
        }
        proof {
            assert(le_bytes(x as nat, 0) =~= Seq::<u8>::empty());
            assert(self@ + Seq::<u8>::empty() =~= self@);
        }
    }

    /// The dedicated sixteen-byte path for signed 128-bit values.
    pub fn write_i128(&mut self, n: i128)
        ensures
            final(self)@ == old(self)@ + le_bytes(tc_residue(n as int, 16), 16),
    {
        let bits: u128 = if n >= 0 {
            n as u128
        } else {
            let neg: u128 = ((-(n + 1)) as u128) + 1;
            (u128::MAX - neg) + 1
        };
        proof {
            lemma2_to64();
            lemma2_to64_rest();
            lemma_pow2_adds(64, 64);
            let p = pow2(128) as int;
            if n >= 0 {
                lemma_small_mod(n as nat, p as nat);
            } else {
                lemma_mod_multiples_vanish(1, n as int, p);
                lemma_small_mod((n as int + p) as nat, p as nat);
            }
            assert(bits as nat == tc_residue(n as int, 16));
        }
        self.write_u128(bits);
    }
}

/// A byte source: supplies raw bytes on demand and signals end-of-data. It
/// holds the whole underlying byte string and a cursor; the bytes not yet
/// consumed are `remaining()`.
pub struct Source {
    data: Vec<u8>,
    pos: usize,
}

impl Source {
    /// The whole underlying byte string.
    pub closed spec fn all_data(&self) -> Seq<u8> {
        self.data@
    }

    /// How many bytes have been consumed.
    pub closed spec fn cursor(&self) -> nat {
        self.pos as nat
    }

    /// The cursor never runs past the end.
    pub open spec fn inv(&self) -> bool {
        self.cursor() <= self.all_data().len()
    }

    /// The bytes not yet consumed.
    pub open spec fn remaining(&self) -> Seq<u8> {
        self.all_data().skip(self.cursor() as int)
    }

    /// A source over the given bytes, cursor at the start.
    pub fn new(data: Vec<u8>) -> (r: Source)
        ensures
            r.inv(),
            r.all_data() == data@,
            r.cursor() == 0,
            r.remaining() == data@,
    {
        let r = Source { data, pos: 0 };
        proof {
            assert(r.remaining() =~= r.all_data());
        }
        r
    }

    /// Supplies the next byte, or fails at end-of-data.
    pub fn read_byte(&mut self) -> (r: Result<u8, Error>)
        requires
            old(self).inv(),
        ensures
            final(self).inv(),
            final(self).all_data() == old(self).all_data(),
            match r {
                Ok(b) => old(self).remaining().len() > 0 && b == old(self).remaining()[0]
                    && final(self).cursor() == old(self).cursor() + 1,
                Err(e) => e.kind == ErrorKind::FileRead && old(self).remaining().len() == 0
                    && final(self).cursor() == old(self).cursor(),
            },
    {
        if self.pos < self.data.len() {
            let b = self.data[self.pos];
            self.pos = self.pos + 1;
            Ok(b)
        } else {
            Err(Error::new(ErrorKind::FileRead))
        }
    }

    /// The shared variable-width routine: consumes `w` bytes and assembles
    /// them little-endian into a 64-bit register, for any width up to eight.
    pub fn read_leuint(&mut self, w: usize) -> (r: Result<u64, Error>)
        requires
            old(self).inv(),
            1 <= w <= 8,
        ensures
            final(self).inv(),
            final(self).all_data() == old(self).all_data(),
            match r {
                Ok(u) => old(self).remaining().len() >= w && u as nat == le_val(
                    old(self).remaining().take(w as int),
                ) && (u as nat) < pow2(8 * w as nat) && final(self).cursor() == old(self).cursor() + w,
                Err(e) => e.kind == ErrorKind::FileRead && old(self).remaining().len() < w
                    && final(self).cursor() == old(self).cursor(),
            },
    {
        if self.data.len() - self.pos < w {
            return Err(Error::new(ErrorKind::FileRead));
        }
        let ghost rem = self.remaining();
        proof {
            lemma2_to64();
        }
        let mut acc: u64 = 0;
        let mut j: usize = w;
        while j > 0
            invariant
                j <= w,
                w <= 8,
                self.inv(),
                self == old(self),
                rem == self.remaining(),
                rem.len() >= w,
                acc as nat == le_val(rem.subrange(j as int, w as int)),
                (acc as nat) < pow2(8 * (w - j) as nat),
            decreases j,
        {
            j = j - 1;
            proof {
                assert(rem.len() == self.all_data().len() - self.cursor());
                assert(j < w);
                assert(self.pos + j < self.data@.len());
            }
            let dl: usize = self.data.len();
            proof {
                assert(self.pos + j < dl);
            }
            let b: u8 = self.data[self.pos + j];
            proof {
                lemma2_to64();
                lemma2_to64_rest();
                assert(b == rem[j as int]);
                let part = rem.subrange(j as int, w as int);
                assert(part.drop_first() =~= rem.subrange(j as int + 1, w as int));
                assert(le_val(part) == part[0] as nat + 256 * le_val(part.drop_first()));
                lemma_pow2_adds(8 * (w - j - 1) as nat, 8);
                if 8 * (w - j) < 64 {
                    lemma_pow2_strictly_increases(8 * (w - j) as nat, 64);
                }
            }
            acc = acc * 256 + (b as u64);
        }
        self.pos = self.pos + w;
        proof {
            assert(rem.subrange(0, w as int) =~= rem.take(w as int));
        }
        Ok(acc)
    }

    /// Consumes `w` bytes and reads them as a signed little-endian value,
    /// sign-extending from the width's top bit.
    pub fn read_leint(&mut self, w: usize) -> (r: Result<i64, Error>)
        requires
            old(self).inv(),
            w == 1 || w == 2 || w == 4 || w == 8,
        ensures
            final(self).inv(),
            final(self).all_data() == old(self).all_data(),
            match r {
                Ok(v) => old(self).remaining().len() >= w && v as int == sint_of(
                    le_val(old(self).remaining().take(w as int)),
                    w as nat,
                ) && final(self).cursor() == old(self).cursor() + w,
                Err(e) => e.kind == ErrorKind::FileRead && old(self).remaining().len() < w
                    && final(self).cursor() == old(self).cursor(),
            },
    {
        let u = match self.read_leuint(w) {
            Ok(u) => u,
            Err(e) => {
                return Err(e);
            },
        };
        proof {
            lemma2_to64();
            lemma2_to64_rest();
            lemma_pow2_adds((8 * w - 1) as nat, 1);
            lemma_pow2_pos((8 * w - 1) as nat);
            lemma_pow2_pos(8 * w as nat);
        }
        if w == 8 {
            if u >= 0x8000000000000000 {
                let v: i128 = (u as i128) - 0x10000000000000000i128;
                proof {
                    assert(pow2(63) == 0x8000000000000000) by {
                        lemma2_to64_rest();
                    }
                    assert(pow2(64) == 0x10000000000000000) by {
                        lemma2_to64_rest();
                    }
                }
                Ok(v as i64)
            } else {
                Ok(u as i64)
            }
        } else {
            let p = pow256(w);
            if u >= p / 2 {
                proof {
                    assert(p / 2 * 2 == p);
                }
                Ok((u as i64) - (p as i64))
            } else {
                Ok(u as i64)
            }
        }
    }

    /// The dedicated sixteen-byte path: consumes 16 bytes as an unsigned
    /// 128-bit little-endian value.
    pub fn read_u128(&mut self) -> (r: Result<u128, Error>)
        requires
            old(self).inv(),
        ensures
            final(self).inv(),
            final(self).all_data() == old(self).all_data(),
            match r {
                Ok(u) => old(self).remaining().len() >= 16 && u as nat == le_val(
                    old(self).remaining().take(16),
                ) && final(self).cursor() == old(self).cursor() + 16,
                Err(e) => e.kind == ErrorKind::FileRead && old(self).remaining().len() < 16
                    && final(self).cursor() == old(self).cursor(),
            },
    {
        if self.data.len() - self.pos < 16 {
            return Err(Error::new(ErrorKind::FileRead));
        }
        let ghost rem = self.remaining();
        proof {
            lemma2_to64();
        }
        let mut acc: u128 = 0;
        let mut j: usize = 16;
        while j > 0
            invariant
                j <= 16,
                self.inv(),
                self == old(self),
                rem == self.remaining(),
                rem.len() >= 16,
                acc as nat == le_val(rem.subrange(j as int, 16)),
                (acc as nat) < pow2(8 * (16 - j) as nat),
            decreases j,
        {
            j = j - 1;
            proof {
                assert(rem.len() == self.all_data().len() - self.cursor());
                assert(j < 16);
                assert(self.pos + j < self.data@.len());
            }
            let dl: usize = self.data.len();
            proof {
                assert(self.pos + j < dl);
            }
            let b: u8 = self.data[self.pos + j];
            proof {
                lemma2_to64();
                lemma2_to64_rest();
                assert(b == rem[j as int]);
                let part = rem.subrange(j as int, 16);
                assert(part.drop_first() =~= rem.subrange(j as int + 1, 16));
                assert(le_val(part) == part[0] as nat + 256 * le_val(part.drop_first()));
                lemma_pow2_adds(8 * (16 - j - 1) as nat, 8);
                lemma_pow2_adds(64, 64);
                if 8 * (16 - j) < 128 {
                    lemma_pow2_strictly_increases(8 * (16 - j) as nat, 128);
                }
            }
            acc = acc * 256 + (b as u128);
        }
        self.pos = self.pos + 16;
        proof {
            assert(rem.subrange(0, 16) =~= rem.take(16));
        }
        Ok(acc)
    }

    /// The dedicated sixteen-byte path for signed 128-bit values.
    pub fn read_i128(&mut self) -> (r: Result<i128, Error>)
        requires
            old(self).inv(),
        ensures
            final(self).inv(),
            final(self).all_data() == old(self).all_data(),
            match r {
                Ok(v) => old(self).remaining().len() >= 16 && v as int == sint_of(
                    le_val(old(self).remaining().take(16)),
                    16,
                ) && final(self).cursor() == old(self).cursor() + 16,
                Err(e) => e.kind == ErrorKind::FileRead && old(self).remaining().len() < 16
                    && final(self).cursor() == old(self).cursor(),
            },
    {
        let u = match self.read_u128() {
            Ok(u) => u,
            Err(e) => {
                return Err(e);
            },
        };
        proof {
            lemma2_to64();
            lemma2_to64_rest();
            lemma_pow2_adds(64, 63);
            lemma_pow2_adds(64, 64);
            lemma_pow2_adds(127, 1);
            lemma_pow2_pos(127);
            lemma_le_val_bound(old(self).remaining().take(16));
        }
        if u >= 0x80000000000000000000000000000000u128 {
            proof {
                assert(pow2(127) == 0x80000000000000000000000000000000) by {
                    lemma2_to64_rest();
                    lemma_pow2_adds(64, 63);
                }
                assert(pow2(128) == 0x100000000000000000000000000000000) by {
                    lemma2_to64_rest();
                    lemma_pow2_adds(64, 64);
                }
            }
            let a: u128 = u - 0x80000000000000000000000000000000u128;
            let v: i128 = (a as i128) + i128::MIN;
            Ok(v)
        } else {
            Ok(u as i128)
        }
    }
}

} // verus!
