//! The scalar codec: fixed-width little-endian encodings for the signed and
//! unsigned integers of 1, 2, 4, 8 and 16 bytes, and single-byte booleans.
//! The encoding width is fixed by the static type alone, never by the value.

use vstd::prelude::*;
use vstd::arithmetic::power2::pow2;
use vstd::arithmetic::power2::lemma_pow2_adds;
use vstd::arithmetic::power2::lemma2_to64;
use vstd::arithmetic::power2::lemma2_to64_rest;

use crate::err::Error;
use crate::err::ErrorKind;
use crate::ext_io::Dump;
use crate::ext_io::Load;
use crate::ext_io::RoundTrip;
use crate::stream::Sink;
use crate::stream::Source;
use crate::wire::dec_sint;
use crate::wire::dec_uint;
use crate::wire::le_bytes;
use crate::wire::le_val;
use crate::wire::tc_residue;
use crate::wire::lemma_le_bytes_len;
use crate::wire::lemma_le_val_bound;
use crate::wire::lemma_le_val_le_bytes_small;
use crate::wire::lemma_tc_residue;

verus! {

impl Dump for u8 {
    open spec fn wf(&self) -> bool {
        true
    }

    open spec fn enc(&self) -> Seq<u8> {
        le_bytes(*self as nat, 1)
    }

    fn dump(&self, write: &mut Sink) -> (r: Result<(), Error>) {
        proof {
            lemma2_to64();
            lemma2_to64_rest();
        }
        write.write_leuint(*self as u64, 1);
        Ok(())
    }
}

impl Load for u8 {
    open spec fn dec(s: Seq<u8>) -> Result<(u8, nat), ErrorKind> {
        match dec_uint(s, 1) {
            Ok((v, n)) => Ok(((v as u8), n)),
            Err(k) => Err(k),
        }
    }

    fn load(read: &mut Source) -> (r: Result<u8, Error>) {
        match read.read_leuint(1) {
            Ok(u) => {
                proof {
                    lemma2_to64();
                    lemma2_to64_rest();
                }
                Ok(u as u8)
            },
            Err(e) => Err(e),
        }
    }
}

impl RoundTrip for u8 {
    proof fn lemma_round_trip(&self, rest: Seq<u8>) {
        lemma2_to64();
        lemma2_to64_rest();
        lemma_le_bytes_len(*self as nat, 1);
        assert((self.enc() + rest).take(1) =~= self.enc());
        lemma_le_val_le_bytes_small(*self as nat, 1);
    }
}

impl Dump for u16 {
    open spec fn wf(&self) -> bool {
        true
    }

    open spec fn enc(&self) -> Seq<u8> {
        le_bytes(*self as nat, 2)
    }

    fn dump(&self, write: &mut Sink) -> (r: Result<(), Error>) {
        proof {
            lemma2_to64();
            lemma2_to64_rest();
        }
        write.write_leuint(*self as u64, 2);
        Ok(())
    }
}

impl Load for u16 {
    open spec fn dec(s: Seq<u8>) -> Result<(u16, nat), ErrorKind> {
        match dec_uint(s, 2) {
            Ok((v, n)) => Ok(((v as u16), n)),
            Err(k) => Err(k),
        }
    }

    fn load(read: &mut Source) -> (r: Result<u16, Error>) {
        match read.read_leuint(2) {
            Ok(u) => {
                proof {
                    lemma2_to64();
                    lemma2_to64_rest();
                }
                Ok(u as u16)
            },
            Err(e) => Err(e),
        }
    }
}

impl RoundTrip for u16 {
    proof fn lemma_round_trip(&self, rest: Seq<u8>) {
        lemma2_to64();
        lemma2_to64_rest();
        lemma_le_bytes_len(*self as nat, 2);
        assert((self.enc() + rest).take(2) =~= self.enc());
        lemma_le_val_le_bytes_small(*self as nat, 2);
    }
}

impl Dump for u32 {
    open spec fn wf(&self) -> bool {
        true
    }

    open spec fn enc(&self) -> Seq<u8> {
        le_bytes(*self as nat, 4)
    }

    fn dump(&self, write: &mut Sink) -> (r: Result<(), Error>) {
        proof {
            lemma2_to64();
            lemma2_to64_rest();
        }
        write.write_leuint(*self as u64, 4);
        Ok(())
    }
}

impl Load for u32 {
    open spec fn dec(s: Seq<u8>) -> Result<(u32, nat), ErrorKind> {
        match dec_uint(s, 4) {
            Ok((v, n)) => Ok(((v as u32), n)),
            Err(k) => Err(k),
        }
    }

    fn load(read: &mut Source) -> (r: Result<u32, Error>) {
        match read.read_leuint(4) {
            Ok(u) => {
                proof {
                    lemma2_to64();
                    lemma2_to64_rest();
                }
                Ok(u as u32)
            },
            Err(e) => Err(e),
        }
    }
}

impl RoundTrip for u32 {
    proof fn lemma_round_trip(&self, rest: Seq<u8>) {
        lemma2_to64();
        lemma2_to64_rest();
        lemma_le_bytes_len(*self as nat, 4);
        assert((self.enc() + rest).take(4) =~= self.enc());
        lemma_le_val_le_bytes_small(*self as nat, 4);
    }
}

impl Dump for u64 {
    open spec fn wf(&self) -> bool {
        true
    }

    open spec fn enc(&self) -> Seq<u8> {
        le_bytes(*self as nat, 8)
    }

    fn dump(&self, write: &mut Sink) -> (r: Result<(), Error>) {
        proof {
            lemma2_to64();
            lemma2_to64_rest();
        }
        write.write_leuint(*self, 8);
        Ok(())
    }
}

impl Load for u64 {
    open spec fn dec(s: Seq<u8>) -> Result<(u64, nat), ErrorKind> {
        match dec_uint(s, 8) {
            Ok((v, n)) => Ok(((v as u64), n)),
            Err(k) => Err(k),
        }
    }

    fn load(read: &mut Source) -> (r: Result<u64, Error>) {
        match read.read_leuint(8) {
            Ok(u) => {
                proof {
                    lemma2_to64();
                    lemma2_to64_rest();
                }
                Ok(u as u64)
            },
            Err(e) => Err(e),
        }
    }
}

impl RoundTrip for u64 {
    proof fn lemma_round_trip(&self, rest: Seq<u8>) {
        lemma2_to64();
        lemma2_to64_rest();
        lemma_le_bytes_len(*self as nat, 8);
        assert((self.enc() + rest).take(8) =~= self.enc());
        lemma_le_val_le_bytes_small(*self as nat, 8);
    }
}

impl Dump for i8 {
    open spec fn wf(&self) -> bool {
        true
    }

    open spec fn enc(&self) -> Seq<u8> {
        le_bytes(tc_residue(*self as int, 1), 1)
    }

    fn dump(&self, write: &mut Sink) -> (r: Result<(), Error>) {
        proof {
            lemma2_to64();
            lemma2_to64_rest();
        }
        write.write_leint(*self as i64, 1);
        Ok(())
    }
}

impl Load for i8 {
    open spec fn dec(s: Seq<u8>) -> Result<(i8, nat), ErrorKind> {
        match dec_sint(s, 1) {
            Ok((v, n)) => Ok(((v as i8), n)),
            Err(k) => Err(k),
        }
    }

    fn load(read: &mut Source) -> (r: Result<i8, Error>) {
        match read.read_leint(1) {
            Ok(v) => {
                proof {
                    lemma2_to64();
                    lemma2_to64_rest();
                    lemma_le_val_bound(old(read).remaining().take(1));
                }
                Ok(v as i8)
            },
            Err(e) => Err(e),
        }
    }
}

impl RoundTrip for i8 {
    proof fn lemma_round_trip(&self, rest: Seq<u8>) {
        lemma2_to64();
        lemma2_to64_rest();
        lemma_tc_residue(*self as int, 1);
        lemma_le_bytes_len(tc_residue(*self as int, 1), 1);
        assert((self.enc() + rest).take(1) =~= self.enc());
        lemma_le_val_le_bytes_small(tc_residue(*self as int, 1), 1);
    }
}

impl Dump for i16 {
    open spec fn wf(&self) -> bool {
        true
    }

    open spec fn enc(&self) -> Seq<u8> {
        le_bytes(tc_residue(*self as int, 2), 2)
    }

    fn dump(&self, write: &mut Sink) -> (r: Result<(), Error>) {
        proof {
            lemma2_to64();
            lemma2_to64_rest();
        }
        write.write_leint(*self as i64, 2);
        Ok(())
    }
}

impl Load for i16 {
    open spec fn dec(s: Seq<u8>) -> Result<(i16, nat), ErrorKind> {
        match dec_sint(s, 2) {
            Ok((v, n)) => Ok(((v as i16), n)),
            Err(k) => Err(k),
        }
    }

    fn load(read: &mut Source) -> (r: Result<i16, Error>) {
        match read.read_leint(2) {
            Ok(v) => {
                proof {
                    lemma2_to64();
                    lemma2_to64_rest();
                    lemma_le_val_bound(old(read).remaining().take(2));
                }
                Ok(v as i16)
            },
            Err(e) => Err(e),
        }
    }
}

impl RoundTrip for i16 {
    proof fn lemma_round_trip(&self, rest: Seq<u8>) {
        lemma2_to64();
        lemma2_to64_rest();
        lemma_tc_residue(*self as int, 2);
        lemma_le_bytes_len(tc_residue(*self as int, 2), 2);
        assert((self.enc() + rest).take(2) =~= self.enc());
        lemma_le_val_le_bytes_small(tc_residue(*self as int, 2), 2);
    }
}

impl Dump for i32 {
    open spec fn wf(&self) -> bool {
        true
    }

    open spec fn enc(&self) -> Seq<u8> {
        le_bytes(tc_residue(*self as int, 4), 4)
    }

    fn dump(&self, write: &mut Sink) -> (r: Result<(), Error>) {
        proof {
            lemma2_to64();
            lemma2_to64_rest();
        }
        write.write_leint(*self as i64, 4);
        Ok(())
    }
}

impl Load for i32 {
    open spec fn dec(s: Seq<u8>) -> Result<(i32, nat), ErrorKind> {
        match dec_sint(s, 4) {
            Ok((v, n)) => Ok(((v as i32), n)),
            Err(k) => Err(k),
        }
    }

    fn load(read: &mut Source) -> (r: Result<i32, Error>) {
        match read.read_leint(4) {
            Ok(v) => {
                proof {
                    lemma2_to64();
                    lemma2_to64_rest();
                    lemma_le_val_bound(old(read).remaining().take(4));
                }
                Ok(v as i32)
            },
            Err(e) => Err(e),
        }
    }
}

impl RoundTrip for i32 {
    proof fn lemma_round_trip(&self, rest: Seq<u8>) {
        lemma2_to64();
        lemma2_to64_rest();
        lemma_tc_residue(*self as int, 4);
        lemma_le_bytes_len(tc_residue(*self as int, 4), 4);
        assert((self.enc() + rest).take(4) =~= self.enc());
        lemma_le_val_le_bytes_small(tc_residue(*self as int, 4), 4);
    }
}

impl Dump for i64 {
    open spec fn wf(&self) -> bool {
        true
    }

    open spec fn enc(&self) -> Seq<u8> {
        le_bytes(tc_residue(*self as int, 8), 8)
    }

    fn dump(&self, write: &mut Sink) -> (r: Result<(), Error>) {
        proof {
            lemma2_to64();
            lemma2_to64_rest();
        }
        write.write_leint(*self, 8);
        Ok(())
    }
}

impl Load for i64 {
    open spec fn dec(s: Seq<u8>) -> Result<(i64, nat), ErrorKind> {
        match dec_sint(s, 8) {
            Ok((v, n)) => Ok(((v as i64), n)),
            Err(k) => Err(k),
        }
    }

    fn load(read: &mut Source) -> (r: Result<i64, Error>) {
        match read.read_leint(8) {
            Ok(v) => {
                proof {
                    lemma2_to64();
                    lemma2_to64_rest();
                    lemma_le_val_bound(old(read).remaining().take(8));
                }
                Ok(v as i64)
            },
            Err(e) => Err(e),
        }
    }
}

impl RoundTrip for i64 {
    proof fn lemma_round_trip(&self, rest: Seq<u8>) {
        lemma2_to64();
        lemma2_to64_rest();
        lemma_tc_residue(*self as int, 8);
        lemma_le_bytes_len(tc_residue(*self as int, 8), 8);
        assert((self.enc() + rest).take(8) =~= self.enc());
        lemma_le_val_le_bytes_small(tc_residue(*self as int, 8), 8);
    }
}

impl Dump for u128 {
    open spec fn wf(&self) -> bool {
        true
    }

    open spec fn enc(&self) -> Seq<u8> {
        le_bytes(*self as nat, 16)
    }

    fn dump(&self, write: &mut Sink) -> (r: Result<(), Error>) {
        write.write_u128(*self);
        Ok(())
    }
}

impl Load for u128 {
    open spec fn dec(s: Seq<u8>) -> Result<(u128, nat), ErrorKind> {
        match dec_uint(s, 16) {
            Ok((v, n)) => Ok(((v as u128), n)),
            Err(k) => Err(k),
        }
    }

    fn load(read: &mut Source) -> (r: Result<u128, Error>) {
        match read.read_u128() {
            Ok(u) => {
                proof {
                    lemma2_to64();
                    lemma2_to64_rest();
                    lemma_pow2_adds(64, 64);
                    lemma_le_val_bound(old(read).remaining().take(16));
                }
                Ok(u)
            },
            Err(e) => Err(e),
        }
    }
}

impl RoundTrip for u128 {
    proof fn lemma_round_trip(&self, rest: Seq<u8>) {
        lemma2_to64();
        lemma2_to64_rest();
        lemma_pow2_adds(64, 64);
        lemma_le_bytes_len(*self as nat, 16);
        assert((self.enc() + rest).take(16) =~= self.enc());
        lemma_le_val_le_bytes_small(*self as nat, 16);
    }
}

impl Dump for i128 {
    open spec fn wf(&self) -> bool {
        true
    }

    open spec fn enc(&self) -> Seq<u8> {
        le_bytes(tc_residue(*self as int, 16), 16)
    }

    fn dump(&self, write: &mut Sink) -> (r: Result<(), Error>) {
        write.write_i128(*self);
        Ok(())
    }
}

impl Load for i128 {
    open spec fn dec(s: Seq<u8>) -> Result<(i128, nat), ErrorKind> {
        match dec_sint(s, 16) {
            Ok((v, n)) => Ok(((v as i128), n)),
            Err(k) => Err(k),
        }
    }

    fn load(read: &mut Source) -> (r: Result<i128, Error>) {
        match read.read_i128() {
            Ok(v) => {
                proof {
                    lemma2_to64();
                    lemma2_to64_rest();
                    lemma_pow2_adds(64, 63);
                    lemma_pow2_adds(64, 64);
                    lemma_le_val_bound(old(read).remaining().take(16));
                }
                Ok(v)
            },
            Err(e) => Err(e),
        }
    }
}

impl RoundTrip for i128 {
    proof fn lemma_round_trip(&self, rest: Seq<u8>) {
        lemma2_to64();
        lemma2_to64_rest();
        lemma_pow2_adds(64, 63);
        lemma_pow2_adds(64, 64);
        lemma_tc_residue(*self as int, 16);
        lemma_le_bytes_len(tc_residue(*self as int, 16), 16);
        assert((self.enc() + rest).take(16) =~= self.enc());
        lemma_le_val_le_bytes_small(tc_residue(*self as int, 16), 16);
    }
}

impl Dump for bool {
    open spec fn wf(&self) -> bool {
        true
    }

    open spec fn enc(&self) -> Seq<u8> {
        le_bytes(if *self { 1nat } else { 0nat }, 1)
    }

    fn dump(&self, write: &mut Sink) -> (r: Result<(), Error>) {
        // true and false are serialized as the single bytes 1 and 0
        let b: u8 = if *self { 1 } else { 0 };
        proof {
            lemma2_to64();
        }
        write.write_leuint(b as u64, 1);
        Ok(())
    }
}

impl Load for bool {
    open spec fn dec(s: Seq<u8>) -> Result<(bool, nat), ErrorKind> {
        if s.len() < 1 {
            Err(ErrorKind::FileRead)
        } else {
            Ok(((s[0] != 0), 1))
        }
    }

    fn load(read: &mut Source) -> (r: Result<bool, Error>) {
        // the byte 0 is false; any nonzero byte is true, deliberately
        match read.read_leuint(1) {
            Ok(u) => {
                proof {
                    let s = old(read).remaining();
                    assert(s.take(1).drop_first() =~= Seq::<u8>::empty());
                    assert(le_val(Seq::<u8>::empty()) == 0);
                    assert(le_val(s.take(1)) == s[0] as nat);
                }
                Ok(u != 0)
            },
            Err(e) => Err(e),
        }
    }
}

impl RoundTrip for bool {
    proof fn lemma_round_trip(&self, rest: Seq<u8>) {
        let b: nat = if *self { 1 } else { 0 };
        assert(le_bytes(b / 256, 0) =~= Seq::<u8>::empty());
        assert(self.enc() =~= seq![if *self { 1u8 } else { 0u8 }]);
        let s = self.enc() + rest;
        assert(s[0] == (if *self { 1u8 } else { 0u8 }));
    }
}

/// Law: dumping a value of this type always produces exactly 1 byte,
/// whatever the value's magnitude.
pub proof fn lemma_fixed_width_u8(v: u8)
    ensures
        v.enc().len() == 1,
{
    lemma_le_bytes_len(v as nat, 1);
}

/// Law: dumping a value of this type always produces exactly 2 bytes,
/// whatever the value's magnitude.
pub proof fn lemma_fixed_width_u16(v: u16)
    ensures
        v.enc().len() == 2,
{
    lemma_le_bytes_len(v as nat, 2);
}

/// Law: dumping a value of this type always produces exactly 4 bytes,
/// whatever the value's magnitude.
pub proof fn lemma_fixed_width_u32(v: u32)
    ensures
        v.enc().len() == 4,
{
    lemma_le_bytes_len(v as nat, 4);
}

/// Law: dumping a value of this type always produces exactly 8 bytes,
/// whatever the value's magnitude.
pub proof fn lemma_fixed_width_u64(v: u64)
    ensures
        v.enc().len() == 8,
{
    lemma_le_bytes_len(v as nat, 8);
}

/// Law: dumping a value of this type always produces exactly 1 byte,
/// whatever the value's magnitude.
pub proof fn lemma_fixed_width_i8(v: i8)
    ensures
        v.enc().len() == 1,
{
    lemma_le_bytes_len(tc_residue(v as int, 1), 1);
}

/// Law: dumping a value of this type always produces exactly 2 bytes,
/// whatever the value's magnitude.
pub proof fn lemma_fixed_width_i16(v: i16)
    ensures
        v.enc().len() == 2,
{
    lemma_le_bytes_len(tc_residue(v as int, 2), 2);
}

/// Law: dumping a value of this type always produces exactly 4 bytes,
/// whatever the value's magnitude.
pub proof fn lemma_fixed_width_i32(v: i32)
    ensures
        v.enc().len() == 4,
{
    lemma_le_bytes_len(tc_residue(v as int, 4), 4);
}

/// Law: dumping a value of this type always produces exactly 8 bytes,
/// whatever the value's magnitude.
pub proof fn lemma_fixed_width_i64(v: i64)
    ensures
        v.enc().len() == 8,
{
    lemma_le_bytes_len(tc_residue(v as int, 8), 8);
}

/// Law: dumping a value of this type always produces exactly 16 bytes,
/// whatever the value's magnitude.
pub proof fn lemma_fixed_width_u128(v: u128)
    ensures
        v.enc().len() == 16,
{
    lemma_le_bytes_len(v as nat, 16);
}

/// Law: dumping a value of this type always produces exactly 16 bytes,
/// whatever the value's magnitude.
pub proof fn lemma_fixed_width_i128(v: i128)
    ensures
        v.enc().len() == 16,
{
    lemma_le_bytes_len(tc_residue(v as int, 16), 16);
}

} // verus!
