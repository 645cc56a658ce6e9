//! A worked aggregate pair with hand-written glue, obeying the aggregate
//! rules of the format: a struct dumps every field's value in declared order
//! with no framing, and a tagged union dumps the active variant's declaration
//! index as a 4-byte unsigned little-endian tag, then the variant's fields in
//! declared order. The union here is recursive through an owned indirection,
//! which adds no bytes on the wire.
//!
//! A tag outside the declared variant range signals stream corruption too
//! structural to continue; loading reports it on the distinct
//! internal-invariant kind rather than pressing on.

use vstd::prelude::*;

use crate::err::Error;
use crate::err::ErrorKind;
use crate::ext_io::Dump;
use crate::ext_io::Load;
use crate::ext_io::RoundTrip;
use crate::stream::Sink;
use crate::stream::Source;
use crate::wire::dec_uint;
use crate::wire::le_bytes;
use crate::wire::lemma_le_bytes_len;
use crate::wire::lemma_le_val_le_bytes_small;
use vstd::array::array_index_get;
use vstd::slice::slice_index_get;

verus! {

/// A tagged union exercising every variant shape: unit, named fields, and
/// positional fields with one level of recursion through a box.
#[derive(Debug)]
pub enum SampleEnum {
    One,
    Struct { f1: i32, f2: String },
    Tuple(u128, bool, Box<SampleEnum>),
}

/// The mathematical shape of a `SampleEnum` value: its deep view.
pub enum SampleEnumV {
    One,
    Struct { f1: i32, f2: Seq<char> },
    Tuple(u128, bool, Box<SampleEnumV>),
}

/// The deep view of a `SampleEnum`, variant by variant.
pub open spec fn sample_enum_deep(e: SampleEnum) -> SampleEnumV
    decreases e,
{
    match e {
        SampleEnum::One => SampleEnumV::One,
        SampleEnum::Struct { f1, f2 } => SampleEnumV::Struct { f1, f2: f2@ },
        SampleEnum::Tuple(a, b, bx) => SampleEnumV::Tuple(
            a,
            b,
            Box::new(sample_enum_deep(*bx)),
        ),
    }
}

impl DeepView for SampleEnum {
    type V = SampleEnumV;

    open spec fn deep_view(&self) -> SampleEnumV {
        sample_enum_deep(*self)
    }
}

/// Whether a `SampleEnum` may be dumped: its text, anywhere in the tree,
/// must be free of NUL.
pub open spec fn sample_enum_wf(e: SampleEnum) -> bool
    decreases e,
{
    match e {
        SampleEnum::One => true,
        SampleEnum::Struct { f1, f2 } => f2.wf(),
        SampleEnum::Tuple(a, b, bx) => sample_enum_wf(*bx),
    }
}

/// The canonical encoding of a `SampleEnum`: the variant's declaration index
/// as a 4-byte tag, then its fields in declared order.
pub open spec fn sample_enum_enc(e: SampleEnum) -> Seq<u8>
    decreases e,
{
    match e {
        SampleEnum::One => le_bytes(0, 4),
        SampleEnum::Struct { f1, f2 } => le_bytes(1, 4) + f1.enc() + f2.enc(),
        SampleEnum::Tuple(a, b, bx) => le_bytes(2, 4) + a.enc() + b.enc() + sample_enum_enc(*bx),
    }
}

/// The decode of a `SampleEnum`: reads the 4-byte tag, dispatches on it, and
/// earns the internal-invariant kind on a tag outside the declared range.
pub open spec fn sample_enum_dec(s: Seq<u8>) -> Result<(SampleEnumV, nat), ErrorKind>
    decreases s.len(),
{
    match dec_uint(s, 4) {
        Err(k) => Err(k),
        Ok((tag, _)) => {
            let body = s.skip(4);
            if tag == 0 {
                Ok((SampleEnumV::One, 4))
            } else if tag == 1 {
                match <i32 as Load>::dec(body) {
                    Err(k) => Err(k),
                    Ok((f1, n1)) => match <String as Load>::dec(body.skip(n1 as int)) {
                        Err(k) => Err(k),
                        Ok((f2, n2)) => Ok(
                            (SampleEnumV::Struct { f1, f2 }, (4 + n1 + n2) as nat),
                        ),
                    },
                }
            } else if tag == 2 {
                match <u128 as Load>::dec(body) {
                    Err(k) => Err(k),
                    Ok((a, _)) => match <bool as Load>::dec(body.skip(16)) {
                        Err(k) => Err(k),
                        Ok((b, _)) => match sample_enum_dec(s.skip(21)) {
                            Err(k) => Err(k),
                            Ok((inner, n3)) => Ok(
                                (
                                    SampleEnumV::Tuple(a, b, Box::new(inner)),
                                    (21 + n3) as nat,
                                ),
                            ),
                        },
                    },
                }
            } else {
                Err(ErrorKind::Unknown)
            }
        },
    }
}

impl SampleEnum {
    /// Dumps the variant tag and then the variant's fields, recursing
    /// through the owned indirection.
    pub fn dump_rec(&self, write: &mut Sink) -> (r: Result<(), Error>)
        requires
            sample_enum_wf(*self),
        ensures
            r is Ok,
            final(write)@ == old(write)@ + sample_enum_enc(*self),
        decreases *self,
    {
        proof {
            vstd::arithmetic::power2::lemma2_to64();
        }
        match self {
            SampleEnum::One => {
                write.write_leuint(0, 4);
                Ok(())
            },
            SampleEnum::Struct { f1, f2 } => {
                write.write_leuint(1, 4);
                let _ = f1.dump(write);
                let _ = f2.dump(write);
                proof {
                    assert(final(write)@ =~= old(write)@ + (le_bytes(1, 4) + f1.enc()
                        + f2.enc()));
                }
                Ok(())
            },
            SampleEnum::Tuple(a, b, bx) => {
                write.write_leuint(2, 4);
                let _ = a.dump(write);
                let _ = b.dump(write);
                let _ = (**bx).dump_rec(write);
                proof {
                    assert(final(write)@ =~= old(write)@ + (le_bytes(2, 4) + a.enc() + b.enc()
                        + sample_enum_enc(**bx)));
                }
                Ok(())
            },
        }
    }

    /// Reads the 4-byte tag and dispatches on it, recursing for the
    /// indirection of the positional variant.
    pub fn load_rec(read: &mut Source) -> (r: Result<SampleEnum, Error>)
        requires
            old(read).inv(),
        ensures
            final(read).inv(),
            final(read).all_data() == old(read).all_data(),
            old(read).cursor() <= final(read).cursor(),
            match r {
                Ok(v) => sample_enum_dec(old(read).remaining()) == Ok::<
                    (SampleEnumV, nat),
                    ErrorKind,
                >((v.deep_view(), (final(read).cursor() - old(read).cursor()) as nat)),
                Err(e) => sample_enum_dec(old(read).remaining()) == Err::<
                    (SampleEnumV, nat),
                    ErrorKind,
                >(e.kind),
            },
        decreases old(read).all_data().len() - old(read).cursor(),
    {
        let ghost rem = old(read).remaining();
        let tag = match read.read_leuint(4) {
            Ok(u) => u,
            Err(e) => {
                return Err(e);
            },
        };
        if tag == 0 {
            Ok(SampleEnum::One)
        } else if tag == 1 {
            proof {
                assert(read.remaining() =~= rem.skip(4));
            }
            let f1 = match read.load::<i32>() {
                Ok(v) => v,
                Err(e) => {
                    return Err(e);
                },
            };
            proof {
                assert(read.remaining() =~= rem.skip(4).skip(
                    (read.cursor() - old(read).cursor() - 4) as int,
                ));
            }
            let f2 = match read.load::<String>() {
                Ok(v) => v,
                Err(e) => {
                    return Err(e);
                },
            };
            Ok(SampleEnum::Struct { f1, f2 })
        } else if tag == 2 {
            proof {
                assert(read.remaining() =~= rem.skip(4));
            }
            let a = match read.load::<u128>() {
                Ok(v) => v,
                Err(e) => {
                    return Err(e);
                },
            };
            proof {
                assert(read.remaining() =~= rem.skip(4).skip(16));
            }
            let b = match read.load::<bool>() {
                Ok(v) => v,
                Err(e) => {
                    return Err(e);
                },
            };
            proof {
                assert(read.remaining() =~= rem.skip(21));
                assert(rem.skip(4).skip(16).skip(1) =~= rem.skip(21));
            }
            let inner = match SampleEnum::load_rec(read) {
                Ok(v) => v,
                Err(e) => {
                    return Err(e);
                },
            };
            Ok(SampleEnum::Tuple(a, b, Box::new(inner)))
        } else {
            Err(Error::new(ErrorKind::Unknown))
        }
    }
}

impl Dump for SampleEnum {
    open spec fn wf(&self) -> bool {
        sample_enum_wf(*self)
    }

    open spec fn enc(&self) -> Seq<u8> {
        sample_enum_enc(*self)
    }

    fn dump(&self, write: &mut Sink) -> (r: Result<(), Error>) {
        self.dump_rec(write)
    }
}

impl Load for SampleEnum {
    open spec fn dec(s: Seq<u8>) -> Result<(SampleEnumV, nat), ErrorKind> {
        sample_enum_dec(s)
    }

    fn load(read: &mut Source) -> (r: Result<SampleEnum, Error>) {
        SampleEnum::load_rec(read)
    }
}

/// Round trip for the union: decoding a dumped variant gives back exactly
/// that variant, including through the recursion.
pub proof fn lemma_sample_enum_round_trip(e: SampleEnum, rest: Seq<u8>)
    requires
        sample_enum_wf(e),
    ensures
        sample_enum_dec(sample_enum_enc(e) + rest) == Ok::<(SampleEnumV, nat), ErrorKind>(
            (sample_enum_deep(e), sample_enum_enc(e).len()),
        ),
    decreases e,
{
    vstd::arithmetic::power2::lemma2_to64();
    match e {
        SampleEnum::One => {
            let s = sample_enum_enc(e) + rest;
            lemma_le_bytes_len(0, 4);
            assert(s.take(4) =~= le_bytes(0, 4));
            lemma_le_val_le_bytes_small(0, 4);
        },
        SampleEnum::Struct { f1, f2 } => {
            let s = sample_enum_enc(e) + rest;
            lemma_le_bytes_len(1, 4);
            assert(s.take(4) =~= le_bytes(1, 4));
            lemma_le_val_le_bytes_small(1, 4);
            let tail2 = f2.enc() + rest;
            assert(s.skip(4) =~= f1.enc() + tail2);
            f1.lemma_round_trip(tail2);
            assert((f1.enc() + tail2).skip(f1.enc().len() as int) =~= tail2);
            f2.lemma_round_trip(rest);
            lemma_le_bytes_len(crate::wire::tc_residue(f1 as int, 4), 4);
        },
        SampleEnum::Tuple(a, b, bx) => {
            let s = sample_enum_enc(e) + rest;
            lemma_le_bytes_len(2, 4);
            assert(s.take(4) =~= le_bytes(2, 4));
            lemma_le_val_le_bytes_small(2, 4);
            let tail_inner = sample_enum_enc(*bx) + rest;
            let tail_b = b.enc() + tail_inner;
            assert(s.skip(4) =~= a.enc() + tail_b);
            a.lemma_round_trip(tail_b);
            lemma_le_bytes_len(a as nat, 16);
            assert((a.enc() + tail_b).skip(16) =~= tail_b);
            b.lemma_round_trip(tail_inner);
            lemma_le_bytes_len(if b { 1nat } else { 0nat }, 1);
            assert(s.skip(21) =~= tail_inner);
            lemma_sample_enum_round_trip(*bx, rest);
        },
    }
}

impl RoundTrip for SampleEnum {
    proof fn lemma_round_trip(&self, rest: Seq<u8>) {
        lemma_sample_enum_round_trip(*self, rest);
    }
}

/// Structural equality for the union, compared by value through the
/// recursion.
pub fn sample_enum_eq(a: &SampleEnum, b: &SampleEnum) -> (r: bool)
    ensures
        r == (a.deep_view() == b.deep_view()),
    decreases *a,
{
    match (a, b) {
        (SampleEnum::One, SampleEnum::One) => true,
        (SampleEnum::Struct { f1: x1, f2: y1 }, SampleEnum::Struct { f1: x2, f2: y2 }) => {
            *x1 == *x2 && y1.eq(y2)
        },
        (SampleEnum::Tuple(a1, b1, c1), SampleEnum::Tuple(a2, b2, c2)) => {
            *a1 == *a2 && *b1 == *b2 && sample_enum_eq(&**c1, &**c2)
        },
        _ => false,
    }
}

impl PartialEq for SampleEnum {
    fn eq(&self, other: &SampleEnum) -> (r: bool) {
        sample_enum_eq(self, other)
    }
}

impl vstd::std_specs::cmp::PartialEqSpecImpl for SampleEnum {
    open spec fn obeys_eq_spec() -> bool {
        true
    }

    open spec fn eq_spec(&self, other: &SampleEnum) -> bool {
        self.deep_view() == other.deep_view()
    }
}

/// An aggregate exercising the three sequence shapes of the format: a boxed
/// slice, a fixed array, and a growable vector.
#[derive(Debug)]
pub struct Sample {
    pub some_box_arr: Box<[i32]>,
    pub some_enum_arr: [SampleEnum; 3],
    pub some_vec: Vec<String>,
}

/// The mathematical shape of a `Sample` value: its deep view.
pub struct SampleV {
    pub some_box_arr: Seq<i32>,
    pub some_enum_arr: Seq<SampleEnumV>,
    pub some_vec: Seq<Seq<char>>,
}

impl DeepView for Sample {
    type V = SampleV;

    open spec fn deep_view(&self) -> SampleV {
        SampleV {
            some_box_arr: self.some_box_arr.deep_view(),
            some_enum_arr: self.some_enum_arr.deep_view(),
            some_vec: self.some_vec.deep_view(),
        }
    }
}

impl Dump for Sample {
    open spec fn wf(&self) -> bool {
        self.some_box_arr.wf() && self.some_enum_arr.wf() && self.some_vec.wf()
    }

    open spec fn enc(&self) -> Seq<u8> {
        self.some_box_arr.enc() + self.some_enum_arr.enc() + self.some_vec.enc()
    }

    fn dump(&self, write: &mut Sink) -> (r: Result<(), Error>) {
        let _ = self.some_box_arr.dump(write);
        let _ = self.some_enum_arr.dump(write);
        let _ = self.some_vec.dump(write);
        proof {
            assert(final(write)@ =~= old(write)@ + (self.some_box_arr.enc()
                + self.some_enum_arr.enc() + self.some_vec.enc()));
        }
        Ok(())
    }
}

impl Load for Sample {
    open spec fn dec(s: Seq<u8>) -> Result<(SampleV, nat), ErrorKind> {
        match <Box<[i32]> as Load>::dec(s) {
            Err(k) => Err(k),
            Ok((a, n1)) => match <[SampleEnum; 3] as Load>::dec(s.skip(n1 as int)) {
                Err(k) => Err(k),
                Ok((b, n2)) => match <Vec<String> as Load>::dec(s.skip(n1 as int + n2 as int)) {
                    Err(k) => Err(k),
                    Ok((c, n3)) => Ok(
                        (
                            SampleV { some_box_arr: a, some_enum_arr: b, some_vec: c },
                            (n1 + n2 + n3) as nat,
                        ),
                    ),
                },
            },
        }
    }

    fn load(read: &mut Source) -> (r: Result<Sample, Error>) {
        let ghost rem = old(read).remaining();
        let some_box_arr = match read.load::<Box<[i32]>>() {
            Ok(v) => v,
            Err(e) => {
                return Err(e);
            },
        };
        proof {
            assert(read.remaining() =~= rem.skip((read.cursor() - old(read).cursor()) as int));
        }
        let some_enum_arr = match read.load::<[SampleEnum; 3]>() {
            Ok(v) => v,
            Err(e) => {
                return Err(e);
            },
        };
        proof {
            assert(read.remaining() =~= rem.skip((read.cursor() - old(read).cursor()) as int));
        }
        let some_vec = match read.load::<Vec<String>>() {
            Ok(v) => v,
            Err(e) => {
                return Err(e);
            },
        };
        Ok(Sample { some_box_arr, some_enum_arr, some_vec })
    }
}

impl RoundTrip for Sample {
    proof fn lemma_round_trip(&self, rest: Seq<u8>) {
        let tail_c = self.some_vec.enc() + rest;
        let tail_b = self.some_enum_arr.enc() + tail_c;
        assert(self.enc() + rest =~= self.some_box_arr.enc() + tail_b);
        self.some_box_arr.lemma_round_trip(tail_b);
        assert((self.some_box_arr.enc() + tail_b).skip(self.some_box_arr.enc().len() as int)
            =~= tail_b);
        self.some_enum_arr.lemma_round_trip(tail_c);
        assert(tail_b.skip(self.some_enum_arr.enc().len() as int) =~= tail_c);
        self.some_vec.lemma_round_trip(rest);
        assert((self.enc() + rest).skip(
            self.some_box_arr.enc().len() as int + self.some_enum_arr.enc().len() as int,
        ) =~= tail_c);
    }
}

/// Structural equality for the aggregate, field by field and element by
/// element.
pub fn sample_eq(a: &Sample, b: &Sample) -> (r: bool)
    ensures
        r == (a.deep_view() == b.deep_view()),
{
    let sa: &[i32] = &*a.some_box_arr;
    let sb: &[i32] = &*b.some_box_arr;
    if sa.len() != sb.len() {
        proof {
            assert(a.deep_view().some_box_arr.len() != b.deep_view().some_box_arr.len());
        }
        return false;
    }
    let n = sa.len();
    let mut i: usize = 0;
    while i < n
        invariant
            i <= n,
            n == sa@.len(),
            n == sb@.len(),
            sa@ == a.some_box_arr@,
            sb@ == b.some_box_arr@,
            forall|j: int| 0 <= j < i ==> sa@[j] == sb@[j],
        decreases n - i,
    {
        if *slice_index_get(sa, i) != *slice_index_get(sb, i) {
            proof {
                assert(a.deep_view().some_box_arr[i as int] != b.deep_view().some_box_arr[
                    i as int
                ]);
            }
            return false;
        }
        i = i + 1;
    }
    proof {
        assert(a.deep_view().some_box_arr =~= b.deep_view().some_box_arr);
    }
    let mut k: usize = 0;
    while k < 3
        invariant
            k <= 3,
            a.deep_view().some_box_arr == b.deep_view().some_box_arr,
            forall|j: int|
                0 <= j < k ==> a.some_enum_arr@[j].deep_view() == b.some_enum_arr@[j].deep_view(),
        decreases 3 - k,
    {
        proof {
            broadcast use vstd::array::group_array_axioms;

        }
        if !sample_enum_eq(array_index_get(&a.some_enum_arr, k), array_index_get(
            &b.some_enum_arr,
            k,
        )) {
            proof {
                assert(a.deep_view().some_enum_arr[k as int] != b.deep_view().some_enum_arr[
                    k as int
                ]);
            }
            return false;
        }
        k = k + 1;
    }
    proof {
        broadcast use vstd::array::group_array_axioms;

        assert(a.deep_view().some_enum_arr =~= b.deep_view().some_enum_arr);
    }
    let va = a.some_vec.as_slice();
    let vb = b.some_vec.as_slice();
    if va.len() != vb.len() {
        proof {
            assert(a.deep_view().some_vec.len() != b.deep_view().some_vec.len());
        }
        return false;
    }
    let m = va.len();
    let mut t: usize = 0;
    while t < m
        invariant
            t <= m,
            m == va@.len(),
            m == vb@.len(),
            va@ == a.some_vec@,
            vb@ == b.some_vec@,
            a.deep_view().some_box_arr == b.deep_view().some_box_arr,
            a.deep_view().some_enum_arr == b.deep_view().some_enum_arr,
            forall|j: int| 0 <= j < t ==> va@[j]@ == vb@[j]@,
        decreases m - t,
    {
        if !slice_index_get(va, t).eq(slice_index_get(vb, t)) {
            proof {
                assert(a.deep_view().some_vec[t as int] != b.deep_view().some_vec[t as int]);
            }
            return false;
        }
        t = t + 1;
    }
    proof {
        assert(a.deep_view().some_vec =~= b.deep_view().some_vec);
    }
    true
}

impl PartialEq for Sample {
    fn eq(&self, other: &Sample) -> (r: bool) {
        sample_eq(self, other)
    }
}

impl vstd::std_specs::cmp::PartialEqSpecImpl for Sample {
    open spec fn obeys_eq_spec() -> bool {
        true
    }

    open spec fn eq_spec(&self, other: &Sample) -> bool {
        self.deep_view() == other.deep_view()
    }
}

} // verus!
