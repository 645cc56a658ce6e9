//! The two codec capabilities, as traits with exact contracts.
//!
//! A `Dump` type knows its canonical byte encoding, `enc`; its `dump` method
//! appends exactly those bytes to a sink. A `Load` type knows its decode
//! function `dec`, a total specification-level parser that either yields the
//! decoded value (as its deep view) with the number of bytes consumed, or
//! says which error the input earns; its `load` method agrees with `dec`
//! exactly, on success and on failure. A `RoundTrip` type carries the proof
//! that loading from a dumped encoding gives back the dumped value.

use core::marker::PhantomData;

use vstd::prelude::*;

use crate::err::Error;
use crate::err::ErrorKind;
use crate::stream::Sink;
use crate::stream::Source;
use crate::wire::dec_uint;
use crate::wire::le_bytes;

verus! {

/// The serialize-to-bytes capability.
pub trait Dump: Sized {
    /// Whether the value may be dumped at all. Text must hold no NUL byte;
    /// every other invariant of the format is carried by the types
    /// themselves.
    spec fn wf(&self) -> bool;

    /// The canonical byte encoding of the value.
    spec fn enc(&self) -> Seq<u8>;

    /// Appends the canonical encoding of `self` to the sink. An in-memory
    /// sink never fails.
    fn dump(&self, write: &mut Sink) -> (r: Result<(), Error>)
        requires
            self.wf(),
        ensures
            r is Ok,
            final(write)@ == old(write)@ + self.enc(),
    ;
}

/// The reconstruct-from-bytes capability.
pub trait Load: Sized + DeepView {
    /// The decode, at the specification level: a total function from input
    /// bytes to either the decoded value (as its deep view) and the exact
    /// number of bytes consumed, or the kind of error that input earns.
    spec fn dec(s: Seq<u8>) -> Result<(<Self as DeepView>::V, nat), ErrorKind>;

    /// Reads one value from the source. Success, the value, the bytes
    /// consumed, and the error kind on failure all agree exactly with `dec`
    /// on the remaining bytes. On failure the cursor stays within bounds but
    /// bytes already consumed stay consumed.
    fn load(read: &mut Source) -> (r: Result<Self, Error>)
        requires
            old(read).inv(),
        ensures
            final(read).inv(),
            final(read).all_data() == old(read).all_data(),
            old(read).cursor() <= final(read).cursor(),
            match r {
                Ok(v) => Self::dec(old(read).remaining()) == Ok::<
                    (<Self as DeepView>::V, nat),
                    ErrorKind,
                >((v.deep_view(), (final(read).cursor() - old(read).cursor()) as nat)),
                Err(e) => Self::dec(old(read).remaining()) == Err::<
                    (<Self as DeepView>::V, nat),
                    ErrorKind,
                >(e.kind),
            },
    ;
}

/// The law tying the two capabilities together: decoding a dumped encoding,
/// whatever bytes follow it, succeeds, gives back exactly the dumped value,
/// and consumes exactly the encoding.
pub trait RoundTrip: Dump + Load {
    /// Proof of the round-trip law for this type.
    proof fn lemma_round_trip(&self, rest: Seq<u8>)
        requires
            self.wf(),
        ensures
            Self::dec(self.enc() + rest) == Ok::<(<Self as DeepView>::V, nat), ErrorKind>(
                (self.deep_view(), self.enc().len()),
            ),
    ;
}

/// All elements of a sequence may be dumped.
pub open spec fn seq_wf<T: Dump>(es: Seq<T>) -> bool {
    forall|i: int| 0 <= i < es.len() ==> #[trigger] es[i].wf()
}

/// The encodings of the elements of a sequence, back to back.
pub open spec fn seq_enc<T: Dump>(es: Seq<T>) -> Seq<u8>
    decreases es.len(),
{
    if es.len() == 0 {
        seq![]
    } else {
        es[0].enc() + seq_enc(es.drop_first())
    }
}

/// Element encodings concatenate over sequence concatenation.
pub proof fn lemma_seq_enc_concat<T: Dump>(a: Seq<T>, b: Seq<T>)
    ensures
        seq_enc(a + b) == seq_enc(a) + seq_enc(b),
    decreases a.len(),
{
    if a.len() == 0 {
        assert(a + b =~= b);
        assert(seq_enc(a) + seq_enc(b) =~= seq_enc(b));
    } else {
        assert((a + b).drop_first() =~= a.drop_first() + b);
        lemma_seq_enc_concat(a.drop_first(), b);
        assert(seq_enc(a + b) =~= seq_enc(a) + seq_enc(b));
    }
}

/// Decodes `cnt` consecutive elements: their deep views and the total bytes
/// consumed, or the error of the first element that fails.
pub open spec fn elems_dec<T: Load>(s: Seq<u8>, cnt: nat) -> Result<
    (Seq<<T as DeepView>::V>, nat),
    ErrorKind,
>
    decreases cnt,
{
    if cnt == 0 {
        Ok((seq![], 0))
    } else {
        match T::dec(s) {
            Ok((dv, n)) => match elems_dec::<T>(s.skip(n as int), (cnt - 1) as nat) {
                Ok((vs, m)) => Ok((seq![dv] + vs, n + m)),
                Err(k) => Err(k),
            },
            Err(k) => Err(k),
        }
    }
}

impl Sink {
    /// Dumps any dumpable value into this sink.
    pub fn dump<D: Dump>(&mut self, to_dump: &D) -> (r: Result<(), Error>)
        requires
            to_dump.wf(),
        ensures
            r is Ok,
            final(self)@ == old(self)@ + to_dump.enc(),
    {
        to_dump.dump(self)
    }

    /// Writes a sequence in the wire layout of growable sequences: an 8-byte
    /// little-endian element count, then each element in order.
    pub fn write_iter<T: Dump>(&mut self, elems: &[T]) -> (r: Result<(), Error>)
        requires
            seq_wf(elems@),
        ensures
            r is Ok,
            final(self)@ == old(self)@ + le_bytes(elems@.len(), 8) + seq_enc(elems@),
    {
        let n = elems.len();
        proof {
            vstd::arithmetic::power2::lemma2_to64();
            vstd::arithmetic::power2::lemma2_to64_rest();
        }
        self.write_leuint(n as u64, 8);
        let mut i: usize = 0;
        while i < n
            invariant
                i <= n,
                n == elems@.len(),
                seq_wf(elems@),
                self@ == old(self)@ + le_bytes(elems@.len(), 8) + seq_enc(elems@.take(i as int)),
            decreases n - i,
        {
            let r = elems[i].dump(self);
            proof {
                assert(elems@.take(i + 1) =~= elems@.take(i as int) + seq![elems@[i as int]]);
                lemma_seq_enc_concat(elems@.take(i as int), seq![elems@[i as int]]);
                let single = seq![elems@[i as int]];
                assert(single.drop_first() =~= Seq::<T>::empty());
                assert(seq_enc(single.drop_first()) =~= Seq::<u8>::empty());
                assert(seq_enc(single) =~= elems@[i as int].enc());
                assert(self@ =~= old(self)@ + le_bytes(elems@.len(), 8) + seq_enc(
                    elems@.take(i + 1),
                ));
            }
            i = i + 1;
        }
        proof {
            assert(elems@.take(n as int) =~= elems@);
        }
        Ok(())
    }
}

impl Source {
    /// Loads any loadable value from this source.
    pub fn load<N: Load>(&mut self) -> (r: Result<N, Error>)
        requires
            old(self).inv(),
        ensures
            final(self).inv(),
            final(self).all_data() == old(self).all_data(),
            old(self).cursor() <= final(self).cursor(),
            match r {
                Ok(v) => N::dec(old(self).remaining()) == Ok::<
                    (<N as DeepView>::V, nat),
                    ErrorKind,
                >((v.deep_view(), (final(self).cursor() - old(self).cursor()) as nat)),
                Err(e) => N::dec(old(self).remaining()) == Err::<
                    (<N as DeepView>::V, nat),
                    ErrorKind,
                >(e.kind),
            },
    {
        N::load(self)
    }

    /// Reads the 8-byte element count of a sequence and hands back the
    /// decoder that will produce that many elements, fail-fast.
    pub fn iter_array<N: Load>(&mut self) -> (r: Result<ArrayIter<N>, Error>)
        requires
            old(self).inv(),
        ensures
            final(self).inv(),
            final(self).all_data() == old(self).all_data(),
            old(self).cursor() <= final(self).cursor(),
            match r {
                Ok(it) => {
                    &&& dec_uint(old(self).remaining(), 8) == Ok::<(nat, nat), ErrorKind>(
                        (it.total(), 8),
                    )
                    &&& final(self).cursor() == old(self).cursor() + 8
                    &&& it.done() == 0
                    &&& !it.has_failed()
                },
                Err(e) => {
                    &&& dec_uint(old(self).remaining(), 8) == Err::<(nat, nat), ErrorKind>(e.kind)
                    &&& final(self).cursor() == old(self).cursor()
                },
            },
    {
        let n_elems = match self.read_leuint(8) {
            Ok(u) => u,
            Err(e) => {
                return Err(e);
            },
        };
        Ok(ArrayIter { n_elems, read_elems: 0, failed: false, marker_data: PhantomData })
    }
}

/// A finite, forward-only, non-restartable producer of decoded elements: it
/// yields up to its declared element count, and after the first failure it
/// is permanently exhausted — later steps yield nothing, not even further
/// failures.
pub struct ArrayIter<T> {
    n_elems: u64,
    read_elems: u64,
    // once next() has handed out a failure, it must keep returning None,
    // without a way to change back.
    failed: bool,
    // keeps the element type without holding any element
    marker_data: PhantomData<T>,
}

impl<T> ArrayIter<T> {
    /// The declared element count.
    pub closed spec fn total(&self) -> nat {
        self.n_elems as nat
    }

    /// How many elements have been produced so far.
    pub closed spec fn done(&self) -> nat {
        self.read_elems as nat
    }

    /// Whether a step has failed; sticky.
    pub closed spec fn has_failed(&self) -> bool {
        self.failed
    }
}

impl<T: Load> ArrayIter<T> {
    /// One step: decodes the next element, or yields nothing once the count
    /// is exhausted or a step has failed. A failing step yields its error
    /// once and trips the sticky flag.
    pub fn next(&mut self, read: &mut Source) -> (r: Option<Result<T, Error>>)
        requires
            old(read).inv(),
        ensures
            final(read).inv(),
            final(read).all_data() == old(read).all_data(),
            old(read).cursor() <= final(read).cursor(),
            final(self).total() == old(self).total(),
            match r {
                None => {
                    &&& old(self).has_failed() || old(self).done() >= old(self).total()
                    &&& *final(self) == *old(self)
                    &&& final(read).cursor() == old(read).cursor()
                },
                Some(inner) => {
                    &&& !old(self).has_failed()
                    &&& old(self).done() < old(self).total()
                    &&& match inner {
                        Ok(v) => {
                            &&& T::dec(old(read).remaining()) == Ok::<
                                (<T as DeepView>::V, nat),
                                ErrorKind,
                            >((
                                v.deep_view(),
                                (final(read).cursor() - old(read).cursor()) as nat,
                            ))
                            &&& final(self).done() == old(self).done() + 1
                            &&& !final(self).has_failed()
                        },
                        Err(e) => {
                            &&& T::dec(old(read).remaining()) == Err::<
                                (<T as DeepView>::V, nat),
                                ErrorKind,
                            >(e.kind)
                            &&& final(self).has_failed()
                            &&& final(self).done() == old(self).done()
                        },
                    }
                },
            },
    {
        if !self.failed && self.read_elems < self.n_elems {
            let res = read.load::<T>();
            // on success, advance the element count; on failure, trip the
            // sticky flag
            match res {
                Ok(..) => {
                    self.read_elems = self.read_elems + 1;
                },
                Err(..) => {
                    self.failed = true;
                },
            };
            Some(res)
        } else {
            None
        }
    }
}

} // verus!
