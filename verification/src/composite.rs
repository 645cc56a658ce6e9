//! The composite combinators, each symmetric across dump and load: optional
//! values (a one-byte presence flag, then the payload when present), owned
//! indirections (transparent on the wire), and growable sequences (an 8-byte
//! little-endian element count, then the elements back to back).

use vstd::prelude::*;
use vstd::arithmetic::power2::pow2;
use vstd::arithmetic::power2::lemma2_to64;
use vstd::arithmetic::power2::lemma2_to64_rest;

use crate::err::Error;
use crate::err::ErrorKind;
use crate::ext_io::Dump;
use crate::ext_io::Load;
use crate::ext_io::RoundTrip;
use crate::ext_io::elems_dec;
use crate::ext_io::seq_enc;
use crate::ext_io::seq_wf;
use crate::stream::Sink;
use crate::stream::Source;
use crate::wire::dec_uint;
use crate::wire::le_bytes;
use crate::wire::lemma_le_bytes_len;
use crate::wire::lemma_le_val_le_bytes_small;

verus! {

/// The deep views of a sequence's elements.
pub open spec fn seq_deep<T: DeepView>(es: Seq<T>) -> Seq<<T as DeepView>::V> {
    Seq::new(es.len(), |i: int| es[i].deep_view())
}

/// Unfolds one successful element off a counted decode.
pub proof fn lemma_elems_dec_step<T: Load>(s: Seq<u8>, cnt: nat, dv: <T as DeepView>::V, n: nat)
    requires
        cnt > 0,
        T::dec(s) == Ok::<(<T as DeepView>::V, nat), ErrorKind>((dv, n)),
    ensures
        elems_dec::<T>(s, cnt) == (match elems_dec::<T>(s.skip(n as int), (cnt - 1) as nat) {
            Ok((vs, m)) => Ok::<(Seq<<T as DeepView>::V>, nat), ErrorKind>(
                (seq![dv] + vs, (n + m) as nat),
            ),
            Err(k) => Err::<(Seq<<T as DeepView>::V>, nat), ErrorKind>(k),
        }),
{
}

/// A failing element fails the whole counted decode with its own error.
pub proof fn lemma_elems_dec_err<T: Load>(s: Seq<u8>, cnt: nat, k: ErrorKind)
    requires
        cnt > 0,
        T::dec(s) == Err::<(<T as DeepView>::V, nat), ErrorKind>(k),
    ensures
        elems_dec::<T>(s, cnt) == Err::<(Seq<<T as DeepView>::V>, nat), ErrorKind>(k),
{
}

/// Round trip for a run of elements laid back to back: decoding the dumped
/// run, whatever follows, gives the dumped elements and consumes the run.
pub proof fn lemma_elems_round_trip<T: RoundTrip>(es: Seq<T>, rest: Seq<u8>)
    requires
        seq_wf(es),
    ensures
        elems_dec::<T>(seq_enc(es) + rest, es.len()) == Ok::<
            (Seq<<T as DeepView>::V>, nat),
            ErrorKind,
        >((seq_deep(es), seq_enc(es).len())),
    decreases es.len(),
{
    if es.len() == 0 {
        assert(seq_enc(es) + rest =~= rest);
        assert(seq_deep(es) =~= Seq::<<T as DeepView>::V>::empty());
        assert(seq_enc(es) =~= Seq::<u8>::empty());
    } else {
        let head = es[0];
        let tail = es.drop_first();
        let tail_bytes = seq_enc(tail) + rest;
        assert(seq_enc(es) + rest =~= head.enc() + tail_bytes);
        head.lemma_round_trip(tail_bytes);
        lemma_elems_dec_step::<T>(
            head.enc() + tail_bytes,
            es.len(),
            head.deep_view(),
            head.enc().len(),
        );
        assert((head.enc() + tail_bytes).skip(head.enc().len() as int) =~= tail_bytes);
        assert(seq_wf(tail)) by {
            assert(forall|i: int| 0 <= i < tail.len() ==> tail[i] == es[i + 1]);
        }
        lemma_elems_round_trip(tail, rest);
        assert(seq![head.deep_view()] + seq_deep(tail) =~= seq_deep(es));
    }
}

impl<'a, T: Dump> Dump for &'a T {
    open spec fn wf(&self) -> bool {
        (**self).wf()
    }

    open spec fn enc(&self) -> Seq<u8> {
        (**self).enc()
    }

    fn dump(&self, write: &mut Sink) -> (r: Result<(), Error>) {
        (**self).dump(write)
    }
}

impl<'a, T: Dump> Dump for &'a mut T {
    open spec fn wf(&self) -> bool {
        (**self).wf()
    }

    open spec fn enc(&self) -> Seq<u8> {
        (**self).enc()
    }

    fn dump(&self, write: &mut Sink) -> (r: Result<(), Error>) {
        (**self).dump(write)
    }
}

impl<'a, T: Dump> Dump for &'a [T] {
    open spec fn wf(&self) -> bool {
        seq_wf(self@)
    }

    open spec fn enc(&self) -> Seq<u8> {
        le_bytes(self@.len(), 8) + seq_enc(self@)
    }

    fn dump(&self, write: &mut Sink) -> (r: Result<(), Error>) {
        let r = write.write_iter(*self);
        proof {
            assert(final(write)@ =~= old(write)@ + (le_bytes(self@.len(), 8) + seq_enc(self@)));
        }
        r
    }
}

impl<T: Dump> Dump for Option<T> {
    open spec fn wf(&self) -> bool {
        match self {
            Some(x) => x.wf(),
            None => true,
        }
    }

    open spec fn enc(&self) -> Seq<u8> {
        match self {
            Some(x) => le_bytes(1, 1) + x.enc(),
            None => le_bytes(0, 1),
        }
    }

    fn dump(&self, write: &mut Sink) -> (r: Result<(), Error>) {
        match self {
            Some(val) => {
                let _ = write.dump(&true);
                let r2 = write.dump(val);
                proof {
                    assert(final(write)@ =~= old(write)@ + (le_bytes(1, 1) + val.enc()));
                }
                r2
            },
            None => write.dump(&false),
        }
    }
}

impl<T: Load> Load for Option<T> {
    open spec fn dec(s: Seq<u8>) -> Result<(Option<<T as DeepView>::V>, nat), ErrorKind> {
        if s.len() < 1 {
            Err(ErrorKind::FileRead)
        } else if s[0] == 0 {
            Ok((None, 1))
        } else {
            match T::dec(s.skip(1)) {
                Ok((dv, n)) => Ok((Some(dv), (n + 1) as nat)),
                Err(k) => Err(k),
            }
        }
    }

    fn load(read: &mut Source) -> (r: Result<Option<T>, Error>) {
        let ghost rem = old(read).remaining();
        match read.load::<bool>() {
            Err(e) => Err(e),
            Ok(false) => Ok(None),
            Ok(true) => {
                proof {
                    assert(read.remaining() =~= rem.skip(1));
                }
                match read.load::<T>() {
                    Ok(v) => Ok(Some(v)),
                    Err(e) => Err(e),
                }
            },
        }
    }
}

impl<T: RoundTrip> RoundTrip for Option<T> {
    proof fn lemma_round_trip(&self, rest: Seq<u8>) {
        assert(le_bytes(0, 0) =~= Seq::<u8>::empty());
        match self {
            None => {
                assert(self.enc() =~= seq![0u8]);
                assert((self.enc() + rest)[0] == 0);
            },
            Some(x) => {
                assert(le_bytes(1, 1) =~= seq![1u8]);
                let s = self.enc() + rest;
                assert(s[0] == 1);
                assert(s.skip(1) =~= x.enc() + rest);
                x.lemma_round_trip(rest);
            },
        }
    }
}

impl<T: Dump> Dump for Box<T> {
    open spec fn wf(&self) -> bool {
        (**self).wf()
    }

    open spec fn enc(&self) -> Seq<u8> {
        (**self).enc()
    }

    fn dump(&self, write: &mut Sink) -> (r: Result<(), Error>) {
        write.dump(&(**self))
    }
}

impl<T: Load> Load for Box<T> {
    open spec fn dec(s: Seq<u8>) -> Result<(<T as DeepView>::V, nat), ErrorKind> {
        T::dec(s)
    }

    fn load(read: &mut Source) -> (r: Result<Box<T>, Error>) {
        match read.load::<T>() {
            Ok(v) => Ok(Box::new(v)),
            Err(e) => Err(e),
        }
    }
}

impl<T: RoundTrip> RoundTrip for Box<T> {
    proof fn lemma_round_trip(&self, rest: Seq<u8>) {
        (**self).lemma_round_trip(rest);
    }
}

impl<T: Dump> Dump for Vec<T> {
    open spec fn wf(&self) -> bool {
        seq_wf(self@)
    }

    open spec fn enc(&self) -> Seq<u8> {
        le_bytes(self@.len(), 8) + seq_enc(self@)
    }

    fn dump(&self, write: &mut Sink) -> (r: Result<(), Error>) {
        let r = write.write_iter(self.as_slice());
        proof {
            assert(final(write)@ =~= old(write)@ + (le_bytes(self@.len(), 8) + seq_enc(self@)));
        }
        r
    }
}

impl<T: Load> Load for Vec<T> {
    open spec fn dec(s: Seq<u8>) -> Result<(Seq<<T as DeepView>::V>, nat), ErrorKind> {
        match dec_uint(s, 8) {
            Ok((cnt, _)) => match elems_dec::<T>(s.skip(8), cnt) {
                Ok((vs, m)) => Ok((vs, (8 + m) as nat)),
                Err(k) => Err(k),
            },
            Err(k) => Err(k),
        }
    }

    fn load(read: &mut Source) -> (r: Result<Vec<T>, Error>) {
        let ghost rem = old(read).remaining();
        let mut it = match read.iter_array::<T>() {
            Ok(it) => it,
            Err(e) => {
                return Err(e);
            },
        };
        let ghost cnt = it.total();
        let ghost s1 = read.remaining();
        proof {
            assert(s1 =~= rem.skip(8));
        }
        let mut ret: Vec<T> = Vec::new();
        loop
            invariant
                rem == old(read).remaining(),
                dec_uint(rem, 8) == Ok::<(nat, nat), ErrorKind>((cnt, 8)),
                s1 == rem.skip(8),
                read.inv(),
                read.all_data() == old(read).all_data(),
                old(read).cursor() + 8 <= read.cursor(),
                read.remaining() == s1.skip((read.cursor() - old(read).cursor() - 8) as int),
                cnt == it.total(),
                !it.has_failed(),
                it.done() == ret@.len(),
                it.done() <= cnt,
                elems_dec::<T>(s1, cnt) == (match elems_dec::<T>(
                    read.remaining(),
                    (cnt - it.done()) as nat,
                ) {
                    Ok((vs, m)) => Ok::<(Seq<<T as DeepView>::V>, nat), ErrorKind>(
                        (ret.deep_view() + vs, ((read.cursor() - old(read).cursor() - 8) + m) as nat),
                    ),
                    Err(k) => Err::<(Seq<<T as DeepView>::V>, nat), ErrorKind>(k),
                }),
            decreases cnt - it.done(),
        {
            let ghost pre_rem = read.remaining();
            let ghost pre_done = it.done();
            let ghost pre_deep = ret.deep_view();
            let ghost pre_used = (read.cursor() - old(read).cursor() - 8) as nat;
            match it.next(read) {
                None => {
                    proof {
                        assert(it.done() == cnt);
                        assert(elems_dec::<T>(read.remaining(), 0) == Ok::<
                            (Seq<<T as DeepView>::V>, nat),
                            ErrorKind,
                        >((seq![], 0)));
                        assert(ret.deep_view() + Seq::<<T as DeepView>::V>::empty()
                            =~= ret.deep_view());
                    }
                    return Ok(ret);
                },
                Some(Ok(v)) => {
                    let ghost n = (read.cursor() - old(read).cursor() - 8 - pre_used) as nat;
                    ret.push(v);
                    proof {
                        lemma_elems_dec_step::<T>(pre_rem, (cnt - pre_done) as nat, v.deep_view(), n);
                        assert(read.remaining() =~= pre_rem.skip(n as int));
                        assert(read.remaining() =~= s1.skip(
                            (read.cursor() - old(read).cursor() - 8) as int,
                        ));
                        assert(ret.deep_view() =~= pre_deep + seq![v.deep_view()]);
                        match elems_dec::<T>(read.remaining(), (cnt - it.done()) as nat) {
                            Ok((vs, m)) => {
                                assert(pre_deep + (seq![v.deep_view()] + vs) =~= ret.deep_view()
                                    + vs);
                            },
                            Err(k) => {},
                        }
                    }
                },
                Some(Err(e)) => {
                    proof {
                        lemma_elems_dec_err::<T>(pre_rem, (cnt - pre_done) as nat, e.kind);
                    }
                    return Err(e);
                },
            }
        }
    }
}

/// Round trip for the counted sequence layout shared by vectors and boxed
/// slices.
pub proof fn lemma_counted_round_trip<T: RoundTrip>(es: Seq<T>, rest: Seq<u8>)
    requires
        seq_wf(es),
        es.len() < pow2(64),
    ensures
        ({
            let s = (le_bytes(es.len(), 8) + seq_enc(es)) + rest;
            &&& dec_uint(s, 8) == Ok::<(nat, nat), ErrorKind>((es.len(), 8))
            &&& elems_dec::<T>(s.skip(8), es.len()) == Ok::<
                (Seq<<T as DeepView>::V>, nat),
                ErrorKind,
            >((seq_deep(es), seq_enc(es).len()))
        }),
{
    let s = (le_bytes(es.len(), 8) + seq_enc(es)) + rest;
    lemma_le_bytes_len(es.len(), 8);
    lemma2_to64();
    lemma2_to64_rest();
    assert(s.take(8) =~= le_bytes(es.len(), 8));
    lemma_le_val_le_bytes_small(es.len(), 8);
    assert(s.skip(8) =~= seq_enc(es) + rest);
    lemma_elems_round_trip(es, rest);
}

impl<T: RoundTrip> RoundTrip for Vec<T> {
    proof fn lemma_round_trip(&self, rest: Seq<u8>) {
        lemma2_to64();
        lemma2_to64_rest();
        broadcast use vstd::std_specs::vec::axiom_spec_len;
        assert(vstd::std_specs::vec::spec_vec_len(self) == self@.len());
        assert(self@.len() < pow2(64));
        lemma_counted_round_trip(self@, rest);
        assert(self.enc() + rest =~= (le_bytes(self@.len(), 8) + seq_enc(self@)) + rest);
        assert(self.deep_view() =~= seq_deep(self@));
        lemma_le_bytes_len(self@.len(), 8);
    }
}

/// Relies on Vec::into_boxed_slice: the boxed slice holds exactly the
/// vector's elements, in order.
#[verifier::external_body]
fn vec_into_boxed_slice<T>(v: Vec<T>) -> (r: Box<[T]>)
    ensures
        r@ == v@,
{
    v.into_boxed_slice()
}

impl<T: Dump> Dump for Box<[T]> {
    open spec fn wf(&self) -> bool {
        seq_wf(self@)
    }

    open spec fn enc(&self) -> Seq<u8> {
        le_bytes(self@.len(), 8) + seq_enc(self@)
    }

    fn dump(&self, write: &mut Sink) -> (r: Result<(), Error>) {
        let r = write.write_iter(&**self);
        proof {
            assert(final(write)@ =~= old(write)@ + (le_bytes(self@.len(), 8) + seq_enc(self@)));
        }
        r
    }
}

impl<T: Load> Load for Box<[T]> {
    open spec fn dec(s: Seq<u8>) -> Result<(Seq<<T as DeepView>::V>, nat), ErrorKind> {
        <Vec<T> as Load>::dec(s)
    }

    fn load(read: &mut Source) -> (r: Result<Box<[T]>, Error>) {
        match read.load::<Vec<T>>() {
            Ok(v) => {
                let b = vec_into_boxed_slice(v);
                proof {
                    assert(b.deep_view() =~= v.deep_view());
                }
                Ok(b)
            },
            Err(e) => Err(e),
        }
    }
}

impl<T: RoundTrip> RoundTrip for Box<[T]> {
    proof fn lemma_round_trip(&self, rest: Seq<u8>) {
        lemma2_to64();
        lemma2_to64_rest();
        broadcast use vstd::slice::axiom_spec_len;
        assert(vstd::slice::spec_slice_len(&**self) == self@.len());
        assert(self@.len() < pow2(64));
        lemma_counted_round_trip(self@, rest);
        assert(self.enc() + rest =~= (le_bytes(self@.len(), 8) + seq_enc(self@)) + rest);
        assert(self.deep_view() =~= seq_deep(self@));
        lemma_le_bytes_len(self@.len(), 8);
    }
}

} // verus!
