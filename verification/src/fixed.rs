//! Fixed-size groups: arrays of a statically known length and heterogeneous
//! tuples. Both dump their components back to back, in order, with no count
//! and no framing; loading constructs exactly the declared number of
//! components and fails as a whole the moment one component fails, with no
//! partially built value escaping.

use vstd::prelude::*;
use vstd::array::array_index_get;

use crate::err::Error;
use crate::err::ErrorKind;
use crate::composite::lemma_elems_dec_err;
use crate::composite::lemma_elems_dec_step;
use crate::composite::lemma_elems_round_trip;
use crate::composite::seq_deep;
use crate::ext_io::Dump;
use crate::ext_io::Load;
use crate::ext_io::RoundTrip;
use crate::ext_io::elems_dec;
use crate::ext_io::seq_enc;
use crate::ext_io::seq_wf;
use crate::ext_io::lemma_seq_enc_concat;
use crate::stream::Sink;
use crate::stream::Source;

verus! {

/// Relies on the standard conversion from a vector to an array: it succeeds
/// exactly when the vector holds the array's length in elements, which then
/// become the array's elements, in order.
#[verifier::external_body]
fn vec_to_array<T, const N: usize>(v: Vec<T>) -> (r: Option<[T; N]>)
    ensures
        r is Some <==> v@.len() == N,
        r is Some ==> r.unwrap()@ == v@,
{
    v.try_into().ok()
}

impl<T: Dump, const N: usize> Dump for [T; N] {
    open spec fn wf(&self) -> bool {
        seq_wf(self@)
    }

    open spec fn enc(&self) -> Seq<u8> {
        seq_enc(self@)
    }

    fn dump(&self, write: &mut Sink) -> (r: Result<(), Error>) {
        proof {
            broadcast use vstd::array::group_array_axioms;

        }
        let mut i: usize = 0;
        while i < N
            invariant
                i <= N,
                N == self@.len(),
                seq_wf(self@),
                write@ == old(write)@ + seq_enc(self@.take(i as int)),
            decreases N - i,
        {
            let el = array_index_get(self, i);
            let r = el.dump(write);
            proof {
                assert(self@.take(i + 1) =~= self@.take(i as int) + seq![self@[i as int]]);
                lemma_seq_enc_concat(self@.take(i as int), seq![self@[i as int]]);
                let single = seq![self@[i as int]];
                assert(single.drop_first() =~= Seq::<T>::empty());
                assert(seq_enc(single.drop_first()) =~= Seq::<u8>::empty());
                assert(seq_enc(single) =~= self@[i as int].enc());
                assert(write@ =~= old(write)@ + seq_enc(self@.take(i + 1)));
            }
            i = i + 1;
        }
        proof {
            assert(self@.take(N as int) =~= self@);
        }
        Ok(())
    }
}

impl<T: Load, const N: usize> Load for [T; N] {
    open spec fn dec(s: Seq<u8>) -> Result<(Seq<<T as DeepView>::V>, nat), ErrorKind> {
        elems_dec::<T>(s, N as nat)
    }

    fn load(read: &mut Source) -> (r: Result<[T; N], Error>) {
        let ghost rem = old(read).remaining();
        let mut ret: Vec<T> = Vec::new();
        let mut i: usize = 0;
        while i < N
            invariant
                rem == old(read).remaining(),
                read.inv(),
                read.all_data() == old(read).all_data(),
                old(read).cursor() <= read.cursor(),
                i == ret@.len(),
                i <= N,
                elems_dec::<T>(rem, N as nat) == (match elems_dec::<T>(
                    read.remaining(),
                    (N - i) as nat,
                ) {
                    Ok((vs, m)) => Ok::<(Seq<<T as DeepView>::V>, nat), ErrorKind>(
                        (ret.deep_view() + vs, ((read.cursor() - old(read).cursor()) + m) as nat),
                    ),
                    Err(k) => Err::<(Seq<<T as DeepView>::V>, nat), ErrorKind>(k),
                }),
            decreases N - i,
        {
            let ghost pre_rem = read.remaining();
            let ghost pre_deep = ret.deep_view();
            let ghost pre_used = (read.cursor() - old(read).cursor()) as nat;
            match read.load::<T>() {
                Ok(v) => {
                    let ghost n = (read.cursor() - old(read).cursor() - pre_used) as nat;
                    ret.push(v);
                    proof {
                        lemma_elems_dec_step::<T>(pre_rem, (N - i) as nat, v.deep_view(), n);
                        assert(read.remaining() =~= pre_rem.skip(n as int));
                        assert(ret.deep_view() =~= pre_deep + seq![v.deep_view()]);
                        match elems_dec::<T>(read.remaining(), (N - i - 1) as nat) {
                            Ok((vs, m)) => {
                                assert(pre_deep + (seq![v.deep_view()] + vs) =~= ret.deep_view()
                                    + vs);
                            },
                            Err(k) => {},
                        }
                    }
                    i = i + 1;
                },
                Err(e) => {
                    proof {
                        lemma_elems_dec_err::<T>(pre_rem, (N - i) as nat, e.kind);
                    }
                    return Err(e);
                },
            }
        }
        proof {
            assert(elems_dec::<T>(read.remaining(), 0) == Ok::<
                (Seq<<T as DeepView>::V>, nat),
                ErrorKind,
            >((seq![], 0)));
            assert(ret.deep_view() + Seq::<<T as DeepView>::V>::empty() =~= ret.deep_view());
        }
        match vec_to_array::<T, N>(ret) {
            Some(arr) => {
                proof {
                    broadcast use vstd::array::group_array_axioms;

                    assert(arr.deep_view() =~= seq_deep(arr@));
                }
                Ok(arr)
            },
            None => vstd::pervasive::unreached(),
        }
    }
}

impl<T: RoundTrip, const N: usize> RoundTrip for [T; N] {
    proof fn lemma_round_trip(&self, rest: Seq<u8>) {
        broadcast use vstd::array::group_array_axioms;

        lemma_elems_round_trip(self@, rest);
        assert(self.deep_view() =~= seq_deep(self@));
    }
}

} // verus!
