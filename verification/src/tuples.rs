//! Heterogeneous tuples of up to twelve typed slots, dumped and loaded
//! strictly in declaration order with no framing between the slots.

use vstd::prelude::*;

use crate::err::Error;
use crate::err::ErrorKind;
use crate::ext_io::Dump;
use crate::ext_io::Load;
use crate::ext_io::RoundTrip;
use crate::stream::Sink;
use crate::stream::Source;

verus! {

impl Dump for () {
    open spec fn wf(&self) -> bool {
        true
    }

    open spec fn enc(&self) -> Seq<u8> {
        Seq::<u8>::empty()
    }

    fn dump(&self, write: &mut Sink) -> (r: Result<(), Error>) {
        proof {
            assert(final(write)@ =~= old(write)@ + Seq::<u8>::empty());
        }
        Ok(())
    }
}

impl Load for () {
    open spec fn dec(s: Seq<u8>) -> Result<((), nat), ErrorKind> {
        Ok(((), 0))
    }

    fn load(read: &mut Source) -> (r: Result<(), Error>) {
        Ok(())
    }
}

impl RoundTrip for () {
    proof fn lemma_round_trip(&self, rest: Seq<u8>) {
    }
}

impl<A: Dump> Dump for (A,) {
    open spec fn wf(&self) -> bool {
        self.0.wf()
    }

    open spec fn enc(&self) -> Seq<u8> {
        self.0.enc()
    }

    fn dump(&self, write: &mut Sink) -> (r: Result<(), Error>) {
        self.0.dump(write)
    }
}

impl<A: Load> Load for (A,) {
    open spec fn dec(s: Seq<u8>) -> Result<((<A as DeepView>::V,), nat), ErrorKind> {
        match A::dec(s) {
            Ok((da, n)) => Ok(((da,), n)),
            Err(k) => Err(k),
        }
    }

    fn load(read: &mut Source) -> (r: Result<(A,), Error>) {
        match read.load::<A>() {
            Ok(a) => Ok((a,)),
            Err(e) => Err(e),
        }
    }
}

impl<A: RoundTrip> RoundTrip for (A,) {
    proof fn lemma_round_trip(&self, rest: Seq<u8>) {
        self.0.lemma_round_trip(rest);
    }
}

impl<A: Dump, B: Dump> Dump for (A, B) {
    open spec fn wf(&self) -> bool {
        self.0.wf() && self.1.wf()
    }

    open spec fn enc(&self) -> Seq<u8> {
        self.0.enc() + self.1.enc()
    }

    fn dump(&self, write: &mut Sink) -> (r: Result<(), Error>) {
        let _ = self.0.dump(write);
        let r1 = self.1.dump(write);
        proof {
            assert(final(write)@ =~= old(write)@ + (self.0.enc() + self.1.enc()));
        }
        r1
    }
}

impl<A: Load, B: Load> Load for (A, B) {
    open spec fn dec(s: Seq<u8>) -> Result<((<A as DeepView>::V, <B as DeepView>::V), nat), ErrorKind> {
        match A::dec(s) {
            Err(k) => Err(k),
            Ok((d0, n0)) => {
            match B::dec(s.skip(n0 as int)) {
                Err(k) => Err(k),
                Ok((d1, n1)) => {
                Ok(((d0, d1), (n0 + n1) as nat))
                },
            }
            },
        }
    }

    fn load(read: &mut Source) -> (r: Result<(A, B), Error>) {
        let ghost rem = old(read).remaining();
        let x0 = match read.load::<A>() {
            Ok(v) => v,
            Err(e) => {
                return Err(e);
            },
        };
        proof {
            assert(read.remaining() =~= rem.skip((read.cursor() - old(read).cursor()) as int));
        }
        let x1 = match read.load::<B>() {
            Ok(v) => v,
            Err(e) => {
                return Err(e);
            },
        };
        Ok((x0, x1))
    }
}

impl<A: RoundTrip, B: RoundTrip> RoundTrip for (A, B) {
    proof fn lemma_round_trip(&self, rest: Seq<u8>) {
        let t1 = self.1.enc() + rest;
        assert(self.enc() + rest =~= self.0.enc() + t1);
        self.0.lemma_round_trip(t1);
        assert((self.0.enc() + t1).skip(self.0.enc().len() as int) =~= t1);
        assert((self.enc() + rest).skip(self.0.enc().len() as int) =~= t1);
        self.1.lemma_round_trip(rest);
    }
}

impl<A: Dump, B: Dump, C: Dump> Dump for (A, B, C) {
    open spec fn wf(&self) -> bool {
        self.0.wf() && self.1.wf() && self.2.wf()
    }

    open spec fn enc(&self) -> Seq<u8> {
        self.0.enc() + self.1.enc() + self.2.enc()
    }

    fn dump(&self, write: &mut Sink) -> (r: Result<(), Error>) {
        let _ = self.0.dump(write);
        let _ = self.1.dump(write);
        let r2 = self.2.dump(write);
        proof {
            assert(final(write)@ =~= old(write)@ + (self.0.enc() + self.1.enc() + self.2.enc()));
        }
        r2
    }
}

impl<A: Load, B: Load, C: Load> Load for (A, B, C) {
    open spec fn dec(s: Seq<u8>) -> Result<((<A as DeepView>::V, <B as DeepView>::V, <C as DeepView>::V), nat), ErrorKind> {
        match A::dec(s) {
            Err(k) => Err(k),
            Ok((d0, n0)) => {
            match B::dec(s.skip(n0 as int)) {
                Err(k) => Err(k),
                Ok((d1, n1)) => {
                match C::dec(s.skip(n0 as int + n1 as int)) {
                    Err(k) => Err(k),
                    Ok((d2, n2)) => {
                    Ok(((d0, d1, d2), (n0 + n1 + n2) as nat))
                    },
                }
                },
            }
            },
        }
    }

    fn load(read: &mut Source) -> (r: Result<(A, B, C), Error>) {
        let ghost rem = old(read).remaining();
        let x0 = match read.load::<A>() {
            Ok(v) => v,
            Err(e) => {
                return Err(e);
            },
        };
        proof {
            assert(read.remaining() =~= rem.skip((read.cursor() - old(read).cursor()) as int));
        }
        let x1 = match read.load::<B>() {
            Ok(v) => v,
            Err(e) => {
                return Err(e);
            },
        };
        proof {
            assert(read.remaining() =~= rem.skip((read.cursor() - old(read).cursor()) as int));
        }
        let x2 = match read.load::<C>() {
            Ok(v) => v,
            Err(e) => {
                return Err(e);
            },
        };
        Ok((x0, x1, x2))
    }
}

impl<A: RoundTrip, B: RoundTrip, C: RoundTrip> RoundTrip for (A, B, C) {
    proof fn lemma_round_trip(&self, rest: Seq<u8>) {
        let t2 = self.2.enc() + rest;
        let t1 = self.1.enc() + t2;
        assert(self.enc() + rest =~= self.0.enc() + t1);
        self.0.lemma_round_trip(t1);
        assert((self.0.enc() + t1).skip(self.0.enc().len() as int) =~= t1);
        assert((self.enc() + rest).skip(self.0.enc().len() as int) =~= t1);
        self.1.lemma_round_trip(t2);
        assert(t1.skip(self.1.enc().len() as int) =~= t2);
        assert((self.enc() + rest).skip(self.0.enc().len() as int + self.1.enc().len() as int) =~= t2);
        self.2.lemma_round_trip(rest);
    }
}

impl<A: Dump, B: Dump, C: Dump, D: Dump> Dump for (A, B, C, D) {
    open spec fn wf(&self) -> bool {
        self.0.wf() && self.1.wf() && self.2.wf() && self.3.wf()
    }

    open spec fn enc(&self) -> Seq<u8> {
        self.0.enc() + self.1.enc() + self.2.enc() + self.3.enc()
    }

    fn dump(&self, write: &mut Sink) -> (r: Result<(), Error>) {
        let _ = self.0.dump(write);
        let _ = self.1.dump(write);
        let _ = self.2.dump(write);
        let r3 = self.3.dump(write);
        proof {
            assert(final(write)@ =~= old(write)@ + (self.0.enc() + self.1.enc() + self.2.enc() + self.3.enc()));
        }
        r3
    }
}

impl<A: Load, B: Load, C: Load, D: Load> Load for (A, B, C, D) {
    open spec fn dec(s: Seq<u8>) -> Result<((<A as DeepView>::V, <B as DeepView>::V, <C as DeepView>::V, <D as DeepView>::V), nat), ErrorKind> {
        match A::dec(s) {
            Err(k) => Err(k),
            Ok((d0, n0)) => {
            match B::dec(s.skip(n0 as int)) {
                Err(k) => Err(k),
                Ok((d1, n1)) => {
                match C::dec(s.skip(n0 as int + n1 as int)) {
                    Err(k) => Err(k),
                    Ok((d2, n2)) => {
                    match D::dec(s.skip(n0 as int + n1 as int + n2 as int)) {
                        Err(k) => Err(k),
                        Ok((d3, n3)) => {
                        Ok(((d0, d1, d2, d3), (n0 + n1 + n2 + n3) as nat))
                        },
                    }
                    },
                }
                },
            }
            },
        }
    }

    fn load(read: &mut Source) -> (r: Result<(A, B, C, D), Error>) {
        let ghost rem = old(read).remaining();
        let x0 = match read.load::<A>() {
            Ok(v) => v,
            Err(e) => {
                return Err(e);
            },
        };
        proof {
            assert(read.remaining() =~= rem.skip((read.cursor() - old(read).cursor()) as int));
        }
        let x1 = match read.load::<B>() {
            Ok(v) => v,
            Err(e) => {
                return Err(e);
            },
        };
        proof {
            assert(read.remaining() =~= rem.skip((read.cursor() - old(read).cursor()) as int));
        }
        let x2 = match read.load::<C>() {
            Ok(v) => v,
            Err(e) => {
                return Err(e);
            },
        };
        proof {
            assert(read.remaining() =~= rem.skip((read.cursor() - old(read).cursor()) as int));
        }
        let x3 = match read.load::<D>() {
            Ok(v) => v,
            Err(e) => {
                return Err(e);
            },
        };
        Ok((x0, x1, x2, x3))
    }
}

impl<A: RoundTrip, B: RoundTrip, C: RoundTrip, D: RoundTrip> RoundTrip for (A, B, C, D) {
    proof fn lemma_round_trip(&self, rest: Seq<u8>) {
        let t3 = self.3.enc() + rest;
        let t2 = self.2.enc() + t3;
        let t1 = self.1.enc() + t2;
        assert(self.enc() + rest =~= self.0.enc() + t1);
        self.0.lemma_round_trip(t1);
        assert((self.0.enc() + t1).skip(self.0.enc().len() as int) =~= t1);
        assert((self.enc() + rest).skip(self.0.enc().len() as int) =~= t1);
        self.1.lemma_round_trip(t2);
        assert(t1.skip(self.1.enc().len() as int) =~= t2);
        assert((self.enc() + rest).skip(self.0.enc().len() as int + self.1.enc().len() as int) =~= t2);
        self.2.lemma_round_trip(t3);
        assert(t2.skip(self.2.enc().len() as int) =~= t3);
        assert((self.enc() + rest).skip(self.0.enc().len() as int + self.1.enc().len() as int + self.2.enc().len() as int) =~= t3);
        self.3.lemma_round_trip(rest);
    }
}

impl<A: Dump, B: Dump, C: Dump, D: Dump, E: Dump> Dump for (A, B, C, D, E) {
    open spec fn wf(&self) -> bool {
        self.0.wf() && self.1.wf() && self.2.wf() && self.3.wf() && self.4.wf()
    }

    open spec fn enc(&self) -> Seq<u8> {
        self.0.enc() + self.1.enc() + self.2.enc() + self.3.enc() + self.4.enc()
    }

    fn dump(&self, write: &mut Sink) -> (r: Result<(), Error>) {
        let _ = self.0.dump(write);
        let _ = self.1.dump(write);
        let _ = self.2.dump(write);
        let _ = self.3.dump(write);
        let r4 = self.4.dump(write);
        proof {
            assert(final(write)@ =~= old(write)@ + (self.0.enc() + self.1.enc() + self.2.enc() + self.3.enc() + self.4.enc()));
        }
        r4
    }
}

impl<A: Load, B: Load, C: Load, D: Load, E: Load> Load for (A, B, C, D, E) {
    open spec fn dec(s: Seq<u8>) -> Result<((<A as DeepView>::V, <B as DeepView>::V, <C as DeepView>::V, <D as DeepView>::V, <E as DeepView>::V), nat), ErrorKind> {
        match A::dec(s) {
            Err(k) => Err(k),
            Ok((d0, n0)) => {
            match B::dec(s.skip(n0 as int)) {
                Err(k) => Err(k),
                Ok((d1, n1)) => {
                match C::dec(s.skip(n0 as int + n1 as int)) {
                    Err(k) => Err(k),
                    Ok((d2, n2)) => {
                    match D::dec(s.skip(n0 as int + n1 as int + n2 as int)) {
                        Err(k) => Err(k),
                        Ok((d3, n3)) => {
                        match E::dec(s.skip(n0 as int + n1 as int + n2 as int + n3 as int)) {
                            Err(k) => Err(k),
                            Ok((d4, n4)) => {
                            Ok(((d0, d1, d2, d3, d4), (n0 + n1 + n2 + n3 + n4) as nat))
                            },
                        }
                        },
                    }
                    },
                }
                },
            }
            },
        }
    }

    fn load(read: &mut Source) -> (r: Result<(A, B, C, D, E), Error>) {
        let ghost rem = old(read).remaining();
        let x0 = match read.load::<A>() {
            Ok(v) => v,
            Err(e) => {
                return Err(e);
            },
        };
        proof {
            assert(read.remaining() =~= rem.skip((read.cursor() - old(read).cursor()) as int));
        }
        let x1 = match read.load::<B>() {
            Ok(v) => v,
            Err(e) => {
                return Err(e);
            },
        };
        proof {
            assert(read.remaining() =~= rem.skip((read.cursor() - old(read).cursor()) as int));
        }
        let x2 = match read.load::<C>() {
            Ok(v) => v,
            Err(e) => {
                return Err(e);
            },
        };
        proof {
            assert(read.remaining() =~= rem.skip((read.cursor() - old(read).cursor()) as int));
        }
        let x3 = match read.load::<D>() {
            Ok(v) => v,
            Err(e) => {
                return Err(e);
            },
        };
        proof {
            assert(read.remaining() =~= rem.skip((read.cursor() - old(read).cursor()) as int));
        }
        let x4 = match read.load::<E>() {
            Ok(v) => v,
            Err(e) => {
                return Err(e);
            },
        };
        Ok((x0, x1, x2, x3, x4))
    }
}

impl<A: RoundTrip, B: RoundTrip, C: RoundTrip, D: RoundTrip, E: RoundTrip> RoundTrip for (A, B, C, D, E) {
    proof fn lemma_round_trip(&self, rest: Seq<u8>) {
        let t4 = self.4.enc() + rest;
        let t3 = self.3.enc() + t4;
        let t2 = self.2.enc() + t3;
        let t1 = self.1.enc() + t2;
        assert(self.enc() + rest =~= self.0.enc() + t1);
        self.0.lemma_round_trip(t1);
        assert((self.0.enc() + t1).skip(self.0.enc().len() as int) =~= t1);
        assert((self.enc() + rest).skip(self.0.enc().len() as int) =~= t1);
        self.1.lemma_round_trip(t2);
        assert(t1.skip(self.1.enc().len() as int) =~= t2);
        assert((self.enc() + rest).skip(self.0.enc().len() as int + self.1.enc().len() as int) =~= t2);
        self.2.lemma_round_trip(t3);
        assert(t2.skip(self.2.enc().len() as int) =~= t3);
        assert((self.enc() + rest).skip(self.0.enc().len() as int + self.1.enc().len() as int + self.2.enc().len() as int) =~= t3);
        self.3.lemma_round_trip(t4);
        assert(t3.skip(self.3.enc().len() as int) =~= t4);
        assert((self.enc() + rest).skip(self.0.enc().len() as int + self.1.enc().len() as int + self.2.enc().len() as int + self.3.enc().len() as int) =~= t4);
        self.4.lemma_round_trip(rest);
    }
}

impl<A: Dump, B: Dump, C: Dump, D: Dump, E: Dump, F: Dump> Dump for (A, B, C, D, E, F) {
    open spec fn wf(&self) -> bool {
        self.0.wf() && self.1.wf() && self.2.wf() && self.3.wf() && self.4.wf() && self.5.wf()
    }

    open spec fn enc(&self) -> Seq<u8> {
        self.0.enc() + self.1.enc() + self.2.enc() + self.3.enc() + self.4.enc() + self.5.enc()
    }

    fn dump(&self, write: &mut Sink) -> (r: Result<(), Error>) {
        let _ = self.0.dump(write);
        let _ = self.1.dump(write);
        let _ = self.2.dump(write);
        let _ = self.3.dump(write);
        let _ = self.4.dump(write);
        let r5 = self.5.dump(write);
        proof {
            assert(final(write)@ =~= old(write)@ + (self.0.enc() + self.1.enc() + self.2.enc() + self.3.enc() + self.4.enc() + self.5.enc()));
        }
        r5
    }
}

impl<A: Load, B: Load, C: Load, D: Load, E: Load, F: Load> Load for (A, B, C, D, E, F) {
    open spec fn dec(s: Seq<u8>) -> Result<((<A as DeepView>::V, <B as DeepView>::V, <C as DeepView>::V, <D as DeepView>::V, <E as DeepView>::V, <F as DeepView>::V), nat), ErrorKind> {
        match A::dec(s) {
            Err(k) => Err(k),
            Ok((d0, n0)) => {
            match B::dec(s.skip(n0 as int)) {
                Err(k) => Err(k),
                Ok((d1, n1)) => {
                match C::dec(s.skip(n0 as int + n1 as int)) {
                    Err(k) => Err(k),
                    Ok((d2, n2)) => {
                    match D::dec(s.skip(n0 as int + n1 as int + n2 as int)) {
                        Err(k) => Err(k),
                        Ok((d3, n3)) => {
                        match E::dec(s.skip(n0 as int + n1 as int + n2 as int + n3 as int)) {
                            Err(k) => Err(k),
                            Ok((d4, n4)) => {
                            match F::dec(s.skip(n0 as int + n1 as int + n2 as int + n3 as int + n4 as int)) {
                                Err(k) => Err(k),
                                Ok((d5, n5)) => {
                                Ok(((d0, d1, d2, d3, d4, d5), (n0 + n1 + n2 + n3 + n4 + n5) as nat))
                                },
                            }
                            },
                        }
                        },
                    }
                    },
                }
                },
            }
            },
        }
    }

    fn load(read: &mut Source) -> (r: Result<(A, B, C, D, E, F), Error>) {
        let ghost rem = old(read).remaining();
        let x0 = match read.load::<A>() {
            Ok(v) => v,
            Err(e) => {
                return Err(e);
            },
        };
        proof {
            assert(read.remaining() =~= rem.skip((read.cursor() - old(read).cursor()) as int));
        }
        let x1 = match read.load::<B>() {
            Ok(v) => v,
            Err(e) => {
                return Err(e);
            },
        };
        proof {
            assert(read.remaining() =~= rem.skip((read.cursor() - old(read).cursor()) as int));
        }
        let x2 = match read.load::<C>() {
            Ok(v) => v,
            Err(e) => {
                return Err(e);
            },
        };
        proof {
            assert(read.remaining() =~= rem.skip((read.cursor() - old(read).cursor()) as int));
        }
        let x3 = match read.load::<D>() {
            Ok(v) => v,
            Err(e) => {
                return Err(e);
            },
        };
        proof {
            assert(read.remaining() =~= rem.skip((read.cursor() - old(read).cursor()) as int));
        }
        let x4 = match read.load::<E>() {
            Ok(v) => v,
            Err(e) => {
                return Err(e);
            },
        };
        proof {
            assert(read.remaining() =~= rem.skip((read.cursor() - old(read).cursor()) as int));
        }
        let x5 = match read.load::<F>() {
            Ok(v) => v,
            Err(e) => {
                return Err(e);
            },
        };
        Ok((x0, x1, x2, x3, x4, x5))
    }
}

impl<A: RoundTrip, B: RoundTrip, C: RoundTrip, D: RoundTrip, E: RoundTrip, F: RoundTrip> RoundTrip for (A, B, C, D, E, F) {
    proof fn lemma_round_trip(&self, rest: Seq<u8>) {
        let t5 = self.5.enc() + rest;
        let t4 = self.4.enc() + t5;
        let t3 = self.3.enc() + t4;
        let t2 = self.2.enc() + t3;
        let t1 = self.1.enc() + t2;
        assert(self.enc() + rest =~= self.0.enc() + t1);
        self.0.lemma_round_trip(t1);
        assert((self.0.enc() + t1).skip(self.0.enc().len() as int) =~= t1);
        assert((self.enc() + rest).skip(self.0.enc().len() as int) =~= t1);
        self.1.lemma_round_trip(t2);
        assert(t1.skip(self.1.enc().len() as int) =~= t2);
        assert((self.enc() + rest).skip(self.0.enc().len() as int + self.1.enc().len() as int) =~= t2);
        self.2.lemma_round_trip(t3);
        assert(t2.skip(self.2.enc().len() as int) =~= t3);
        assert((self.enc() + rest).skip(self.0.enc().len() as int + self.1.enc().len() as int + self.2.enc().len() as int) =~= t3);
        self.3.lemma_round_trip(t4);
        assert(t3.skip(self.3.enc().len() as int) =~= t4);
        assert((self.enc() + rest).skip(self.0.enc().len() as int + self.1.enc().len() as int + self.2.enc().len() as int + self.3.enc().len() as int) =~= t4);
        self.4.lemma_round_trip(t5);
        assert(t4.skip(self.4.enc().len() as int) =~= t5);
        assert((self.enc() + rest).skip(self.0.enc().len() as int + self.1.enc().len() as int + self.2.enc().len() as int + self.3.enc().len() as int + self.4.enc().len() as int) =~= t5);
        self.5.lemma_round_trip(rest);
    }
}

impl<A: Dump, B: Dump, C: Dump, D: Dump, E: Dump, F: Dump, G: Dump> Dump for (A, B, C, D, E, F, G) {
    open spec fn wf(&self) -> bool {
        self.0.wf() && self.1.wf() && self.2.wf() && self.3.wf() && self.4.wf() && self.5.wf() && self.6.wf()
    }

    open spec fn enc(&self) -> Seq<u8> {
        self.0.enc() + self.1.enc() + self.2.enc() + self.3.enc() + self.4.enc() + self.5.enc() + self.6.enc()
    }

    fn dump(&self, write: &mut Sink) -> (r: Result<(), Error>) {
        let _ = self.0.dump(write);
        let _ = self.1.dump(write);
        let _ = self.2.dump(write);
        let _ = self.3.dump(write);
        let _ = self.4.dump(write);
        let _ = self.5.dump(write);
        let r6 = self.6.dump(write);
        proof {
            assert(final(write)@ =~= old(write)@ + (self.0.enc() + self.1.enc() + self.2.enc() + self.3.enc() + self.4.enc() + self.5.enc() + self.6.enc()));
        }
        r6
    }
}

impl<A: Load, B: Load, C: Load, D: Load, E: Load, F: Load, G: Load> Load for (A, B, C, D, E, F, G) {
    open spec fn dec(s: Seq<u8>) -> Result<((<A as DeepView>::V, <B as DeepView>::V, <C as DeepView>::V, <D as DeepView>::V, <E as DeepView>::V, <F as DeepView>::V, <G as DeepView>::V), nat), ErrorKind> {
        match A::dec(s) {
            Err(k) => Err(k),
            Ok((d0, n0)) => {
            match B::dec(s.skip(n0 as int)) {
                Err(k) => Err(k),
                Ok((d1, n1)) => {
                match C::dec(s.skip(n0 as int + n1 as int)) {
                    Err(k) => Err(k),
                    Ok((d2, n2)) => {
                    match D::dec(s.skip(n0 as int + n1 as int + n2 as int)) {
                        Err(k) => Err(k),
                        Ok((d3, n3)) => {
                        match E::dec(s.skip(n0 as int + n1 as int + n2 as int + n3 as int)) {
                            Err(k) => Err(k),
                            Ok((d4, n4)) => {
                            match F::dec(s.skip(n0 as int + n1 as int + n2 as int + n3 as int + n4 as int)) {
                                Err(k) => Err(k),
                                Ok((d5, n5)) => {
                                match G::dec(s.skip(n0 as int + n1 as int + n2 as int + n3 as int + n4 as int + n5 as int)) {
                                    Err(k) => Err(k),
                                    Ok((d6, n6)) => {
                                    Ok(((d0, d1, d2, d3, d4, d5, d6), (n0 + n1 + n2 + n3 + n4 + n5 + n6) as nat))
                                    },
                                }
                                },
                            }
                            },
                        }
                        },
                    }
                    },
                }
                },
            }
            },
        }
    }

    fn load(read: &mut Source) -> (r: Result<(A, B, C, D, E, F, G), Error>) {
        let ghost rem = old(read).remaining();
        let x0 = match read.load::<A>() {
            Ok(v) => v,
            Err(e) => {
                return Err(e);
            },
        };
        proof {
            assert(read.remaining() =~= rem.skip((read.cursor() - old(read).cursor()) as int));
        }
        let x1 = match read.load::<B>() {
            Ok(v) => v,
            Err(e) => {
                return Err(e);
            },
        };
        proof {
            assert(read.remaining() =~= rem.skip((read.cursor() - old(read).cursor()) as int));
        }
        let x2 = match read.load::<C>() {
            Ok(v) => v,
            Err(e) => {
                return Err(e);
            },
        };
        proof {
            assert(read.remaining() =~= rem.skip((read.cursor() - old(read).cursor()) as int));
        }
        let x3 = match read.load::<D>() {
            Ok(v) => v,
            Err(e) => {
                return Err(e);
            },
        };
        proof {
            assert(read.remaining() =~= rem.skip((read.cursor() - old(read).cursor()) as int));
        }
        let x4 = match read.load::<E>() {
            Ok(v) => v,
            Err(e) => {
                return Err(e);
            },
        };
        proof {
            assert(read.remaining() =~= rem.skip((read.cursor() - old(read).cursor()) as int));
        }
        let x5 = match read.load::<F>() {
            Ok(v) => v,
            Err(e) => {
                return Err(e);
            },
        };
        proof {
            assert(read.remaining() =~= rem.skip((read.cursor() - old(read).cursor()) as int));
        }
        let x6 = match read.load::<G>() {
            Ok(v) => v,
            Err(e) => {
                return Err(e);
            },
        };
        Ok((x0, x1, x2, x3, x4, x5, x6))
    }
}

impl<A: RoundTrip, B: RoundTrip, C: RoundTrip, D: RoundTrip, E: RoundTrip, F: RoundTrip, G: RoundTrip> RoundTrip for (A, B, C, D, E, F, G) {
    proof fn lemma_round_trip(&self, rest: Seq<u8>) {
        let t6 = self.6.enc() + rest;
        let t5 = self.5.enc() + t6;
        let t4 = self.4.enc() + t5;
        let t3 = self.3.enc() + t4;
        let t2 = self.2.enc() + t3;
        let t1 = self.1.enc() + t2;
        assert(self.enc() + rest =~= self.0.enc() + t1);
        self.0.lemma_round_trip(t1);
        assert((self.0.enc() + t1).skip(self.0.enc().len() as int) =~= t1);
        assert((self.enc() + rest).skip(self.0.enc().len() as int) =~= t1);
        self.1.lemma_round_trip(t2);
        assert(t1.skip(self.1.enc().len() as int) =~= t2);
        assert((self.enc() + rest).skip(self.0.enc().len() as int + self.1.enc().len() as int) =~= t2);
        self.2.lemma_round_trip(t3);
        assert(t2.skip(self.2.enc().len() as int) =~= t3);
        assert((self.enc() + rest).skip(self.0.enc().len() as int + self.1.enc().len() as int + self.2.enc().len() as int) =~= t3);
        self.3.lemma_round_trip(t4);
        assert(t3.skip(self.3.enc().len() as int) =~= t4);
        assert((self.enc() + rest).skip(self.0.enc().len() as int + self.1.enc().len() as int + self.2.enc().len() as int + self.3.enc().len() as int) =~= t4);
        self.4.lemma_round_trip(t5);
        assert(t4.skip(self.4.enc().len() as int) =~= t5);
        assert((self.enc() + rest).skip(self.0.enc().len() as int + self.1.enc().len() as int + self.2.enc().len() as int + self.3.enc().len() as int + self.4.enc().len() as int) =~= t5);
        self.5.lemma_round_trip(t6);
        assert(t5.skip(self.5.enc().len() as int) =~= t6);
        assert((self.enc() + rest).skip(self.0.enc().len() as int + self.1.enc().len() as int + self.2.enc().len() as int + self.3.enc().len() as int + self.4.enc().len() as int + self.5.enc().len() as int) =~= t6);
        self.6.lemma_round_trip(rest);
    }
}

impl<A: Dump, B: Dump, C: Dump, D: Dump, E: Dump, F: Dump, G: Dump, H: Dump> Dump for (A, B, C, D, E, F, G, H) {
    open spec fn wf(&self) -> bool {
        self.0.wf() && self.1.wf() && self.2.wf() && self.3.wf() && self.4.wf() && self.5.wf() && self.6.wf() && self.7.wf()
    }

    open spec fn enc(&self) -> Seq<u8> {
        self.0.enc() + self.1.enc() + self.2.enc() + self.3.enc() + self.4.enc() + self.5.enc() + self.6.enc() + self.7.enc()
    }

    fn dump(&self, write: &mut Sink) -> (r: Result<(), Error>) {
        let _ = self.0.dump(write);
        let _ = self.1.dump(write);
        let _ = self.2.dump(write);
        let _ = self.3.dump(write);
        let _ = self.4.dump(write);
        let _ = self.5.dump(write);
        let _ = self.6.dump(write);
        let r7 = self.7.dump(write);
        proof {
            assert(final(write)@ =~= old(write)@ + (self.0.enc() + self.1.enc() + self.2.enc() + self.3.enc() + self.4.enc() + self.5.enc() + self.6.enc() + self.7.enc()));
        }
        r7
    }
}

impl<A: Load, B: Load, C: Load, D: Load, E: Load, F: Load, G: Load, H: Load> Load for (A, B, C, D, E, F, G, H) {
    open spec fn dec(s: Seq<u8>) -> Result<((<A as DeepView>::V, <B as DeepView>::V, <C as DeepView>::V, <D as DeepView>::V, <E as DeepView>::V, <F as DeepView>::V, <G as DeepView>::V, <H as DeepView>::V), nat), ErrorKind> {
        match A::dec(s) {
            Err(k) => Err(k),
            Ok((d0, n0)) => {
            match B::dec(s.skip(n0 as int)) {
                Err(k) => Err(k),
                Ok((d1, n1)) => {
                match C::dec(s.skip(n0 as int + n1 as int)) {
                    Err(k) => Err(k),
                    Ok((d2, n2)) => {
                    match D::dec(s.skip(n0 as int + n1 as int + n2 as int)) {
                        Err(k) => Err(k),
                        Ok((d3, n3)) => {
                        match E::dec(s.skip(n0 as int + n1 as int + n2 as int + n3 as int)) {
                            Err(k) => Err(k),
                            Ok((d4, n4)) => {
                            match F::dec(s.skip(n0 as int + n1 as int + n2 as int + n3 as int + n4 as int)) {
                                Err(k) => Err(k),
                                Ok((d5, n5)) => {
                                match G::dec(s.skip(n0 as int + n1 as int + n2 as int + n3 as int + n4 as int + n5 as int)) {
                                    Err(k) => Err(k),
                                    Ok((d6, n6)) => {
                                    match H::dec(s.skip(n0 as int + n1 as int + n2 as int + n3 as int + n4 as int + n5 as int + n6 as int)) {
                                        Err(k) => Err(k),
                                        Ok((d7, n7)) => {
                                        Ok(((d0, d1, d2, d3, d4, d5, d6, d7), (n0 + n1 + n2 + n3 + n4 + n5 + n6 + n7) as nat))
                                        },
                                    }
                                    },
                                }
                                },
                            }
                            },
                        }
                        },
                    }
                    },
                }
                },
            }
            },
        }
    }

    fn load(read: &mut Source) -> (r: Result<(A, B, C, D, E, F, G, H), Error>) {
        let ghost rem = old(read).remaining();
        let x0 = match read.load::<A>() {
            Ok(v) => v,
            Err(e) => {
                return Err(e);
            },
        };
        proof {
            assert(read.remaining() =~= rem.skip((read.cursor() - old(read).cursor()) as int));
        }
        let x1 = match read.load::<B>() {
            Ok(v) => v,
            Err(e) => {
                return Err(e);
            },
        };
        proof {
            assert(read.remaining() =~= rem.skip((read.cursor() - old(read).cursor()) as int));
        }
        let x2 = match read.load::<C>() {
            Ok(v) => v,
            Err(e) => {
                return Err(e);
            },
        };
        proof {
            assert(read.remaining() =~= rem.skip((read.cursor() - old(read).cursor()) as int));
        }
        let x3 = match read.load::<D>() {
            Ok(v) => v,
            Err(e) => {
                return Err(e);
            },
        };
        proof {
            assert(read.remaining() =~= rem.skip((read.cursor() - old(read).cursor()) as int));
        }
        let x4 = match read.load::<E>() {
            Ok(v) => v,
            Err(e) => {
                return Err(e);
            },
        };
        proof {
            assert(read.remaining() =~= rem.skip((read.cursor() - old(read).cursor()) as int));
        }
        let x5 = match read.load::<F>() {
            Ok(v) => v,
            Err(e) => {
                return Err(e);
            },
        };
        proof {
            assert(read.remaining() =~= rem.skip((read.cursor() - old(read).cursor()) as int));
        }
        let x6 = match read.load::<G>() {
            Ok(v) => v,
            Err(e) => {
                return Err(e);
            },
        };
        proof {
            assert(read.remaining() =~= rem.skip((read.cursor() - old(read).cursor()) as int));
        }
        let x7 = match read.load::<H>() {
            Ok(v) => v,
            Err(e) => {
                return Err(e);
            },
        };
        Ok((x0, x1, x2, x3, x4, x5, x6, x7))
    }
}

impl<A: RoundTrip, B: RoundTrip, C: RoundTrip, D: RoundTrip, E: RoundTrip, F: RoundTrip, G: RoundTrip, H: RoundTrip> RoundTrip for (A, B, C, D, E, F, G, H) {
    #[verifier::rlimit(60)]
    proof fn lemma_round_trip(&self, rest: Seq<u8>) {
        let t7 = self.7.enc() + rest;
        let t6 = self.6.enc() + t7;
        let t5 = self.5.enc() + t6;
        let t4 = self.4.enc() + t5;
        let t3 = self.3.enc() + t4;
        let t2 = self.2.enc() + t3;
        let t1 = self.1.enc() + t2;
        assert(self.enc() + rest =~= self.0.enc() + t1);
        self.0.lemma_round_trip(t1);
        assert((self.0.enc() + t1).skip(self.0.enc().len() as int) =~= t1);
        assert((self.enc() + rest).skip(self.0.enc().len() as int) =~= t1);
        self.1.lemma_round_trip(t2);
        assert(t1.skip(self.1.enc().len() as int) =~= t2);
        assert((self.enc() + rest).skip(self.0.enc().len() as int + self.1.enc().len() as int) =~= t2);
        self.2.lemma_round_trip(t3);
        assert(t2.skip(self.2.enc().len() as int) =~= t3);
        assert((self.enc() + rest).skip(self.0.enc().len() as int + self.1.enc().len() as int + self.2.enc().len() as int) =~= t3);
        self.3.lemma_round_trip(t4);
        assert(t3.skip(self.3.enc().len() as int) =~= t4);
        assert((self.enc() + rest).skip(self.0.enc().len() as int + self.1.enc().len() as int + self.2.enc().len() as int + self.3.enc().len() as int) =~= t4);
        self.4.lemma_round_trip(t5);
        assert(t4.skip(self.4.enc().len() as int) =~= t5);
        assert((self.enc() + rest).skip(self.0.enc().len() as int + self.1.enc().len() as int + self.2.enc().len() as int + self.3.enc().len() as int + self.4.enc().len() as int) =~= t5);
        self.5.lemma_round_trip(t6);
        assert(t5.skip(self.5.enc().len() as int) =~= t6);
        assert((self.enc() + rest).skip(self.0.enc().len() as int + self.1.enc().len() as int + self.2.enc().len() as int + self.3.enc().len() as int + self.4.enc().len() as int + self.5.enc().len() as int) =~= t6);
        self.6.lemma_round_trip(t7);
        assert(t6.skip(self.6.enc().len() as int) =~= t7);
        assert((self.enc() + rest).skip(self.0.enc().len() as int + self.1.enc().len() as int + self.2.enc().len() as int + self.3.enc().len() as int + self.4.enc().len() as int + self.5.enc().len() as int + self.6.enc().len() as int) =~= t7);
        self.7.lemma_round_trip(rest);
    }
}

impl<A: Dump, B: Dump, C: Dump, D: Dump, E: Dump, F: Dump, G: Dump, H: Dump, I: Dump> Dump for (A, B, C, D, E, F, G, H, I) {
    open spec fn wf(&self) -> bool {
        self.0.wf() && self.1.wf() && self.2.wf() && self.3.wf() && self.4.wf() && self.5.wf() && self.6.wf() && self.7.wf() && self.8.wf()
    }

    open spec fn enc(&self) -> Seq<u8> {
        self.0.enc() + self.1.enc() + self.2.enc() + self.3.enc() + self.4.enc() + self.5.enc() + self.6.enc() + self.7.enc() + self.8.enc()
    }

    fn dump(&self, write: &mut Sink) -> (r: Result<(), Error>) {
        let _ = self.0.dump(write);
        let _ = self.1.dump(write);
        let _ = self.2.dump(write);
        let _ = self.3.dump(write);
        let _ = self.4.dump(write);
        let _ = self.5.dump(write);
        let _ = self.6.dump(write);
        let _ = self.7.dump(write);
        let r8 = self.8.dump(write);
        proof {
            assert(final(write)@ =~= old(write)@ + (self.0.enc() + self.1.enc() + self.2.enc() + self.3.enc() + self.4.enc() + self.5.enc() + self.6.enc() + self.7.enc() + self.8.enc()));
        }
        r8
    }
}

impl<A: Load, B: Load, C: Load, D: Load, E: Load, F: Load, G: Load, H: Load, I: Load> Load for (A, B, C, D, E, F, G, H, I) {
    open spec fn dec(s: Seq<u8>) -> Result<((<A as DeepView>::V, <B as DeepView>::V, <C as DeepView>::V, <D as DeepView>::V, <E as DeepView>::V, <F as DeepView>::V, <G as DeepView>::V, <H as DeepView>::V, <I as DeepView>::V), nat), ErrorKind> {
        match A::dec(s) {
            Err(k) => Err(k),
            Ok((d0, n0)) => {
            match B::dec(s.skip(n0 as int)) {
                Err(k) => Err(k),
                Ok((d1, n1)) => {
                match C::dec(s.skip(n0 as int + n1 as int)) {
                    Err(k) => Err(k),
                    Ok((d2, n2)) => {
                    match D::dec(s.skip(n0 as int + n1 as int + n2 as int)) {
                        Err(k) => Err(k),
                        Ok((d3, n3)) => {
                        match E::dec(s.skip(n0 as int + n1 as int + n2 as int + n3 as int)) {
                            Err(k) => Err(k),
                            Ok((d4, n4)) => {
                            match F::dec(s.skip(n0 as int + n1 as int + n2 as int + n3 as int + n4 as int)) {
                                Err(k) => Err(k),
                                Ok((d5, n5)) => {
                                match G::dec(s.skip(n0 as int + n1 as int + n2 as int + n3 as int + n4 as int + n5 as int)) {
                                    Err(k) => Err(k),
                                    Ok((d6, n6)) => {
                                    match H::dec(s.skip(n0 as int + n1 as int + n2 as int + n3 as int + n4 as int + n5 as int + n6 as int)) {
                                        Err(k) => Err(k),
                                        Ok((d7, n7)) => {
                                        match I::dec(s.skip(n0 as int + n1 as int + n2 as int + n3 as int + n4 as int + n5 as int + n6 as int + n7 as int)) {
                                            Err(k) => Err(k),
                                            Ok((d8, n8)) => {
                                            Ok(((d0, d1, d2, d3, d4, d5, d6, d7, d8), (n0 + n1 + n2 + n3 + n4 + n5 + n6 + n7 + n8) as nat))
                                            },
                                        }
                                        },
                                    }
                                    },
                                }
                                },
                            }
                            },
                        }
                        },
                    }
                    },
                }
                },
            }
            },
        }
    }

    fn load(read: &mut Source) -> (r: Result<(A, B, C, D, E, F, G, H, I), Error>) {
        let ghost rem = old(read).remaining();
        let x0 = match read.load::<A>() {
            Ok(v) => v,
            Err(e) => {
                return Err(e);
            },
        };
        proof {
            assert(read.remaining() =~= rem.skip((read.cursor() - old(read).cursor()) as int));
        }
        let x1 = match read.load::<B>() {
            Ok(v) => v,
            Err(e) => {
                return Err(e);
            },
        };
        proof {
            assert(read.remaining() =~= rem.skip((read.cursor() - old(read).cursor()) as int));
        }
        let x2 = match read.load::<C>() {
            Ok(v) => v,
            Err(e) => {
                return Err(e);
            },
        };
        proof {
            assert(read.remaining() =~= rem.skip((read.cursor() - old(read).cursor()) as int));
        }
        let x3 = match read.load::<D>() {
            Ok(v) => v,
            Err(e) => {
                return Err(e);
            },
        };
        proof {
            assert(read.remaining() =~= rem.skip((read.cursor() - old(read).cursor()) as int));
        }
        let x4 = match read.load::<E>() {
            Ok(v) => v,
            Err(e) => {
                return Err(e);
            },
        };
        proof {
            assert(read.remaining() =~= rem.skip((read.cursor() - old(read).cursor()) as int));
        }
        let x5 = match read.load::<F>() {
            Ok(v) => v,
            Err(e) => {
                return Err(e);
            },
        };
        proof {
            assert(read.remaining() =~= rem.skip((read.cursor() - old(read).cursor()) as int));
        }
        let x6 = match read.load::<G>() {
            Ok(v) => v,
            Err(e) => {
                return Err(e);
            },
        };
        proof {
            assert(read.remaining() =~= rem.skip((read.cursor() - old(read).cursor()) as int));
        }
        let x7 = match read.load::<H>() {
            Ok(v) => v,
            Err(e) => {
                return Err(e);
            },
        };
        proof {
            assert(read.remaining() =~= rem.skip((read.cursor() - old(read).cursor()) as int));
        }
        let x8 = match read.load::<I>() {
            Ok(v) => v,
            Err(e) => {
                return Err(e);
            },
        };
        Ok((x0, x1, x2, x3, x4, x5, x6, x7, x8))
    }
}

impl<A: RoundTrip, B: RoundTrip, C: RoundTrip, D: RoundTrip, E: RoundTrip, F: RoundTrip, G: RoundTrip, H: RoundTrip, I: RoundTrip> RoundTrip for (A, B, C, D, E, F, G, H, I) {
    #[verifier::rlimit(60)]
    proof fn lemma_round_trip(&self, rest: Seq<u8>) {
        let t8 = self.8.enc() + rest;
        let t7 = self.7.enc() + t8;
        let t6 = self.6.enc() + t7;
        let t5 = self.5.enc() + t6;
        let t4 = self.4.enc() + t5;
        let t3 = self.3.enc() + t4;
        let t2 = self.2.enc() + t3;
        let t1 = self.1.enc() + t2;
        assert(self.enc() + rest =~= self.0.enc() + t1);
        self.0.lemma_round_trip(t1);
        assert((self.0.enc() + t1).skip(self.0.enc().len() as int) =~= t1);
        assert((self.enc() + rest).skip(self.0.enc().len() as int) =~= t1);
        self.1.lemma_round_trip(t2);
        assert(t1.skip(self.1.enc().len() as int) =~= t2);
        assert((self.enc() + rest).skip(self.0.enc().len() as int + self.1.enc().len() as int) =~= t2);
        self.2.lemma_round_trip(t3);
        assert(t2.skip(self.2.enc().len() as int) =~= t3);
        assert((self.enc() + rest).skip(self.0.enc().len() as int + self.1.enc().len() as int + self.2.enc().len() as int) =~= t3);
        self.3.lemma_round_trip(t4);
        assert(t3.skip(self.3.enc().len() as int) =~= t4);
        assert((self.enc() + rest).skip(self.0.enc().len() as int + self.1.enc().len() as int + self.2.enc().len() as int + self.3.enc().len() as int) =~= t4);
        self.4.lemma_round_trip(t5);
        assert(t4.skip(self.4.enc().len() as int) =~= t5);
        assert((self.enc() + rest).skip(self.0.enc().len() as int + self.1.enc().len() as int + self.2.enc().len() as int + self.3.enc().len() as int + self.4.enc().len() as int) =~= t5);
        self.5.lemma_round_trip(t6);
        assert(t5.skip(self.5.enc().len() as int) =~= t6);
        assert((self.enc() + rest).skip(self.0.enc().len() as int + self.1.enc().len() as int + self.2.enc().len() as int + self.3.enc().len() as int + self.4.enc().len() as int + self.5.enc().len() as int) =~= t6);
        self.6.lemma_round_trip(t7);
        assert(t6.skip(self.6.enc().len() as int) =~= t7);
        assert((self.enc() + rest).skip(self.0.enc().len() as int + self.1.enc().len() as int + self.2.enc().len() as int + self.3.enc().len() as int + self.4.enc().len() as int + self.5.enc().len() as int + self.6.enc().len() as int) =~= t7);
        self.7.lemma_round_trip(t8);
        assert(t7.skip(self.7.enc().len() as int) =~= t8);
        assert((self.enc() + rest).skip(self.0.enc().len() as int + self.1.enc().len() as int + self.2.enc().len() as int + self.3.enc().len() as int + self.4.enc().len() as int + self.5.enc().len() as int + self.6.enc().len() as int + self.7.enc().len() as int) =~= t8);
        self.8.lemma_round_trip(rest);
    }
}

impl<A: Dump, B: Dump, C: Dump, D: Dump, E: Dump, F: Dump, G: Dump, H: Dump, I: Dump, J: Dump> Dump for (A, B, C, D, E, F, G, H, I, J) {
    open spec fn wf(&self) -> bool {
        self.0.wf() && self.1.wf() && self.2.wf() && self.3.wf() && self.4.wf() && self.5.wf() && self.6.wf() && self.7.wf() && self.8.wf() && self.9.wf()
    }

    open spec fn enc(&self) -> Seq<u8> {
        self.0.enc() + self.1.enc() + self.2.enc() + self.3.enc() + self.4.enc() + self.5.enc() + self.6.enc() + self.7.enc() + self.8.enc() + self.9.enc()
    }

    fn dump(&self, write: &mut Sink) -> (r: Result<(), Error>) {
        let _ = self.0.dump(write);
        let _ = self.1.dump(write);
        let _ = self.2.dump(write);
        let _ = self.3.dump(write);
        let _ = self.4.dump(write);
        let _ = self.5.dump(write);
        let _ = self.6.dump(write);
        let _ = self.7.dump(write);
        let _ = self.8.dump(write);
        let r9 = self.9.dump(write);
        proof {
            assert(final(write)@ =~= old(write)@ + (self.0.enc() + self.1.enc() + self.2.enc() + self.3.enc() + self.4.enc() + self.5.enc() + self.6.enc() + self.7.enc() + self.8.enc() + self.9.enc()));
        }
        r9
    }
}

impl<A: Load, B: Load, C: Load, D: Load, E: Load, F: Load, G: Load, H: Load, I: Load, J: Load> Load for (A, B, C, D, E, F, G, H, I, J) {
    open spec fn dec(s: Seq<u8>) -> Result<((<A as DeepView>::V, <B as DeepView>::V, <C as DeepView>::V, <D as DeepView>::V, <E as DeepView>::V, <F as DeepView>::V, <G as DeepView>::V, <H as DeepView>::V, <I as DeepView>::V, <J as DeepView>::V), nat), ErrorKind> {
        match A::dec(s) {
            Err(k) => Err(k),
            Ok((d0, n0)) => {
            match B::dec(s.skip(n0 as int)) {
                Err(k) => Err(k),
                Ok((d1, n1)) => {
                match C::dec(s.skip(n0 as int + n1 as int)) {
                    Err(k) => Err(k),
                    Ok((d2, n2)) => {
                    match D::dec(s.skip(n0 as int + n1 as int + n2 as int)) {
                        Err(k) => Err(k),
                        Ok((d3, n3)) => {
                        match E::dec(s.skip(n0 as int + n1 as int + n2 as int + n3 as int)) {
                            Err(k) => Err(k),
                            Ok((d4, n4)) => {
                            match F::dec(s.skip(n0 as int + n1 as int + n2 as int + n3 as int + n4 as int)) {
                                Err(k) => Err(k),
                                Ok((d5, n5)) => {
                                match G::dec(s.skip(n0 as int + n1 as int + n2 as int + n3 as int + n4 as int + n5 as int)) {
                                    Err(k) => Err(k),
                                    Ok((d6, n6)) => {
                                    match H::dec(s.skip(n0 as int + n1 as int + n2 as int + n3 as int + n4 as int + n5 as int + n6 as int)) {
                                        Err(k) => Err(k),
                                        Ok((d7, n7)) => {
                                        match I::dec(s.skip(n0 as int + n1 as int + n2 as int + n3 as int + n4 as int + n5 as int + n6 as int + n7 as int)) {
                                            Err(k) => Err(k),
                                            Ok((d8, n8)) => {
                                            match J::dec(s.skip(n0 as int + n1 as int + n2 as int + n3 as int + n4 as int + n5 as int + n6 as int + n7 as int + n8 as int)) {
                                                Err(k) => Err(k),
                                                Ok((d9, n9)) => {
                                                Ok(((d0, d1, d2, d3, d4, d5, d6, d7, d8, d9), (n0 + n1 + n2 + n3 + n4 + n5 + n6 + n7 + n8 + n9) as nat))
                                                },
                                            }
                                            },
                                        }
                                        },
                                    }
                                    },
                                }
                                },
                            }
                            },
                        }
                        },
                    }
                    },
                }
                },
            }
            },
        }
    }

    fn load(read: &mut Source) -> (r: Result<(A, B, C, D, E, F, G, H, I, J), Error>) {
        let ghost rem = old(read).remaining();
        let x0 = match read.load::<A>() {
            Ok(v) => v,
            Err(e) => {
                return Err(e);
            },
        };
        proof {
            assert(read.remaining() =~= rem.skip((read.cursor() - old(read).cursor()) as int));
        }
        let x1 = match read.load::<B>() {
            Ok(v) => v,
            Err(e) => {
                return Err(e);
            },
        };
        proof {
            assert(read.remaining() =~= rem.skip((read.cursor() - old(read).cursor()) as int));
        }
        let x2 = match read.load::<C>() {
            Ok(v) => v,
            Err(e) => {
                return Err(e);
            },
        };
        proof {
            assert(read.remaining() =~= rem.skip((read.cursor() - old(read).cursor()) as int));
        }
        let x3 = match read.load::<D>() {
            Ok(v) => v,
            Err(e) => {
                return Err(e);
            },
        };
        proof {
            assert(read.remaining() =~= rem.skip((read.cursor() - old(read).cursor()) as int));
        }
        let x4 = match read.load::<E>() {
            Ok(v) => v,
            Err(e) => {
                return Err(e);
            },
        };
        proof {
            assert(read.remaining() =~= rem.skip((read.cursor() - old(read).cursor()) as int));
        }
        let x5 = match read.load::<F>() {
            Ok(v) => v,
            Err(e) => {
                return Err(e);
            },
        };
        proof {
            assert(read.remaining() =~= rem.skip((read.cursor() - old(read).cursor()) as int));
        }
        let x6 = match read.load::<G>() {
            Ok(v) => v,
            Err(e) => {
                return Err(e);
            },
        };
        proof {
            assert(read.remaining() =~= rem.skip((read.cursor() - old(read).cursor()) as int));
        }
        let x7 = match read.load::<H>() {
            Ok(v) => v,
            Err(e) => {
                return Err(e);
            },
        };
        proof {
            assert(read.remaining() =~= rem.skip((read.cursor() - old(read).cursor()) as int));
        }
        let x8 = match read.load::<I>() {
            Ok(v) => v,
            Err(e) => {
                return Err(e);
            },
        };
        proof {
            assert(read.remaining() =~= rem.skip((read.cursor() - old(read).cursor()) as int));
        }
        let x9 = match read.load::<J>() {
            Ok(v) => v,
            Err(e) => {
                return Err(e);
            },
        };
        Ok((x0, x1, x2, x3, x4, x5, x6, x7, x8, x9))
    }
}

impl<A: RoundTrip, B: RoundTrip, C: RoundTrip, D: RoundTrip, E: RoundTrip, F: RoundTrip, G: RoundTrip, H: RoundTrip, I: RoundTrip, J: RoundTrip> RoundTrip for (A, B, C, D, E, F, G, H, I, J) {
    #[verifier::rlimit(100)]
    proof fn lemma_round_trip(&self, rest: Seq<u8>) {
        let t9 = self.9.enc() + rest;
        let t8 = self.8.enc() + t9;
        let t7 = self.7.enc() + t8;
        let t6 = self.6.enc() + t7;
        let t5 = self.5.enc() + t6;
        let t4 = self.4.enc() + t5;
        let t3 = self.3.enc() + t4;
        let t2 = self.2.enc() + t3;
        let t1 = self.1.enc() + t2;
        assert(self.enc() + rest =~= self.0.enc() + t1);
        self.0.lemma_round_trip(t1);
        assert((self.0.enc() + t1).skip(self.0.enc().len() as int) =~= t1);
        assert((self.enc() + rest).skip(self.0.enc().len() as int) =~= t1);
        self.1.lemma_round_trip(t2);
        assert(t1.skip(self.1.enc().len() as int) =~= t2);
        assert((self.enc() + rest).skip(self.0.enc().len() as int + self.1.enc().len() as int) =~= t2);
        self.2.lemma_round_trip(t3);
        assert(t2.skip(self.2.enc().len() as int) =~= t3);
        assert((self.enc() + rest).skip(self.0.enc().len() as int + self.1.enc().len() as int + self.2.enc().len() as int) =~= t3);
        self.3.lemma_round_trip(t4);
        assert(t3.skip(self.3.enc().len() as int) =~= t4);
        assert((self.enc() + rest).skip(self.0.enc().len() as int + self.1.enc().len() as int + self.2.enc().len() as int + self.3.enc().len() as int) =~= t4);
        self.4.lemma_round_trip(t5);
        assert(t4.skip(self.4.enc().len() as int) =~= t5);
        assert((self.enc() + rest).skip(self.0.enc().len() as int + self.1.enc().len() as int + self.2.enc().len() as int + self.3.enc().len() as int + self.4.enc().len() as int) =~= t5);
        self.5.lemma_round_trip(t6);
        assert(t5.skip(self.5.enc().len() as int) =~= t6);
        assert((self.enc() + rest).skip(self.0.enc().len() as int + self.1.enc().len() as int + self.2.enc().len() as int + self.3.enc().len() as int + self.4.enc().len() as int + self.5.enc().len() as int) =~= t6);
        self.6.lemma_round_trip(t7);
        assert(t6.skip(self.6.enc().len() as int) =~= t7);
        assert((self.enc() + rest).skip(self.0.enc().len() as int + self.1.enc().len() as int + self.2.enc().len() as int + self.3.enc().len() as int + self.4.enc().len() as int + self.5.enc().len() as int + self.6.enc().len() as int) =~= t7);
        self.7.lemma_round_trip(t8);
        assert(t7.skip(self.7.enc().len() as int) =~= t8);
        assert((self.enc() + rest).skip(self.0.enc().len() as int + self.1.enc().len() as int + self.2.enc().len() as int + self.3.enc().len() as int + self.4.enc().len() as int + self.5.enc().len() as int + self.6.enc().len() as int + self.7.enc().len() as int) =~= t8);
        self.8.lemma_round_trip(t9);
        assert(t8.skip(self.8.enc().len() as int) =~= t9);
        assert((self.enc() + rest).skip(self.0.enc().len() as int + self.1.enc().len() as int + self.2.enc().len() as int + self.3.enc().len() as int + self.4.enc().len() as int + self.5.enc().len() as int + self.6.enc().len() as int + self.7.enc().len() as int + self.8.enc().len() as int) =~= t9);
        self.9.lemma_round_trip(rest);
    }
}

impl<A: Dump, B: Dump, C: Dump, D: Dump, E: Dump, F: Dump, G: Dump, H: Dump, I: Dump, J: Dump, K: Dump> Dump for (A, B, C, D, E, F, G, H, I, J, K) {
    open spec fn wf(&self) -> bool {
        self.0.wf() && self.1.wf() && self.2.wf() && self.3.wf() && self.4.wf() && self.5.wf() && self.6.wf() && self.7.wf() && self.8.wf() && self.9.wf() && self.10.wf()
    }

    open spec fn enc(&self) -> Seq<u8> {
        self.0.enc() + self.1.enc() + self.2.enc() + self.3.enc() + self.4.enc() + self.5.enc() + self.6.enc() + self.7.enc() + self.8.enc() + self.9.enc() + self.10.enc()
    }

    fn dump(&self, write: &mut Sink) -> (r: Result<(), Error>) {
        let _ = self.0.dump(write);
        let _ = self.1.dump(write);
        let _ = self.2.dump(write);
        let _ = self.3.dump(write);
        let _ = self.4.dump(write);
        let _ = self.5.dump(write);
        let _ = self.6.dump(write);
        let _ = self.7.dump(write);
        let _ = self.8.dump(write);
        let _ = self.9.dump(write);
        let r10 = self.10.dump(write);
        proof {
            assert(final(write)@ =~= old(write)@ + (self.0.enc() + self.1.enc() + self.2.enc() + self.3.enc() + self.4.enc() + self.5.enc() + self.6.enc() + self.7.enc() + self.8.enc() + self.9.enc() + self.10.enc()));
        }
        r10
    }
}

impl<A: Load, B: Load, C: Load, D: Load, E: Load, F: Load, G: Load, H: Load, I: Load, J: Load, K: Load> Load for (A, B, C, D, E, F, G, H, I, J, K) {
    open spec fn dec(s: Seq<u8>) -> Result<((<A as DeepView>::V, <B as DeepView>::V, <C as DeepView>::V, <D as DeepView>::V, <E as DeepView>::V, <F as DeepView>::V, <G as DeepView>::V, <H as DeepView>::V, <I as DeepView>::V, <J as DeepView>::V, <K as DeepView>::V), nat), ErrorKind> {
        match A::dec(s) {
            Err(k) => Err(k),
            Ok((d0, n0)) => {
            match B::dec(s.skip(n0 as int)) {
                Err(k) => Err(k),
                Ok((d1, n1)) => {
                match C::dec(s.skip(n0 as int + n1 as int)) {
                    Err(k) => Err(k),
                    Ok((d2, n2)) => {
                    match D::dec(s.skip(n0 as int + n1 as int + n2 as int)) {
                        Err(k) => Err(k),
                        Ok((d3, n3)) => {
                        match E::dec(s.skip(n0 as int + n1 as int + n2 as int + n3 as int)) {
                            Err(k) => Err(k),
                            Ok((d4, n4)) => {
                            match F::dec(s.skip(n0 as int + n1 as int + n2 as int + n3 as int + n4 as int)) {
                                Err(k) => Err(k),
                                Ok((d5, n5)) => {
                                match G::dec(s.skip(n0 as int + n1 as int + n2 as int + n3 as int + n4 as int + n5 as int)) {
                                    Err(k) => Err(k),
                                    Ok((d6, n6)) => {
                                    match H::dec(s.skip(n0 as int + n1 as int + n2 as int + n3 as int + n4 as int + n5 as int + n6 as int)) {
                                        Err(k) => Err(k),
                                        Ok((d7, n7)) => {
                                        match I::dec(s.skip(n0 as int + n1 as int + n2 as int + n3 as int + n4 as int + n5 as int + n6 as int + n7 as int)) {
                                            Err(k) => Err(k),
                                            Ok((d8, n8)) => {
                                            match J::dec(s.skip(n0 as int + n1 as int + n2 as int + n3 as int + n4 as int + n5 as int + n6 as int + n7 as int + n8 as int)) {
                                                Err(k) => Err(k),
                                                Ok((d9, n9)) => {
                                                match K::dec(s.skip(n0 as int + n1 as int + n2 as int + n3 as int + n4 as int + n5 as int + n6 as int + n7 as int + n8 as int + n9 as int)) {
                                                    Err(k) => Err(k),
                                                    Ok((d10, n10)) => {
                                                    Ok(((d0, d1, d2, d3, d4, d5, d6, d7, d8, d9, d10), (n0 + n1 + n2 + n3 + n4 + n5 + n6 + n7 + n8 + n9 + n10) as nat))
                                                    },
                                                }
                                                },
                                            }
                                            },
                                        }
                                        },
                                    }
                                    },
                                }
                                },
                            }
                            },
                        }
                        },
                    }
                    },
                }
                },
            }
            },
        }
    }

    fn load(read: &mut Source) -> (r: Result<(A, B, C, D, E, F, G, H, I, J, K), Error>) {
        let ghost rem = old(read).remaining();
        let x0 = match read.load::<A>() {
            Ok(v) => v,
            Err(e) => {
                return Err(e);
            },
        };
        proof {
            assert(read.remaining() =~= rem.skip((read.cursor() - old(read).cursor()) as int));
        }
        let x1 = match read.load::<B>() {
            Ok(v) => v,
            Err(e) => {
                return Err(e);
            },
        };
        proof {
            assert(read.remaining() =~= rem.skip((read.cursor() - old(read).cursor()) as int));
        }
        let x2 = match read.load::<C>() {
            Ok(v) => v,
            Err(e) => {
                return Err(e);
            },
        };
        proof {
            assert(read.remaining() =~= rem.skip((read.cursor() - old(read).cursor()) as int));
        }
        let x3 = match read.load::<D>() {
            Ok(v) => v,
            Err(e) => {
                return Err(e);
            },
        };
        proof {
            assert(read.remaining() =~= rem.skip((read.cursor() - old(read).cursor()) as int));
        }
        let x4 = match read.load::<E>() {
            Ok(v) => v,
            Err(e) => {
                return Err(e);
            },
        };
        proof {
            assert(read.remaining() =~= rem.skip((read.cursor() - old(read).cursor()) as int));
        }
        let x5 = match read.load::<F>() {
            Ok(v) => v,
            Err(e) => {
                return Err(e);
            },
        };
        proof {
            assert(read.remaining() =~= rem.skip((read.cursor() - old(read).cursor()) as int));
        }
        let x6 = match read.load::<G>() {
            Ok(v) => v,
            Err(e) => {
                return Err(e);
            },
        };
        proof {
            assert(read.remaining() =~= rem.skip((read.cursor() - old(read).cursor()) as int));
        }
        let x7 = match read.load::<H>() {
            Ok(v) => v,
            Err(e) => {
                return Err(e);
            },
        };
        proof {
            assert(read.remaining() =~= rem.skip((read.cursor() - old(read).cursor()) as int));
        }
        let x8 = match read.load::<I>() {
            Ok(v) => v,
            Err(e) => {
                return Err(e);
            },
        };
        proof {
            assert(read.remaining() =~= rem.skip((read.cursor() - old(read).cursor()) as int));
        }
        let x9 = match read.load::<J>() {
            Ok(v) => v,
            Err(e) => {
                return Err(e);
            },
        };
        proof {
            assert(read.remaining() =~= rem.skip((read.cursor() - old(read).cursor()) as int));
        }
        let x10 = match read.load::<K>() {
            Ok(v) => v,
            Err(e) => {
                return Err(e);
            },
        };
        Ok((x0, x1, x2, x3, x4, x5, x6, x7, x8, x9, x10))
    }
}

impl<A: RoundTrip, B: RoundTrip, C: RoundTrip, D: RoundTrip, E: RoundTrip, F: RoundTrip, G: RoundTrip, H: RoundTrip, I: RoundTrip, J: RoundTrip, K: RoundTrip> RoundTrip for (A, B, C, D, E, F, G, H, I, J, K) {
    #[verifier::rlimit(100)]
    proof fn lemma_round_trip(&self, rest: Seq<u8>) {
        let t10 = self.10.enc() + rest;
        let t9 = self.9.enc() + t10;
        let t8 = self.8.enc() + t9;
        let t7 = self.7.enc() + t8;
        let t6 = self.6.enc() + t7;
        let t5 = self.5.enc() + t6;
        let t4 = self.4.enc() + t5;
        let t3 = self.3.enc() + t4;
        let t2 = self.2.enc() + t3;
        let t1 = self.1.enc() + t2;
        assert(self.enc() + rest =~= self.0.enc() + t1);
        self.0.lemma_round_trip(t1);
        assert((self.0.enc() + t1).skip(self.0.enc().len() as int) =~= t1);
        assert((self.enc() + rest).skip(self.0.enc().len() as int) =~= t1);
        self.1.lemma_round_trip(t2);
        assert(t1.skip(self.1.enc().len() as int) =~= t2);
        assert((self.enc() + rest).skip(self.0.enc().len() as int + self.1.enc().len() as int) =~= t2);
        self.2.lemma_round_trip(t3);
        assert(t2.skip(self.2.enc().len() as int) =~= t3);
        assert((self.enc() + rest).skip(self.0.enc().len() as int + self.1.enc().len() as int + self.2.enc().len() as int) =~= t3);
        self.3.lemma_round_trip(t4);
        assert(t3.skip(self.3.enc().len() as int) =~= t4);
        assert((self.enc() + rest).skip(self.0.enc().len() as int + self.1.enc().len() as int + self.2.enc().len() as int + self.3.enc().len() as int) =~= t4);
        self.4.lemma_round_trip(t5);
        assert(t4.skip(self.4.enc().len() as int) =~= t5);
        assert((self.enc() + rest).skip(self.0.enc().len() as int + self.1.enc().len() as int + self.2.enc().len() as int + self.3.enc().len() as int + self.4.enc().len() as int) =~= t5);
        self.5.lemma_round_trip(t6);
        assert(t5.skip(self.5.enc().len() as int) =~= t6);
        assert((self.enc() + rest).skip(self.0.enc().len() as int + self.1.enc().len() as int + self.2.enc().len() as int + self.3.enc().len() as int + self.4.enc().len() as int + self.5.enc().len() as int) =~= t6);
        self.6.lemma_round_trip(t7);
        assert(t6.skip(self.6.enc().len() as int) =~= t7);
        assert((self.enc() + rest).skip(self.0.enc().len() as int + self.1.enc().len() as int + self.2.enc().len() as int + self.3.enc().len() as int + self.4.enc().len() as int + self.5.enc().len() as int + self.6.enc().len() as int) =~= t7);
        self.7.lemma_round_trip(t8);
        assert(t7.skip(self.7.enc().len() as int) =~= t8);
        assert((self.enc() + rest).skip(self.0.enc().len() as int + self.1.enc().len() as int + self.2.enc().len() as int + self.3.enc().len() as int + self.4.enc().len() as int + self.5.enc().len() as int + self.6.enc().len() as int + self.7.enc().len() as int) =~= t8);
        self.8.lemma_round_trip(t9);
        assert(t8.skip(self.8.enc().len() as int) =~= t9);
        assert((self.enc() + rest).skip(self.0.enc().len() as int + self.1.enc().len() as int + self.2.enc().len() as int + self.3.enc().len() as int + self.4.enc().len() as int + self.5.enc().len() as int + self.6.enc().len() as int + self.7.enc().len() as int + self.8.enc().len() as int) =~= t9);
        self.9.lemma_round_trip(t10);
        assert(t9.skip(self.9.enc().len() as int) =~= t10);
        assert((self.enc() + rest).skip(self.0.enc().len() as int + self.1.enc().len() as int + self.2.enc().len() as int + self.3.enc().len() as int + self.4.enc().len() as int + self.5.enc().len() as int + self.6.enc().len() as int + self.7.enc().len() as int + self.8.enc().len() as int + self.9.enc().len() as int) =~= t10);
        self.10.lemma_round_trip(rest);
    }
}

impl<A: Dump, B: Dump, C: Dump, D: Dump, E: Dump, F: Dump, G: Dump, H: Dump, I: Dump, J: Dump, K: Dump, L: Dump> Dump for (A, B, C, D, E, F, G, H, I, J, K, L) {
    open spec fn wf(&self) -> bool {
        self.0.wf() && self.1.wf() && self.2.wf() && self.3.wf() && self.4.wf() && self.5.wf() && self.6.wf() && self.7.wf() && self.8.wf() && self.9.wf() && self.10.wf() && self.11.wf()
    }

    open spec fn enc(&self) -> Seq<u8> {
        self.0.enc() + self.1.enc() + self.2.enc() + self.3.enc() + self.4.enc() + self.5.enc() + self.6.enc() + self.7.enc() + self.8.enc() + self.9.enc() + self.10.enc() + self.11.enc()
    }

    fn dump(&self, write: &mut Sink) -> (r: Result<(), Error>) {
        let _ = self.0.dump(write);
        let _ = self.1.dump(write);
        let _ = self.2.dump(write);
        let _ = self.3.dump(write);
        let _ = self.4.dump(write);
        let _ = self.5.dump(write);
        let _ = self.6.dump(write);
        let _ = self.7.dump(write);
        let _ = self.8.dump(write);
        let _ = self.9.dump(write);
        let _ = self.10.dump(write);
        let r11 = self.11.dump(write);
        proof {
            assert(final(write)@ =~= old(write)@ + (self.0.enc() + self.1.enc() + self.2.enc() + self.3.enc() + self.4.enc() + self.5.enc() + self.6.enc() + self.7.enc() + self.8.enc() + self.9.enc() + self.10.enc() + self.11.enc()));
        }
        r11
    }
}

impl<A: Load, B: Load, C: Load, D: Load, E: Load, F: Load, G: Load, H: Load, I: Load, J: Load, K: Load, L: Load> Load for (A, B, C, D, E, F, G, H, I, J, K, L) {
    open spec fn dec(s: Seq<u8>) -> Result<((<A as DeepView>::V, <B as DeepView>::V, <C as DeepView>::V, <D as DeepView>::V, <E as DeepView>::V, <F as DeepView>::V, <G as DeepView>::V, <H as DeepView>::V, <I as DeepView>::V, <J as DeepView>::V, <K as DeepView>::V, <L as DeepView>::V), nat), ErrorKind> {
        match A::dec(s) {
            Err(k) => Err(k),
            Ok((d0, n0)) => {
            match B::dec(s.skip(n0 as int)) {
                Err(k) => Err(k),
                Ok((d1, n1)) => {
                match C::dec(s.skip(n0 as int + n1 as int)) {
                    Err(k) => Err(k),
                    Ok((d2, n2)) => {
                    match D::dec(s.skip(n0 as int + n1 as int + n2 as int)) {
                        Err(k) => Err(k),
                        Ok((d3, n3)) => {
                        match E::dec(s.skip(n0 as int + n1 as int + n2 as int + n3 as int)) {
                            Err(k) => Err(k),
                            Ok((d4, n4)) => {
                            match F::dec(s.skip(n0 as int + n1 as int + n2 as int + n3 as int + n4 as int)) {
                                Err(k) => Err(k),
                                Ok((d5, n5)) => {
                                match G::dec(s.skip(n0 as int + n1 as int + n2 as int + n3 as int + n4 as int + n5 as int)) {
                                    Err(k) => Err(k),
                                    Ok((d6, n6)) => {
                                    match H::dec(s.skip(n0 as int + n1 as int + n2 as int + n3 as int + n4 as int + n5 as int + n6 as int)) {
                                        Err(k) => Err(k),
                                        Ok((d7, n7)) => {
                                        match I::dec(s.skip(n0 as int + n1 as int + n2 as int + n3 as int + n4 as int + n5 as int + n6 as int + n7 as int)) {
                                            Err(k) => Err(k),
                                            Ok((d8, n8)) => {
                                            match J::dec(s.skip(n0 as int + n1 as int + n2 as int + n3 as int + n4 as int + n5 as int + n6 as int + n7 as int + n8 as int)) {
                                                Err(k) => Err(k),
                                                Ok((d9, n9)) => {
                                                match K::dec(s.skip(n0 as int + n1 as int + n2 as int + n3 as int + n4 as int + n5 as int + n6 as int + n7 as int + n8 as int + n9 as int)) {
                                                    Err(k) => Err(k),
                                                    Ok((d10, n10)) => {
                                                    match L::dec(s.skip(n0 as int + n1 as int + n2 as int + n3 as int + n4 as int + n5 as int + n6 as int + n7 as int + n8 as int + n9 as int + n10 as int)) {
                                                        Err(k) => Err(k),
                                                        Ok((d11, n11)) => {
                                                        Ok(((d0, d1, d2, d3, d4, d5, d6, d7, d8, d9, d10, d11), (n0 + n1 + n2 + n3 + n4 + n5 + n6 + n7 + n8 + n9 + n10 + n11) as nat))
                                                        },
                                                    }
                                                    },
                                                }
                                                },
                                            }
                                            },
                                        }
                                        },
                                    }
                                    },
                                }
                                },
                            }
                            },
                        }
                        },
                    }
                    },
                }
                },
            }
            },
        }
    }

    fn load(read: &mut Source) -> (r: Result<(A, B, C, D, E, F, G, H, I, J, K, L), Error>) {
        let ghost rem = old(read).remaining();
        let x0 = match read.load::<A>() {
            Ok(v) => v,
            Err(e) => {
                return Err(e);
            },
        };
        proof {
            assert(read.remaining() =~= rem.skip((read.cursor() - old(read).cursor()) as int));
        }
        let x1 = match read.load::<B>() {
            Ok(v) => v,
            Err(e) => {
                return Err(e);
            },
        };
        proof {
            assert(read.remaining() =~= rem.skip((read.cursor() - old(read).cursor()) as int));
        }
        let x2 = match read.load::<C>() {
            Ok(v) => v,
            Err(e) => {
                return Err(e);
            },
        };
        proof {
            assert(read.remaining() =~= rem.skip((read.cursor() - old(read).cursor()) as int));
        }
        let x3 = match read.load::<D>() {
            Ok(v) => v,
            Err(e) => {
                return Err(e);
            },
        };
        proof {
            assert(read.remaining() =~= rem.skip((read.cursor() - old(read).cursor()) as int));
        }
        let x4 = match read.load::<E>() {
            Ok(v) => v,
            Err(e) => {
                return Err(e);
            },
        };
        proof {
            assert(read.remaining() =~= rem.skip((read.cursor() - old(read).cursor()) as int));
        }
        let x5 = match read.load::<F>() {
            Ok(v) => v,
            Err(e) => {
                return Err(e);
            },
        };
        proof {
            assert(read.remaining() =~= rem.skip((read.cursor() - old(read).cursor()) as int));
        }
        let x6 = match read.load::<G>() {
            Ok(v) => v,
            Err(e) => {
                return Err(e);
            },
        };
        proof {
            assert(read.remaining() =~= rem.skip((read.cursor() - old(read).cursor()) as int));
        }
        let x7 = match read.load::<H>() {
            Ok(v) => v,
            Err(e) => {
                return Err(e);
            },
        };
        proof {
            assert(read.remaining() =~= rem.skip((read.cursor() - old(read).cursor()) as int));
        }
        let x8 = match read.load::<I>() {
            Ok(v) => v,
            Err(e) => {
                return Err(e);
            },
        };
        proof {
            assert(read.remaining() =~= rem.skip((read.cursor() - old(read).cursor()) as int));
        }
        let x9 = match read.load::<J>() {
            Ok(v) => v,
            Err(e) => {
                return Err(e);
            },
        };
        proof {
            assert(read.remaining() =~= rem.skip((read.cursor() - old(read).cursor()) as int));
        }
        let x10 = match read.load::<K>() {
            Ok(v) => v,
            Err(e) => {
                return Err(e);
            },
        };
        proof {
            assert(read.remaining() =~= rem.skip((read.cursor() - old(read).cursor()) as int));
        }
        let x11 = match read.load::<L>() {
            Ok(v) => v,
            Err(e) => {
                return Err(e);
            },
        };
        Ok((x0, x1, x2, x3, x4, x5, x6, x7, x8, x9, x10, x11))
    }
}

impl<A: RoundTrip, B: RoundTrip, C: RoundTrip, D: RoundTrip, E: RoundTrip, F: RoundTrip, G: RoundTrip, H: RoundTrip, I: RoundTrip, J: RoundTrip, K: RoundTrip, L: RoundTrip> RoundTrip for (A, B, C, D, E, F, G, H, I, J, K, L) {
    #[verifier::rlimit(100)]
    proof fn lemma_round_trip(&self, rest: Seq<u8>) {
        let t11 = self.11.enc() + rest;
        let t10 = self.10.enc() + t11;
        let t9 = self.9.enc() + t10;
        let t8 = self.8.enc() + t9;
        let t7 = self.7.enc() + t8;
        let t6 = self.6.enc() + t7;
        let t5 = self.5.enc() + t6;
        let t4 = self.4.enc() + t5;
        let t3 = self.3.enc() + t4;
        let t2 = self.2.enc() + t3;
        let t1 = self.1.enc() + t2;
        assert(self.enc() + rest =~= self.0.enc() + t1);
        self.0.lemma_round_trip(t1);
        assert((self.0.enc() + t1).skip(self.0.enc().len() as int) =~= t1);
        assert((self.enc() + rest).skip(self.0.enc().len() as int) =~= t1);
        self.1.lemma_round_trip(t2);
        assert(t1.skip(self.1.enc().len() as int) =~= t2);
        assert((self.enc() + rest).skip(self.0.enc().len() as int + self.1.enc().len() as int) =~= t2);
        self.2.lemma_round_trip(t3);
        assert(t2.skip(self.2.enc().len() as int) =~= t3);
        assert((self.enc() + rest).skip(self.0.enc().len() as int + self.1.enc().len() as int + self.2.enc().len() as int) =~= t3);
        self.3.lemma_round_trip(t4);
        assert(t3.skip(self.3.enc().len() as int) =~= t4);
        assert((self.enc() + rest).skip(self.0.enc().len() as int + self.1.enc().len() as int + self.2.enc().len() as int + self.3.enc().len() as int) =~= t4);
        self.4.lemma_round_trip(t5);
        assert(t4.skip(self.4.enc().len() as int) =~= t5);
        assert((self.enc() + rest).skip(self.0.enc().len() as int + self.1.enc().len() as int + self.2.enc().len() as int + self.3.enc().len() as int + self.4.enc().len() as int) =~= t5);
        self.5.lemma_round_trip(t6);
        assert(t5.skip(self.5.enc().len() as int) =~= t6);
        assert((self.enc() + rest).skip(self.0.enc().len() as int + self.1.enc().len() as int + self.2.enc().len() as int + self.3.enc().len() as int + self.4.enc().len() as int + self.5.enc().len() as int) =~= t6);
        self.6.lemma_round_trip(t7);
        assert(t6.skip(self.6.enc().len() as int) =~= t7);
        assert((self.enc() + rest).skip(self.0.enc().len() as int + self.1.enc().len() as int + self.2.enc().len() as int + self.3.enc().len() as int + self.4.enc().len() as int + self.5.enc().len() as int + self.6.enc().len() as int) =~= t7);
        self.7.lemma_round_trip(t8);
        assert(t7.skip(self.7.enc().len() as int) =~= t8);
        assert((self.enc() + rest).skip(self.0.enc().len() as int + self.1.enc().len() as int + self.2.enc().len() as int + self.3.enc().len() as int + self.4.enc().len() as int + self.5.enc().len() as int + self.6.enc().len() as int + self.7.enc().len() as int) =~= t8);
        self.8.lemma_round_trip(t9);
        assert(t8.skip(self.8.enc().len() as int) =~= t9);
        assert((self.enc() + rest).skip(self.0.enc().len() as int + self.1.enc().len() as int + self.2.enc().len() as int + self.3.enc().len() as int + self.4.enc().len() as int + self.5.enc().len() as int + self.6.enc().len() as int + self.7.enc().len() as int + self.8.enc().len() as int) =~= t9);
        self.9.lemma_round_trip(t10);
        assert(t9.skip(self.9.enc().len() as int) =~= t10);
        assert((self.enc() + rest).skip(self.0.enc().len() as int + self.1.enc().len() as int + self.2.enc().len() as int + self.3.enc().len() as int + self.4.enc().len() as int + self.5.enc().len() as int + self.6.enc().len() as int + self.7.enc().len() as int + self.8.enc().len() as int + self.9.enc().len() as int) =~= t10);
        self.10.lemma_round_trip(t11);
        assert(t10.skip(self.10.enc().len() as int) =~= t11);
        assert((self.enc() + rest).skip(self.0.enc().len() as int + self.1.enc().len() as int + self.2.enc().len() as int + self.3.enc().len() as int + self.4.enc().len() as int + self.5.enc().len() as int + self.6.enc().len() as int + self.7.enc().len() as int + self.8.enc().len() as int + self.9.enc().len() as int + self.10.enc().len() as int) =~= t11);
        self.11.lemma_round_trip(rest);
    }
}

} // verus!
