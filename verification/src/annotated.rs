//! Aggregate glue for annotated shapes. A field flagged *skip* is omitted
//! from the wire entirely and is populated with its type's zero value on
//! load. A variant flagged *never* is structurally present but forbidden to
//! cross the wire: dumping it is a logic error, excluded here by the dump
//! precondition (an unverified caller that reaches it is stopped by a fatal
//! abort, as is loading its tag).

use vstd::prelude::*;

use crate::err::Error;
use crate::err::ErrorKind;
use crate::ext_io::Dump;
use crate::ext_io::Load;
use crate::ext_io::RoundTrip;
use crate::stream::Sink;
use crate::stream::Source;
use crate::wire::dec_uint;
use crate::wire::le_bytes;
use crate::wire::lemma_le_bytes_len;
use crate::wire::lemma_le_val_le_bytes_small;

verus! {

/// A struct whose `scratch` field is flagged skip: it never reaches the
/// wire, and loading fills it with zero, the type's default.
#[derive(Debug)]
pub struct Record {
    pub id: u32,
    pub label: String,
    pub scratch: u64,
}

/// The mathematical shape of a `Record` value.
pub struct RecordV {
    pub id: u32,
    pub label: Seq<char>,
    pub scratch: u64,
}

impl DeepView for Record {
    type V = RecordV;

    open spec fn deep_view(&self) -> RecordV {
        RecordV { id: self.id, label: self.label@, scratch: self.scratch }
    }
}

impl Dump for Record {
    open spec fn wf(&self) -> bool {
        self.label.wf()
    }

    open spec fn enc(&self) -> Seq<u8> {
        self.id.enc() + self.label.enc()
    }

    fn dump(&self, write: &mut Sink) -> (r: Result<(), Error>) {
        let _ = self.id.dump(write);
        // no output for the skip field
        let _ = self.label.dump(write);
        proof {
            assert(final(write)@ =~= old(write)@ + (self.id.enc() + self.label.enc()));
        }
        Ok(())
    }
}

impl Load for Record {
    open spec fn dec(s: Seq<u8>) -> Result<(RecordV, nat), ErrorKind> {
        match <u32 as Load>::dec(s) {
            Err(k) => Err(k),
            Ok((id, n1)) => match <String as Load>::dec(s.skip(n1 as int)) {
                Err(k) => Err(k),
                Ok((label, n2)) => Ok((RecordV { id, label, scratch: 0 }, (n1 + n2) as nat)),
            },
        }
    }

    fn load(read: &mut Source) -> (r: Result<Record, Error>) {
        let ghost rem = old(read).remaining();
        let id = match read.load::<u32>() {
            Ok(v) => v,
            Err(e) => {
                return Err(e);
            },
        };
        proof {
            assert(read.remaining() =~= rem.skip((read.cursor() - old(read).cursor()) as int));
        }
        let label = match read.load::<String>() {
            Ok(v) => v,
            Err(e) => {
                return Err(e);
            },
        };
        // the skip field is populated with its type's zero value
        Ok(Record { id, label, scratch: 0 })
    }
}

/// Law: a type with a skip field round-trips up to that field — the fields
/// on the wire come back exactly, and the skip field comes back as zero,
/// whatever it held when dumped.
pub proof fn lemma_record_round_trip_up_to_skip(r: Record, rest: Seq<u8>)
    requires
        r.wf(),
    ensures
        <Record as Load>::dec(r.enc() + rest) == Ok::<(RecordV, nat), ErrorKind>(
            (RecordV { id: r.id, label: r.label@, scratch: 0 }, r.enc().len()),
        ),
{
    let tail = r.label.enc() + rest;
    assert(r.enc() + rest =~= r.id.enc() + tail);
    r.id.lemma_round_trip(tail);
    assert((r.id.enc() + tail).skip(r.id.enc().len() as int) =~= tail);
    r.label.lemma_round_trip(rest);
    lemma_le_bytes_len(r.id as nat, 4);
}

/// A union whose `Local` variant is flagged never: it must not be dumped or
/// loaded. Its wire tag is its declaration index, 2, and meeting that tag in
/// a stream is as fatal as a tag outside the declared range.
#[derive(Debug)]
pub enum Note {
    Ping,
    Text { body: String },
    Local(u64),
}

/// The mathematical shape of a `Note` value.
pub enum NoteV {
    Ping,
    Text { body: Seq<char> },
    Local(u64),
}

impl DeepView for Note {
    type V = NoteV;

    open spec fn deep_view(&self) -> NoteV {
        match self {
            Note::Ping => NoteV::Ping,
            Note::Text { body } => NoteV::Text { body: body@ },
            Note::Local(x) => NoteV::Local(*x),
        }
    }
}

impl Dump for Note {
    open spec fn wf(&self) -> bool {
        match self {
            Note::Ping => true,
            Note::Text { body } => body.wf(),
            // the never variant may not be dumped
            Note::Local(_) => false,
        }
    }

    open spec fn enc(&self) -> Seq<u8> {
        match self {
            Note::Ping => le_bytes(0, 4),
            Note::Text { body } => le_bytes(1, 4) + body.enc(),
            // never dumped: excluded by wf
            Note::Local(_) => Seq::<u8>::empty(),
        }
    }

    fn dump(&self, write: &mut Sink) -> (r: Result<(), Error>) {
        proof {
            vstd::arithmetic::power2::lemma2_to64();
        }
        match self {
            Note::Ping => {
                write.write_leuint(0, 4);
                Ok(())
            },
            Note::Text { body } => {
                write.write_leuint(1, 4);
                let _ = body.dump(write);
                proof {
                    assert(final(write)@ =~= old(write)@ + (le_bytes(1, 4) + body.enc()));
                }
                Ok(())
            },
            // unreachable for verified callers; an unverified one is
            // stopped by a fatal abort, as the annotation demands
            Note::Local(_) => vstd::pervasive::unreached(),
        }
    }
}

impl Load for Note {
    open spec fn dec(s: Seq<u8>) -> Result<(NoteV, nat), ErrorKind> {
        match dec_uint(s, 4) {
            Err(k) => Err(k),
            Ok((tag, _)) => {
                if tag == 0 {
                    Ok((NoteV::Ping, 4))
                } else if tag == 1 {
                    match <String as Load>::dec(s.skip(4)) {
                        Err(k) => Err(k),
                        Ok((body, n)) => Ok((NoteV::Text { body }, (4 + n) as nat)),
                    }
                } else {
                    // the never variant's own tag, and any tag outside the
                    // declared range, mean the stream is too broken to go on
                    Err(ErrorKind::Unknown)
                }
            },
        }
    }

    fn load(read: &mut Source) -> (r: Result<Note, Error>) {
        let ghost rem = old(read).remaining();
        let tag = match read.read_leuint(4) {
            Ok(u) => u,
            Err(e) => {
                return Err(e);
            },
        };
        if tag == 0 {
            Ok(Note::Ping)
        } else if tag == 1 {
            proof {
                assert(read.remaining() =~= rem.skip(4));
            }
            let body = match read.load::<String>() {
                Ok(v) => v,
                Err(e) => {
                    return Err(e);
                },
            };
            Ok(Note::Text { body })
        } else {
            Err(Error::new(ErrorKind::Unknown))
        }
    }
}

impl RoundTrip for Note {
    proof fn lemma_round_trip(&self, rest: Seq<u8>) {
        vstd::arithmetic::power2::lemma2_to64();
        match self {
            Note::Ping => {
                lemma_le_bytes_len(0, 4);
                assert((self.enc() + rest).take(4) =~= le_bytes(0, 4));
                lemma_le_val_le_bytes_small(0, 4);
            },
            Note::Text { body } => {
                lemma_le_bytes_len(1, 4);
                assert((self.enc() + rest).take(4) =~= le_bytes(1, 4));
                lemma_le_val_le_bytes_small(1, 4);
                assert((self.enc() + rest).skip(4) =~= body.enc() + rest);
                body.lemma_round_trip(rest);
            },
            // a never variant is not dumpable in the first place
            Note::Local(_) => {
                assert(false);
            },
        }
    }
}

} // verus!
