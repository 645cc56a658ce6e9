//! The text codec: a string dumps as its UTF-8 bytes followed by a single
//! zero byte. Text must hold no NUL byte, or the frame could not be read
//! back; loading stops at the first zero byte, consumes it, and validates
//! the bytes before it as UTF-8.

use vstd::prelude::*;
use vstd::utf8::decode_utf8;
use vstd::utf8::encode_utf8;
use vstd::utf8::encode_utf8_decode_utf8;
use vstd::utf8::encode_utf8_valid_utf8;
use vstd::utf8::valid_utf8;

use crate::err::Error;
use crate::err::ErrorKind;
use crate::ext_io::Dump;
use crate::ext_io::Load;
use crate::ext_io::RoundTrip;
use crate::stream::Sink;
use crate::stream::Source;
use crate::wire::first_zero;
use crate::wire::lemma_first_zero_at;
use crate::wire::lemma_first_zero_none;
use crate::wire::lemma_first_zero_framed;

verus! {

/// Text may be dumped only when its UTF-8 encoding holds no NUL byte:
/// the zero byte is the frame's terminator.
pub open spec fn text_wf(t: Seq<char>) -> bool {
    forall|i: int| 0 <= i < encode_utf8(t).len() ==> encode_utf8(t)[i] != 0
}

/// The text decode: the bytes up to the first zero, validated as UTF-8.
/// The zero byte is consumed; the bytes after it are not touched.
pub open spec fn text_dec(s: Seq<u8>) -> Result<(Seq<char>, nat), ErrorKind> {
    match first_zero(s) {
        None => Err(ErrorKind::FileRead),
        Some(k) => if valid_utf8(s.take(k as int)) {
            Ok((decode_utf8(s.take(k as int)), (k + 1) as nat))
        } else {
            Err(ErrorKind::InvalidUtf8)
        },
    }
}

/// Relies on String::from_utf8: it succeeds exactly on input that is valid
/// UTF-8, and then returns the string whose characters are the decoding of
/// those bytes.
#[verifier::external_body]
fn string_from_utf8(bytes: Vec<u8>) -> (r: Option<String>)
    ensures
        r is Some <==> valid_utf8(bytes@),
        r is Some ==> r.unwrap()@ == decode_utf8(bytes@),
{
    String::from_utf8(bytes).ok()
}

/// Whether a string may be dumped: true exactly when its UTF-8 bytes hold
/// no NUL.
pub fn text_dumpable(s: &String) -> (b: bool)
    ensures
        b == s.wf(),
{
    let bytes = s.as_str().as_bytes();
    let n = bytes.len();
    let mut i: usize = 0;
    while i < n
        invariant
            i <= n,
            n == bytes@.len(),
            bytes@ == encode_utf8(s@),
            forall|j: int| 0 <= j < i ==> bytes@[j] != 0,
        decreases n - i,
    {
        if bytes[i] == 0 {
            return false;
        }
        i = i + 1;
    }
    true
}

impl Dump for String {
    open spec fn wf(&self) -> bool {
        text_wf(self@)
    }

    open spec fn enc(&self) -> Seq<u8> {
        encode_utf8(self@) + seq![0u8]
    }

    fn dump(&self, write: &mut Sink) -> (r: Result<(), Error>) {
        let bytes = self.as_str().as_bytes();
        write.write_bytes(bytes);
        write.write_byte(0);
        proof {
            assert(final(write)@ =~= old(write)@ + (encode_utf8(self@) + seq![0u8]));
        }
        Ok(())
    }
}

impl Load for String {
    open spec fn dec(s: Seq<u8>) -> Result<(Seq<char>, nat), ErrorKind> {
        text_dec(s)
    }

    // loads a NUL-terminated string
    fn load(read: &mut Source) -> (r: Result<String, Error>) {
        let ghost rem = old(read).remaining();
        let mut ret: Vec<u8> = Vec::new();
        loop
            invariant
                rem == old(read).remaining(),
                read.inv(),
                read.all_data() == old(read).all_data(),
                old(read).cursor() <= read.cursor(),
                read.cursor() - old(read).cursor() == ret@.len(),
                ret@.len() <= rem.len(),
                ret@ == rem.take(ret@.len() as int),
                read.remaining() == rem.skip(ret@.len() as int),
                forall|j: int| 0 <= j < ret@.len() ==> rem[j] != 0,
            decreases rem.len() - ret@.len(),
        {
            let ghost i = ret@.len() as int;
            match read.read_byte() {
                Err(e) => {
                    proof {
                        assert(rem.skip(i).len() == 0);
                        assert(i == rem.len());
                        lemma_first_zero_none(rem);
                    }
                    return Err(e);
                },
                Ok(b) => {
                    proof {
                        assert(b == rem.skip(i)[0]);
                        assert(b == rem[i]);
                    }
                    if b == 0 {
                        proof {
                            lemma_first_zero_at(rem, i);
                            assert(first_zero(rem) == Some(i as nat));
                        }
                        return match string_from_utf8(ret) {
                            Some(st) => Ok(st),
                            None => Err(Error::new(ErrorKind::InvalidUtf8)),
                        };
                    }
                    ret.push(b);
                    proof {
                        assert(ret@ =~= rem.take(ret@.len() as int));
                        assert(read.remaining() =~= rem.skip(ret@.len() as int));
                    }
                },
            }
        }
    }
}

impl RoundTrip for String {
    proof fn lemma_round_trip(&self, rest: Seq<u8>) {
        let a = encode_utf8(self@);
        lemma_first_zero_framed(a, rest);
        assert(self.enc() + rest =~= a + seq![0u8] + rest);
        encode_utf8_valid_utf8(self@);
        encode_utf8_decode_utf8(self@);
    }
}

} // verus!
