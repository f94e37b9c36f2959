//! Takes what a serializer writes as bytes and keeps it as text.
use crate::event_formatter::Error;
use vstd::prelude::*;
use vstd::string::*;
use vstd::utf8::{decode_utf8, encode_utf8_decode_utf8, valid_utf8};

verus! {

/// Calls `std::str::from_utf8`, which hands back the bytes as a string slice where they
/// are valid UTF-8, and an error where they are not.
#[verifier::external_body]
fn from_utf8(bytes: &[u8]) -> (r: Option<&str>)
    ensures
        r is Some <==> valid_utf8(bytes@),
        r matches Some(text) ==> text.spec_bytes() == bytes@,
{
    std::str::from_utf8(bytes).ok()
}

/// Converts between writing bytes and writing text: it takes chunks of bytes, and what
/// it holds is the text that they spell.
#[derive(Debug)]
pub struct WriteAdaptor {
    fmt_write: String,
}

impl View for WriteAdaptor {
    type V = Seq<char>;

    closed spec fn view(&self) -> Seq<char> {
        self.fmt_write@
    }
}

impl WriteAdaptor {
    /// An adaptor that writes behind the text given.
    pub fn new(fmt_write: String) -> (r: WriteAdaptor)
        ensures
            r@ == fmt_write@,
    {
        WriteAdaptor { fmt_write }
    }

    /// Writes a chunk of bytes. Bytes that are valid UTF-8 are all taken, and their
    /// number is handed back; any other chunk is refused and nothing is written.
    pub fn write(&mut self, buf: &[u8]) -> (r: Result<usize, Error>)
        ensures
            valid_utf8(buf@) ==> r == Ok::<usize, Error>(buf@.len() as usize) && final(self)@
                == old(self)@ + decode_utf8(buf@),
            !valid_utf8(buf@) ==> r == Err::<usize, Error>(Error::Io) && final(self)@ == old(
                self,
            )@,
    {
        match from_utf8(buf) {
            Some(text) => {
                proof {
                    encode_utf8_decode_utf8(text@);
                }
                self.fmt_write.append(text);
                Ok(text.as_bytes().len())
            },
            None => Err(Error::Io),
        }
    }

    /// Has nothing to do: every chunk is written at once.
    pub fn flush(&mut self) -> (r: Result<(), Error>)
        ensures
            r is Ok,
            final(self)@ == old(self)@,
    {
        Ok(())
    }

    /// The text written so far.
    pub fn into_inner(self) -> (r: String)
        ensures
            r@ == self@,
    {
        self.fmt_write
    }
}

} // verus!
