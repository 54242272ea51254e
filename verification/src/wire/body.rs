//! What a frame body holds: plain big-endian numbers, blocks and text, this layer only.

use vstd::prelude::*;
use vstd::utf8::encode_utf8;

use crate::bytes::{lemma_magnitude_fits, lemma_spans, put_big_endian, read_big_endian};
use crate::codec::layout::block;
use crate::codec::parse::{
    take, take_block, take_byte, take_plain, take_text, take_u32, whole_value, Parsed,
};
use crate::codec::read::{decode, Reader};
use crate::codec::write::put_lenbytes;
use crate::error::Error;
use crate::value::{Value, ValueView};

verus! {

/// What was read from a body and the bytes after it, or why nothing was.
pub type Read<T> = Result<(T, Seq<u8>), Error>;

/// Whether `value` was read, with `rest` after it.
pub open spec fn reads<T>(read: Read<T>, value: T, rest: Seq<u8>) -> bool {
    read == Ok::<(T, Seq<u8>), Error>((value, rest))
}

/// Whether nothing was read, because of `error`.
pub open spec fn refuses<T>(read: Read<T>, error: Error) -> bool {
    read == Err::<(T, Seq<u8>), Error>(error)
}

/// A body that does not hold what it should is malformed.
pub open spec fn well_shaped<T>(parsed: Parsed<T>) -> Read<T> {
    match parsed {
        Ok((value, rest)) => Ok((value, rest)),
        Err(_) => Err(Error::Malformed),
    }
}

/// Eight bytes.
pub open spec fn take_u64(bytes: Seq<u8>) -> Read<u64> {
    match take_plain(bytes, 8) {
        Ok((value, rest)) => Ok((value as u64, rest)),
        Err(_) => Err(Error::Malformed),
    }
}

/// A value in a length-prefixed block, which is to hold that value and nothing else.
pub open spec fn take_encoded(bytes: Seq<u8>) -> Read<ValueView> {
    match take_block(bytes) {
        Err(_) => Err(Error::Malformed),
        Ok((block, rest)) => match whole_value(block) {
            Err(reason) => Err(Error::Encoding { reason }),
            Ok(value) => Ok((value, rest)),
        },
    }
}

/// Length-prefixed text.
pub(crate) fn put_text(into: &mut Vec<u8>, text: &str)
    ensures
        final(into)@ == old(into)@ + block(encode_utf8(text@)),
{
    put_lenbytes(into, text.as_bytes());
}

/// Eight bytes, big-endian.
pub(crate) fn put_u64(into: &mut Vec<u8>, value: u64)
    ensures
        final(into)@ == old(into)@ + crate::bytes::big_endian(value as nat, 8),
{
    put_big_endian(into, value as u128, 8);
}

/// A cursor over a frame body.
pub(crate) struct Body<'a> {
    reader: Reader<'a>,
}

impl<'a> Body<'a> {
    pub closed spec fn well_formed(&self) -> bool {
        self.reader.well_formed()
    }

    pub closed spec fn rest(&self) -> Seq<u8> {
        self.reader.rest()
    }

    pub(crate) fn new(bytes: &'a [u8]) -> (body: Self)
        ensures
            body.well_formed(),
            body.rest() == bytes@,
    {
        Body { reader: Reader::new(bytes) }
    }

    pub(crate) fn remaining(&self) -> (left: usize)
        requires
            self.well_formed(),
        ensures
            left == self.rest().len(),
    {
        self.reader.remaining()
    }

    pub(crate) fn take(&mut self, count: usize) -> (taken: Result<&'a [u8], Error>)
        requires
            old(self).well_formed(),
        ensures
            final(self).well_formed(),
            match taken {
                Ok(value) => reads(
                    well_shaped(take(old(self).rest(), count as nat)),
                    value@,
                    final(self).rest(),
                ),
                Err(error) => refuses(well_shaped(take(old(self).rest(), count as nat)), error)
                    && final(self).rest() == old(self).rest(),
            },
    {
        match self.reader.take(count) {
            Ok(value) => Ok(value),
            Err(_) => Err(Error::Malformed),
        }
    }

    pub(crate) fn take_u8(&mut self) -> (taken: Result<u8, Error>)
        requires
            old(self).well_formed(),
        ensures
            final(self).well_formed(),
            match taken {
                Ok(value) => reads(
                    well_shaped(take_byte(old(self).rest())),
                    value,
                    final(self).rest(),
                ),
                Err(error) => refuses(well_shaped(take_byte(old(self).rest())), error)
                    && final(self).rest() == old(self).rest(),
            },
    {
        match self.reader.take_u8() {
            Ok(value) => Ok(value),
            Err(_) => Err(Error::Malformed),
        }
    }

    pub(crate) fn take_u32(&mut self) -> (taken: Result<u32, Error>)
        requires
            old(self).well_formed(),
        ensures
            final(self).well_formed(),
            match taken {
                Ok(value) => reads(
                    well_shaped(take_u32(old(self).rest())),
                    value,
                    final(self).rest(),
                ),
                Err(error) => refuses(well_shaped(take_u32(old(self).rest())), error)
                    && final(self).rest() == old(self).rest(),
            },
    {
        match self.reader.take_u32() {
            Ok(value) => Ok(value),
            Err(_) => Err(Error::Malformed),
        }
    }

    pub(crate) fn take_u64(&mut self) -> (taken: Result<u64, Error>)
        requires
            old(self).well_formed(),
        ensures
            final(self).well_formed(),
            match taken {
                Ok(value) => reads(take_u64(old(self).rest()), value, final(self).rest()),
                Err(error) => refuses(take_u64(old(self).rest()), error)
                    && final(self).rest() == old(self).rest(),
            },
    {
        let slice = self.take(8)?;
        proof {
            lemma_magnitude_fits(slice@);
            lemma_spans();
        }
        Ok(read_big_endian(slice) as u64)
    }

    pub(crate) fn take_bytes(&mut self) -> (taken: Result<Vec<u8>, Error>)
        requires
            old(self).well_formed(),
        ensures
            final(self).well_formed(),
            match taken {
                Ok(value) => reads(
                    well_shaped(take_block(old(self).rest())),
                    value@,
                    final(self).rest(),
                ),
                Err(error) => refuses(well_shaped(take_block(old(self).rest())), error),
            },
    {
        match self.reader.take_lenbytes() {
            Ok(value) => Ok(value),
            Err(_) => Err(Error::Malformed),
        }
    }

    pub(crate) fn take_text(&mut self) -> (taken: Result<String, Error>)
        requires
            old(self).well_formed(),
        ensures
            final(self).well_formed(),
            match taken {
                Ok(value) => reads(
                    well_shaped(take_text(old(self).rest())),
                    value@,
                    final(self).rest(),
                ),
                Err(error) => refuses(well_shaped(take_text(old(self).rest())), error),
            },
    {
        match self.reader.take_text() {
            Ok(value) => Ok(value),
            Err(_) => Err(Error::Malformed),
        }
    }

    pub(crate) fn take_encoded(&mut self) -> (taken: Result<Value, Error>)
        requires
            old(self).well_formed(),
        ensures
            final(self).well_formed(),
            match taken {
                Ok(value) => reads(take_encoded(old(self).rest()), value@, final(self).rest()),
                Err(error) => refuses(take_encoded(old(self).rest()), error),
            },
    {
        let bytes = self.take_bytes()?;
        match decode(bytes.as_slice()) {
            Ok(value) => Ok(value),
            Err(reason) => Err(Error::from(reason)),
        }
    }
}

}
