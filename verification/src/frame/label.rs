//! Labels of frames.

use vstd::prelude::*;
use vstd::slice::slice_subrange;
use vstd::string::{is_ascii, is_ascii_spec_bytes, StringSliceAdditionalSpecFns};
use vstd::utf8::{
    encode_utf8,
    encode_utf8_valid_utf8,
    is_ascii_chars,
    is_ascii_chars_encode_utf8,
    valid_utf8,
};

use super::FrameError;
use crate::decode::{ReadError, Reader};
use crate::encode::{out_of_bounds, write_to_uninit, WriteError, Writer};

verus! {

/// Whether all of `bytes` are ASCII characters.
pub open spec fn ascii_bytes(bytes: Seq<u8>) -> bool {
    forall|i: int| 0 <= i < bytes.len() ==> #[trigger] bytes[i] < 0x80
}

/// Whether `bytes` can make a label.
pub open spec fn label_bytes(bytes: Seq<u8>) -> bool {
    ascii_bytes(bytes) && bytes.len() <= 255
}

/// An owned frame metadata label, representing a static `ASCII`-only string
/// of `255` bytes at most.
#[derive(Debug, Copy, Clone, PartialEq)]
pub struct Label {
    buf: [u8; 255],
    len: u8,
}

impl Label {
    #[verifier::type_invariant]
    spec fn inv(&self) -> bool {
        label_bytes(self.bytes())
    }

    /// The characters of this label.
    pub closed spec fn bytes(&self) -> Seq<u8> {
        self.buf@.take(self.len as int)
    }

    /// Creates a new [`Label`] from `str` string slice.
    ///
    /// `None` returned in case of non-`ASCII` input or length which is
    /// greater than `255`.
    pub fn new(str: &str) -> (r: Option<Self>)
        ensures
            r is Some <==> is_ascii(str) && str@.len() <= 255,
            r matches Some(label) ==> label.bytes() == str.spec_bytes(),
    {
        if !str.is_ascii() {
            return None;
        }
        proof {
            is_ascii_spec_bytes(str);
        }
        Label::from_ascii(str.as_bytes())
    }

    /// Creates a new [`Label`] from ASCII characters.
    ///
    /// `None` returned in case of other bytes or length which is greater than `255`.
    fn from_ascii(bytes: &[u8]) -> (r: Option<Self>)
        ensures
            r is Some <==> label_bytes(bytes@),
            r matches Some(label) ==> label.bytes() == bytes@,
    {
        if bytes.len() > 255 {
            return None;
        }
        let mut buf: [u8; 255] = [0u8;255];
        let mut at: usize = 0;
        while at < bytes.len()
            invariant
                at <= bytes@.len() <= 255,
                buf@.take(at as int) == bytes@.take(at as int),
                ascii_bytes(bytes@.take(at as int)),
            decreases bytes@.len() - at,
        {
            if bytes[at] >= 0x80 {
                assert(!ascii_bytes(bytes@)) by {
                    assert(bytes@[at as int] >= 0x80);
                }
                return None;
            }
            let ghost before = buf@;
            buf[at] = bytes[at];
            assert(buf@.take(at + 1) =~= before.take(at as int).push(bytes@[at as int]));
            assert(bytes@.take(at + 1) =~= bytes@.take(at as int).push(bytes@[at as int]));
            at = at + 1;
        }
        assert(bytes@.take(bytes@.len() as int) =~= bytes@);
        Some(Self { buf, len: bytes.len() as u8 })
    }

    /// Extracts a slice containing entire label.
    pub fn as_str(&self) -> (r: &str)
        ensures
            r.spec_bytes() == self.bytes(),
    {
        proof {
            use_type_invariant(self);
            lemma_ascii_valid(self.bytes());
        }
        match str_from_utf8(self.as_bytes()) {
            Some(str) => str,
            None => "",
        }
    }

    /// Extracts a byte array representing this label.
    pub fn as_bytes(&self) -> (r: &[u8])
        ensures
            r@ == self.bytes(),
            label_bytes(r@),
    {
        proof {
            use_type_invariant(self);
        }
        slice_subrange(self.buf.as_slice(), 0, self.len as usize)
    }

    /// Returns length of this label.
    pub fn len(&self) -> (r: usize)
        ensures
            r == self.bytes().len(),
            r <= 255,
    {
        proof {
            use_type_invariant(self);
        }
        self.len as usize
    }

    /// Checks if this label is empty.
    pub fn is_empty(&self) -> (r: bool)
        ensures
            r == (self.bytes().len() == 0),
    {
        self.len == 0
    }
}

/// Calls `core::str::from_utf8`, which succeeds if and only if the bytes are valid UTF-8,
/// in which case they are the representation of the string.
#[verifier::external_body]
fn str_from_utf8(bytes: &[u8]) -> (r: Option<&str>)
    ensures
        r is Some <==> valid_utf8(bytes@),
        r matches Some(str) ==> str.spec_bytes() == bytes@,
{
    core::str::from_utf8(bytes).ok()
}

/// ASCII characters are valid UTF-8.
proof fn lemma_ascii_valid(bytes: Seq<u8>)
    requires
        ascii_bytes(bytes),
    ensures
        valid_utf8(bytes),
{
    let chars = Seq::new(bytes.len(), |i: int| bytes[i] as char);
    assert(is_ascii_chars(chars));
    is_ascii_chars_encode_utf8(chars);
    assert(encode_utf8(chars) =~= bytes);
    encode_utf8_valid_utf8(chars);
}

/// Serialized form of a label: its length, followed by its characters.
pub open spec fn label_form(label: Seq<u8>) -> Seq<u8> {
    seq![label.len() as u8] + label
}

/// Interprets the start of `bytes` as a label, giving what is left besides.
pub open spec fn label_decoding(bytes: Seq<u8>) -> (Result<Seq<u8>, FrameError>, Seq<u8>) {
    if bytes.len() == 0 {
        (Err(FrameError::ReadError(ReadError::OutOfBounds)), bytes)
    } else {
        let len = bytes[0] as int;
        let rest = bytes.skip(1);
        if rest.len() < len {
            (Err(FrameError::MalformedLabel), rest)
        } else if !ascii_bytes(rest.take(len)) {
            (Err(FrameError::NonAsciiLabel), rest)
        } else {
            (Ok(rest.take(len)), rest.skip(len))
        }
    }
}

/// A label read back from its serialized form is the same label, whatever follows it.
pub proof fn law_label_round_trip(label: Seq<u8>, rest: Seq<u8>)
    requires
        label_bytes(label),
    ensures
        label_decoding(label_form(label) + rest) == (Ok::<Seq<u8>, FrameError>(label), rest),
{
    let after = (label_form(label) + rest).skip(1);
    assert(after.take(label.len() as int) =~= label);
    assert(after.skip(label.len() as int) =~= rest);
}

impl Label {
    /// Deserializes a label from the provided [`Reader`].
    pub fn decode_from_reader<R: Reader>(src: &mut R) -> (r: Result<Self, FrameError>)
        ensures
            final(src).faultless() == old(src).faultless(),
            match r {
                Ok(label) => label_decoding(old(src).bytes()) == (
                    Ok::<Seq<u8>, FrameError>(label.bytes()),
                    final(src).bytes(),
                ),
                Err(e) => {
                    ||| label_decoding(old(src).bytes()) == (
                        Err::<Seq<u8>, FrameError>(e),
                        final(src).bytes(),
                    )
                    ||| !old(src).faultless() && (e is ReadError || e is MalformedLabel)
                },
            },
    {
        let len: usize = match src.read_borrow_const::<1>() {
            Ok(bytes) => bytes[0] as usize,
            Err(e) => return Err(FrameError::ReadError(e)),
        };
        src.advance(1);
        let label = match src.read_borrow(len) {
            Ok(bytes) => Label::from_ascii(bytes),
            Err(_) => return Err(FrameError::MalformedLabel),
        };
        match label {
            Some(label) => {
                src.advance(len);
                Ok(label)
            },
            None => Err(FrameError::NonAsciiLabel),
        }
    }

    /// Serializes this label into the provided [`Writer`].
    pub fn encode_into_writer<W: Writer>(&self, dst: &mut W) -> (r: Result<(), FrameError>)
        ensures
            (*final(dst)).recorded() == (*old(dst)).recorded(),
            match r {
                Ok(_) => {
                    &&& label_bytes(self.bytes())
                    &&& old(dst).fits(self.bytes().len() + 1)
                    &&& (*old(dst)).recorded() ==> (*final(dst)).written() == (*old(dst)).written()
                        + label_form(self.bytes())
                    &&& forall|m: nat| #[trigger]
                        (*final(dst)).fits(m) == (*old(dst)).fits(self.bytes().len() + 1 + m)
                },
                Err(e) => {
                    &&& e matches FrameError::WriteError(WriteError::Custom(_))
                    &&& !old(dst).fits(self.bytes().len() + 1)
                    &&& (*final(dst)).written() == (*old(dst)).written()
                },
            },
    {
        let len: usize = self.len() + 1;
        let mut arena = match dst.write_mut(len) {
            Some(arena) => arena,
            None => return Err(FrameError::WriteError(out_of_bounds())),
        };
        let mut bytes: Vec<u8> = Vec::with_capacity(len);
        bytes.push(self.len);
        bytes.extend_from_slice(self.as_bytes());
        write_to_uninit(bytes.as_slice(), arena.as_mut_slice());
        dst.assume_init(arena.as_slice(), len);
        proof {
            assert(bytes@ =~= label_form(self.bytes()));
            assert(arena@.take(len as int) =~= bytes@);
        }
        Ok(())
    }
}

impl Default for Label {
    fn default() -> (r: Self)
        ensures
            r.bytes() == Seq::<u8>::empty(),
    {
        let r = Self { buf: [0u8;255], len: 0 };
        assert(r.bytes() =~= Seq::empty());
        r
    }
}

impl TryFrom<&str> for Label {
    type Error = ();

    fn try_from(value: &str) -> (r: Result<Self, ()>)
        ensures
            r is Ok <==> is_ascii(value) && value@.len() <= 255,
            r matches Ok(label) ==> label.bytes() == value.spec_bytes(),
    {
        match Self::new(value) {
            Some(label) => Ok(label),
            None => Err(()),
        }
    }
}

impl vstd::std_specs::convert::TryFromSpecImpl<&str> for Label {
    open spec fn obeys_try_from_spec() -> bool {
        false
    }

    open spec fn try_from_spec(value: &str) -> Result<Self, ()> {
        Err(())
    }
}

impl core::ops::Deref for Label {
    type Target = str;

    fn deref(&self) -> (r: &str)
        ensures
            r.spec_bytes() == self.bytes(),
    {
        self.as_str()
    }
}

} // verus!
