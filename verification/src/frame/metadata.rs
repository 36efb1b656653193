//! Metadata of frames.

use vstd::prelude::*;
use vstd::slice::slice_subrange;

use super::label::{label_bytes, label_decoding, label_form, law_label_round_trip, Label};
use super::FrameError;
use crate::decode::{ReadError, Reader};
use crate::encode::{out_of_bounds, write_to_uninit, WriteError, Writer};
use crate::little_endian::{
    get_le,
    le_bytes,
    le_value,
    lemma_le_bytes_len,
    lemma_le_value_of_bytes,
    lemma_span_values,
    put_le,
};

verus! {

/// Frame magic number.
pub const MAGIC_NUM: u32 = 0x96EB_CEA9;

/// Returns magic number as bytes.
pub fn magic_num_bytes() -> (r: Vec<u8>)
    ensures
        r@ == le_bytes(MAGIC_NUM as nat, 4),
        r@.len() == 4,
{
    proof {
        lemma_le_bytes_len(MAGIC_NUM as nat, 4);
    }
    put_le(MAGIC_NUM as u128, 4)
}

/// Verifies `bytes` to represent [`MAGIC_NUM`].
pub fn is_magic_num_bytes(bytes: [u8; 4]) -> (r: bool)
    ensures
        r == (le_value(bytes@) == MAGIC_NUM),
{
    get_le(bytes.as_slice()) == MAGIC_NUM as u128
}

/// Mask of seeded region hash flag.
pub const MASK_SEEDED: u8 = 0b1000_0000;

/// Mask of timestamp inclusion flag.
pub const MASK_TIMESTAMP: u8 = 0b0100_0000;

/// The frame descriptor: flags and the metadata values they tell the presence of.
///
/// Its byte format is `[Flags; 1][?Timestamp; 8]`.
#[derive(Copy, Clone, Debug, PartialEq, Eq, Structural)]
pub struct FrameDescriptor {
    /// Flag indicating that region hash is generated with seed.
    pub seeded: bool,
    /// 8 byte generic timestamp included within descriptor header byte span.
    pub timestamp: Option<u64>,
}

/// The byte representing the flags.
pub open spec fn flags(descriptor: FrameDescriptor) -> u8 {
    (if descriptor.seeded {
        MASK_SEEDED
    } else {
        0
    }) | (if descriptor.timestamp is Some {
        MASK_TIMESTAMP
    } else {
        0
    })
}

/// Interprets the start of `bytes` as a descriptor.
pub open spec fn parse_descriptor(bytes: Seq<u8>) -> Option<FrameDescriptor> {
    let seeded = bytes[0] & MASK_SEEDED != 0;
    if bytes[0] & MASK_TIMESTAMP == 0 {
        Some(FrameDescriptor { seeded, timestamp: None })
    } else if bytes.len() < 9 {
        None
    } else {
        Some(
            FrameDescriptor { seeded, timestamp: Some(le_value(bytes.subrange(1, 9)) as u64) },
        )
    }
}

impl FrameDescriptor {
    /// The serialized form.
    pub open spec fn bytes(self) -> Seq<u8> {
        seq![flags(self)] + match self.timestamp {
            Some(timestamp) => le_bytes(timestamp as nat, 8),
            None => Seq::empty(),
        }
    }

    /// Creates a new [`FrameDescriptor`] from the provided source slice.
    ///
    /// `None` returned if `src` slice has insufficient length to deserialize
    /// variables involved.
    pub fn from_bytes(src: &[u8]) -> (r: Option<Self>)
        requires
            src@.len() > 0,
        ensures
            r == parse_descriptor(src@),
    {
        let byte: u8 = src[0];
        let timestamp = if byte & MASK_TIMESTAMP != 0 {
            if src.len() < 9 {
                return None;
            }
            proof {
                lemma_span_values();
            }
            Some(get_le(slice_subrange(src, 1, 9)) as u64)
        } else {
            None
        };
        Some(Self { seeded: byte & MASK_SEEDED != 0, timestamp })
    }

    /// Serializes this frame descriptor into `dst` buffer.
    ///
    /// `None` returned if the destination buffer provided has insufficient length
    /// to serialize variables involved.
    pub fn into_bytes(self, dst: &mut [u8]) -> (r: Option<()>)
        requires
            old(dst)@.len() > 0,
        ensures
            r is Some <==> self.bytes().len() <= old(dst)@.len(),
            final(dst)@ == (if r is Some {
                self.bytes() + old(dst)@.skip(self.bytes().len() as int)
            } else {
                old(dst)@
            }),
    {
        let mut byte: u8 = 0;
        if self.seeded {
            byte = byte | MASK_SEEDED;
        }
        let mut bytes: Vec<u8> = Vec::with_capacity(9);
        match self.timestamp {
            Some(timestamp) => {
                assert(0u8 | MASK_SEEDED == MASK_SEEDED) by (bit_vector);
                byte = byte | MASK_TIMESTAMP;
                let mut timestamp_bytes = put_le(timestamp as u128, 8);
                bytes.push(byte);
                bytes.append(&mut timestamp_bytes);
            },
            None => {
                assert(byte == byte | 0) by (bit_vector);
                assert(0u8 | MASK_SEEDED == MASK_SEEDED) by (bit_vector);
                bytes.push(byte);
            },
        }
        assert(bytes@ =~= self.bytes());
        if dst.len() < bytes.len() {
            return None;
        }
        write_to_uninit(bytes.as_slice(), dst);
        Some(())
    }

    /// Returns the length of this [`FrameDescriptor`] byte representation.
    pub fn len(&self) -> (r: usize)
        ensures
            r == self.bytes().len(),
            1 <= r <= 9,
    {
        match self.timestamp {
            Some(timestamp) => {
                proof {
                    lemma_le_bytes_len(timestamp as nat, 8);
                }
                9
            },
            None => 1,
        }
    }

    /// Returns the maximum possible length of [`FrameDescriptor`] byte representation.
    pub fn max_len() -> (r: usize)
        ensures
            r == 9,
    {
        9
    }
}

impl Default for FrameDescriptor {
    fn default() -> (r: Self)
        ensures
            !r.seeded,
            r.timestamp is None,
    {
        Self { seeded: false, timestamp: None }
    }
}

/// A descriptor read back from its serialized form is the same descriptor, whatever
/// follows it.
pub proof fn law_descriptor_round_trip(descriptor: FrameDescriptor, rest: Seq<u8>)
    ensures
        1 <= descriptor.bytes().len() <= 9,
        parse_descriptor(descriptor.bytes() + rest) == Some(descriptor),
{
    let bytes = descriptor.bytes() + rest;
    let byte = flags(descriptor);
    assert(bytes[0] == byte);
    assert((0x80u8 | 0x40u8) & 0x80u8 != 0 && (0x80u8 | 0x40u8) & 0x40u8 != 0 && (0x80u8 | 0u8)
        & 0x80u8 != 0 && (0x80u8 | 0u8) & 0x40u8 == 0 && (0u8 | 0x40u8) & 0x80u8 == 0 && (0u8
        | 0x40u8) & 0x40u8 != 0 && (0u8 | 0u8) & 0x80u8 == 0 && (0u8 | 0u8) & 0x40u8 == 0)
        by (bit_vector);
    if let Some(timestamp) = descriptor.timestamp {
        lemma_span_values();
        lemma_le_value_of_bytes(timestamp as nat, 8);
        assert(bytes.subrange(1, 9) =~= le_bytes(timestamp as nat, 8));
    }
}

/// In-memory representation of frame metadata header.
///
/// Its byte format is `[FrameDescriptor; 1-9][LabelLength; 1][Label; 0-255]`, after
/// the leading magic number.
#[derive(Debug, Copy, Clone)]
pub struct FrameMetadata {
    pub frame_descriptor: FrameDescriptor,
    pub label: Label,
}

/// What metadata says, its label given by the characters.
pub struct Metadata {
    pub descriptor: FrameDescriptor,
    pub label: Seq<u8>,
}

/// Serialized form of a descriptor with the leading magic number.
pub open spec fn metadata_head(descriptor: FrameDescriptor) -> Seq<u8> {
    le_bytes(MAGIC_NUM as nat, 4) + descriptor.bytes()
}

/// Serialized form of metadata with the leading magic number.
pub open spec fn metadata_form(metadata: Metadata) -> Seq<u8> {
    metadata_head(metadata.descriptor) + label_form(metadata.label)
}

/// Interprets the start of `bytes` as a magic number and metadata, giving what is left
/// besides.
///
/// The longest possible descriptor is requested in any case, as the stream that follows
/// is long enough.
pub open spec fn metadata_decoding(bytes: Seq<u8>) -> (Result<Metadata, FrameError>, Seq<u8>) {
    let rest = bytes.skip(4);
    if bytes.len() < 4 {
        (Err(FrameError::ReadError(ReadError::OutOfBounds)), bytes)
    } else if le_value(bytes.take(4)) != MAGIC_NUM {
        (Err(FrameError::NoMagicNumber), bytes)
    } else if rest.len() < 9 {
        (Err(FrameError::ReadError(ReadError::OutOfBounds)), rest)
    } else {
        let descriptor = parse_descriptor(rest.take(9))->0;
        match label_decoding(rest.skip(descriptor.bytes().len() as int)) {
            (Ok(label), left) => (Ok(Metadata { descriptor, label }), left),
            (Err(e), left) => (Err(e), left),
        }
    }
}

impl FrameMetadata {
    /// What this metadata says.
    pub open spec fn metadata(&self) -> Metadata {
        Metadata { descriptor: self.frame_descriptor, label: self.label.bytes() }
    }

    /// Creates a new [`FrameMetadata`] from the provided [`Reader`].
    pub fn decode_from_reader<R: Reader>(src: &mut R) -> (r: Result<Self, FrameError>)
        ensures
            final(src).faultless() == old(src).faultless(),
            match r {
                Ok(metadata) => metadata_decoding(old(src).bytes()) == (
                    Ok::<Metadata, FrameError>(metadata.metadata()),
                    final(src).bytes(),
                ),
                Err(e) => {
                    ||| metadata_decoding(old(src).bytes()) == (
                        Err::<Metadata, FrameError>(e),
                        final(src).bytes(),
                    )
                    ||| !old(src).faultless() && (e is ReadError || e is MalformedLabel)
                },
            },
    {
        let ghost bytes = src.bytes();
        let leading_bytes = match src.read_borrow_const::<4>() {
            Ok(leading_bytes) => leading_bytes,
            Err(e) => return Err(FrameError::ReadError(e)),
        };
        if !is_magic_num_bytes(leading_bytes) {
            return Err(FrameError::NoMagicNumber);
        }
        src.advance(4);

        let parsed = match src.read_borrow(FrameDescriptor::max_len()) {
            Ok(descriptor_bytes) => FrameDescriptor::from_bytes(descriptor_bytes),
            Err(e) => return Err(FrameError::ReadError(e)),
        };
        match parsed {
            Some(frame_descriptor) => {
                src.advance(frame_descriptor.len());
                match Label::decode_from_reader(src) {
                    Ok(label) => Ok(Self { frame_descriptor, label }),
                    Err(e) => Err(e),
                }
            },
            None => {
                assert(false);
                Err(FrameError::NoMagicNumber)
            },
        }
    }

    /// Serializes this frame metadata into the provided [`Writer`].
    ///
    /// If there is room for the descriptor but not for the label, the descriptor stays
    /// written.
    pub fn encode_into_writer<W: Writer>(self, dst: &mut W) -> (r: Result<(), FrameError>)
        ensures
            (*final(dst)).recorded() == (*old(dst)).recorded(),
            match r {
                Ok(_) => {
                    &&& label_bytes(self.label.bytes())
                    &&& (*old(dst)).recorded() ==> (*final(dst)).written() == (*old(dst)).written()
                        + metadata_form(self.metadata())
                    &&& forall|m: nat| #[trigger]
                        (*final(dst)).fits(m) == (*old(dst)).fits(
                            metadata_form(self.metadata()).len() + m,
                        )
                },
                Err(e) => {
                    let head = metadata_head(self.frame_descriptor);
                    &&& e matches FrameError::WriteError(WriteError::Custom(_))
                    &&& if (*old(dst)).fits(head.len()) {
                        &&& (*old(dst)).recorded() ==> (*final(dst)).written() == (*old(
                            dst,
                        )).written() + head
                        &&& !(*old(dst)).fits(metadata_form(self.metadata()).len())
                    } else {
                        (*final(dst)).written() == (*old(dst)).written()
                    }
                },
            },
    {
        let ghost before = (*dst).written();
        let len: usize = 4 + self.frame_descriptor.len();
        let mut arena = match dst.write_mut(len) {
            Some(arena) => arena,
            None => {
                proof {
                    lemma_le_bytes_len(MAGIC_NUM as nat, 4);
                }
                return Err(FrameError::WriteError(out_of_bounds()));
            },
        };
        let magic = magic_num_bytes();
        let (head, tail) = arena.as_mut_slice().split_at_mut(4);
        write_to_uninit(magic.as_slice(), head);
        let _ = self.frame_descriptor.into_bytes(tail);
        dst.assume_init(arena.as_slice(), len);
        proof {
            let head = metadata_head(self.frame_descriptor);
            assert(arena@.take(len as int) =~= head);
            assert(head + label_form(self.label.bytes()) =~= metadata_form(self.metadata()));
            assert(before + head + label_form(self.label.bytes()) =~= before + metadata_form(
                self.metadata(),
            ));
        }
        self.label.encode_into_writer(dst)
    }
}

impl Default for FrameMetadata {
    fn default() -> (r: Self)
        ensures
            r.metadata() == (Metadata {
                descriptor: FrameDescriptor { seeded: false, timestamp: None },
                label: Seq::empty(),
            }),
    {
        Self { frame_descriptor: Default::default(), label: Default::default() }
    }
}

/// Metadata read back from its serialized form is the same metadata, whatever follows it,
/// unless that is so short that the longest descriptor can not be requested. No stream
/// is.
pub proof fn law_metadata_round_trip(metadata: Metadata, rest: Seq<u8>)
    requires
        label_bytes(metadata.label),
        rest.len() >= 7,
    ensures
        metadata_decoding(metadata_form(metadata) + rest) == (
            Ok::<Metadata, FrameError>(metadata),
            rest,
        ),
{
    let bytes = metadata_form(metadata) + rest;
    let descriptor = metadata.descriptor.bytes();
    let label = label_form(metadata.label);
    lemma_span_values();
    lemma_le_value_of_bytes(MAGIC_NUM as nat, 4);
    assert(bytes.take(4) =~= le_bytes(MAGIC_NUM as nat, 4));
    let after = bytes.skip(4);
    assert(after =~= descriptor + (label + rest));
    law_descriptor_round_trip(metadata.descriptor, (label + rest).take(9 - descriptor.len()));
    assert(after.take(9) =~= descriptor + (label + rest).take(9 - descriptor.len()));
    let left = after.skip(descriptor.len() as int);
    assert(left =~= label + rest);
    law_label_round_trip(metadata.label, rest);
}

} // verus!
