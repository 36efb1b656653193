//! What errors are made of.

use vstd::prelude::*;

use crate::decode::{DecodeError, ReadError};
use crate::encode::{out_of_bounds, EncodeError, WriteError};
use crate::frame::FrameError;
use crate::region::RegionError;

verus! {

/// An error of a source or a destination is carried as it is.
pub proof fn law_io_errors(io: std::io::Error, read: ReadError, write: WriteError, full: WriteError)
    requires
        call_ensures(<ReadError as From<std::io::Error>>::from, (io,), read),
        call_ensures(<WriteError as From<std::io::Error>>::from, (io,), write),
        call_ensures(out_of_bounds, (), full),
    ensures
        read == ReadError::Io(io),
        write == WriteError::Io(io),
        full is Custom,
        full->Custom_0@ == "Requested length out of bounds"@,
{
}

/// So is it by the errors of regions and frames.
pub proof fn law_read_write_errors(
    read: ReadError,
    write: WriteError,
    region_read: RegionError,
    region_write: RegionError,
    frame_read: FrameError,
    frame_write: FrameError,
)
    requires
        call_ensures(<RegionError as From<ReadError>>::from, (read,), region_read),
        call_ensures(<RegionError as From<WriteError>>::from, (write,), region_write),
        call_ensures(<FrameError as From<ReadError>>::from, (read,), frame_read),
        call_ensures(<FrameError as From<WriteError>>::from, (write,), frame_write),
    ensures
        region_read == RegionError::ReadFailure(read),
        region_write == RegionError::WriteFailure(write),
        frame_read == FrameError::ReadError(read),
        frame_write == FrameError::WriteError(write),
{
}

/// And those by the errors of encoding and decoding.
pub proof fn law_bearer_errors(
    region: RegionError,
    frame: FrameError,
    encode_region: EncodeError,
    encode_frame: EncodeError,
    decode_region: DecodeError,
    decode_frame: DecodeError,
)
    requires
        call_ensures(<EncodeError as From<RegionError>>::from, (region,), encode_region),
        call_ensures(<EncodeError as From<FrameError>>::from, (frame,), encode_frame),
        call_ensures(<DecodeError as From<RegionError>>::from, (region,), decode_region),
        call_ensures(<DecodeError as From<FrameError>>::from, (frame,), decode_frame),
    ensures
        encode_region == EncodeError::BearerError(region),
        encode_frame == EncodeError::FrameError(frame),
        decode_region == DecodeError::BearerError(region),
        decode_frame == DecodeError::FrameError(frame),
{
}

} // verus!
