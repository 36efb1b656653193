# barrique

A schema-based binary serialization format featuring compression, metadata and streaming,
written and proved correct in Verus.

Data is stored in regions of up to 64 KiB - 1 raw bytes, each of which holds a header and
an LZ4 compressed body. A *stream* is a sequence of regions, a *frame* is a stream with
a leading magic number and metadata.

## Layout

- `src/codec` - the byte representation of common types
- `src/encode.rs`, `src/decode.rs` - encoders and decoders, their destinations and sources
- `src/region` - regions, the buffers they pass through and the switches between them
- `src/lz4.rs` - streamed compression
- `src/frame` - frames, their metadata and labels
- `src/cursor.rs` - destinations and sources which keep track of a position
- `src/derive` - plans of derived implementations
- `src/stream.rs`, `src/laws.rs` - models of streams and what holds of them
- `app` - adapters for `std::io`, errors with messages, types the library does not hold and
  the rendering of derived implementations

## What is proved

The contract of every function says what it returns and changes, by the mathematical
model of the types involved. On top of that the laws state, among others, that

- a value written to a stream or a frame is decoded to the same value, along with the label
  and the timestamp of the frame,
- values written one after another are decoded one after another, wherever the regions
  between them end,
- a decoder refuses a stream whose hashes are made with another seed,
- encoding succeeds if no chunk exceeds a region and the destination has the room asked for,
- a stream whose regions but the last are full does not exceed the size announced by
  `max_encoded_size`,
- the plans of derived implementations decode what they encode to the values of the fields,
  skipped ones being made up, and refuse a tag without a variant. That `app` renders a plan
  as the code it stands for is not proved.

The body of a region of nearly 64 KiB which can not be compressed may be longer than the
length field of its header can tell. The field then holds the lower two bytes of the length,
and the region does not come back. Regions of up to 65264 bytes always do.

## What is trusted

Compression and hashing are done by `lz4_flex` and `twox-hash`. `lz4_flex` is used in place
of bindings to the C library because those can be called by `unsafe` code only, which the
library has none of; the block format is the same. What is believed of the two crates, and
of a few conversions of the standard library, stands in the contracts of the functions
marked `external_body` and in `assume_specification` items.
