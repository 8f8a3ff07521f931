//! The frame decoder boundary.
//!
//! A connection's payloads are compressed audio frames. Decoding is done by
//! the `minimp3` crate; its decoder is opaque to the verifier, so the two
//! calls the library makes stand behind trusted wrappers, and everything that
//! consumes a decoded block takes it as a plain `Vec<i16>` argument.

use vstd::prelude::*;

verus! {

/// Error returned when a payload is not a valid or complete frame.
///
/// The frame in question is dropped and the buffer it was meant for is left
/// unchanged; decoding is never fatal to a connection.
#[derive(Debug, Clone, Copy, PartialEq, Eq, Structural)]
pub struct DecodeError;

/// One stateful decoder per connection, fed one payload at a time.
pub type FrameDecoder = minimp3::Decoder<std::io::Cursor<Vec<u8>>>;

#[verifier::external_type_specification]
#[verifier::external_body]
#[verifier::reject_recursive_types(R)]
pub struct ExDecoder<R>(minimp3::Decoder<R>);

#[verifier::external_type_specification]
#[verifier::external_body]
#[verifier::reject_recursive_types(T)]
pub struct ExCursor<T>(std::io::Cursor<T>);

/// Relies on `minimp3::Decoder::new`: builds a fresh decoder over an empty
/// input; nothing is stated of the opaque result.
#[verifier::external_body]
pub(crate) fn new_decoder() -> FrameDecoder {
    minimp3::Decoder::new(std::io::Cursor::new(Vec::new()))
}

/// Relies on `minimp3::Decoder::next_frame`: hands the payload to the
/// decoder and extracts at most one frame of interleaved `i16` samples.
/// Whether a payload decodes, and to which samples, depends on the decoder's
/// internal codec state, so nothing is stated of the result; every caller
/// handles both outcomes and any sample block.
#[verifier::external_body]
pub(crate) fn decode_frame(decoder: &mut FrameDecoder, payload: Vec<u8>) -> (r: Result<
    Vec<i16>,
    DecodeError,
>) {
    *decoder.reader_mut() = std::io::Cursor::new(payload);
    match decoder.next_frame() {
        Ok(frame) => Ok(frame.data),
        Err(_) => Err(DecodeError),
    }
}

} // verus!
