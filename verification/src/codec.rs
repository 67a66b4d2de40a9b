//! Boundary to the frame encoder/decoder collaborator. The engine treats a
//! frame as opaque: it is encoded into bytes before transmission and parsed
//! back out of the receive window, and the engine's own guarantees are about
//! the bytes, their order and their accounting.

use vstd::prelude::*;
use amq_protocol::frame::AMQPFrame;
use crate::status::Error;

verus! {

#[verifier::external_type_specification]
#[verifier::external_body]
pub struct ExAMQPFrame(AMQPFrame);

/// The bytes that the collaborator's serializer produces for a frame: a
/// function of the frame alone.
pub uninterp spec fn frame_encoding(frame: AMQPFrame) -> Seq<u8>;

/// Outcome of attempting to parse one frame from the front of a byte window.
pub enum Parsed {
    /// A complete frame, with the number of input bytes left unread behind it.
    Frame(AMQPFrame, usize),
    /// More bytes are needed; not an error.
    Incomplete,
    /// The bytes cannot be a frame; fatal.
    Fatal,
}

/// The collaborator's parser's verdict on a byte window: a function of the
/// bytes alone.
pub uninterp spec fn frame_parse(input: Seq<u8>) -> Parsed;

/// Relies on amq_protocol::frame::gen_frame, driven by cookie_factory::gen
/// into a fresh Vec: the encoded bytes are a function of the frame alone, and
/// every variant writes at least one byte (each emits its envelope).
#[verifier::external_body]
pub fn encode_frame(frame: &AMQPFrame) -> (r: Result<Vec<u8>, Error>)
    ensures
        r matches Ok(v) ==> v@ == frame_encoding(*frame) && v@.len() >= 1,
        r matches Err(e) ==> e == Error::SerialisationError,
{
    match cookie_factory::gen(amq_protocol::frame::gen_frame(frame), Vec::new()) {
        Ok((bytes, _)) => Ok(bytes),
        Err(_) => Err(Error::SerialisationError),
    }
}

/// Relies on amq_protocol::frame::parse_frame on a byte slice: the verdict is
/// a function of the bytes alone; on success the parser has read at least one
/// byte, so the remainder is strictly shorter than the input; an incomplete
/// parse is told apart from a fatal one by nom's Err::is_incomplete.
#[verifier::external_body]
pub fn parse_frame_bytes(input: &Vec<u8>) -> (r: Parsed)
    ensures
        r == frame_parse(input@),
        r matches Parsed::Frame(f, rest) ==> rest < input@.len(),
{
    match amq_protocol::frame::parse_frame(input.as_slice()) {
        Ok((rest, frame)) => Parsed::Frame(frame, rest.len()),
        Err(e) => {
            if e.is_incomplete() {
                Parsed::Incomplete
            } else {
                Parsed::Fatal
            }
        },
    }
}

} // verus!
