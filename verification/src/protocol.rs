//! The wire codec: each protocol message travels as a frame made of a 4-byte
//! big-endian payload length followed by the payload, a tagged serialization
//! of one message variant. Multi-byte payload integers are little-endian; the
//! tag is a little-endian `u32`; strings and byte arrays are length-prefixed
//! with a little-endian `u64` and strings are UTF-8.

use vstd::prelude::*;
use vstd::bytes::{
    spec_u32_from_le_bytes, spec_u32_to_le_bytes, spec_u64_from_le_bytes, spec_u64_to_le_bytes,
    u32_from_le_bytes, u32_to_le_bytes, u64_from_le_bytes, u64_to_le_bytes,
    lemma_auto_spec_u32_to_from_le_bytes, lemma_auto_spec_u64_to_from_le_bytes,
};
use vstd::utf8::{decode_utf8, encode_utf8, valid_utf8};
use vstd::slice::{slice_subrange, slice_to_vec};
use vstd::string::StrSliceExecFns;

verus! {

/// One message of the transfer protocol.
#[derive(Debug, Clone, PartialEq, Eq)]
pub enum ProtocolMessage {
    RequestMetadata,
    Metadata { file_name: String, file_size: u64, chunk_size: u64 },
    RequestChunk { chunk_index: u64 },
    FileChunk { chunk_index: u64, data: Vec<u8> },
    TransferComplete,
}

/// Why a frame could not be decoded: the stream ended before a full frame
/// arrived, or the payload does not parse as a known message.
#[derive(Debug, Clone, Copy, PartialEq, Eq, Structural)]
pub enum DecodeError {
    ConnectionClosed,
    Malformed,
}

/// The mathematical model of a message: the same variants over `Seq` values.
pub enum MessageModel {
    RequestMetadata,
    Metadata { file_name: Seq<char>, file_size: u64, chunk_size: u64 },
    RequestChunk { chunk_index: u64 },
    FileChunk { chunk_index: u64, data: Seq<u8> },
    TransferComplete,
}

impl View for ProtocolMessage {
    type V = MessageModel;

    open spec fn view(&self) -> MessageModel {
        match self {
            ProtocolMessage::RequestMetadata => MessageModel::RequestMetadata,
            ProtocolMessage::Metadata { file_name, file_size, chunk_size } =>
                MessageModel::Metadata {
                    file_name: file_name@,
                    file_size: *file_size,
                    chunk_size: *chunk_size,
                },
            ProtocolMessage::RequestChunk { chunk_index } => MessageModel::RequestChunk {
                chunk_index: *chunk_index,
            },
            ProtocolMessage::FileChunk { chunk_index, data } => MessageModel::FileChunk {
                chunk_index: *chunk_index,
                data: data@,
            },
            ProtocolMessage::TransferComplete => MessageModel::TransferComplete,
        }
    }
}

/// Big-endian bytes of a `u32`, most significant byte first.
pub open spec fn spec_u32_to_be_bytes(x: u32) -> Seq<u8> {
    seq![
        ((x >> 24) & 0xff) as u8,
        ((x >> 16) & 0xff) as u8,
        ((x >> 8) & 0xff) as u8,
        (x & 0xff) as u8,
    ]
}

/// The `u32` read from four big-endian bytes.
pub open spec fn spec_u32_from_be_bytes(s: Seq<u8>) -> u32
    recommends
        s.len() == 4,
{
    (((s[0] as u32) << 24) | ((s[1] as u32) << 16) | ((s[2] as u32) << 8) | (s[3] as u32)) as u32
}

/// Reading four big-endian bytes back gives the `u32` they encode.
pub proof fn lemma_u32_be_bytes_round_trip(x: u32)
    ensures
        spec_u32_to_be_bytes(x).len() == 4,
        spec_u32_from_be_bytes(spec_u32_to_be_bytes(x)) == x,
{
    assert((((((x >> 24) & 0xff) as u8) as u32) << 24) | (((((x >> 16) & 0xff) as u8) as u32)
        << 16) | (((((x >> 8) & 0xff) as u8) as u32) << 8) | (((x & 0xff) as u8) as u32) == x)
        by (bit_vector);
}

/// Serialized payload of a message: a little-endian `u32` tag, then the
/// variant's fields; the file name as `u64`-length-prefixed UTF-8 bytes, the
/// chunk bytes as a `u64`-length-prefixed byte array, integers little-endian.
pub open spec fn spec_encode_payload(m: MessageModel) -> Seq<u8> {
    match m {
        MessageModel::RequestMetadata => spec_u32_to_le_bytes(0),
        MessageModel::Metadata { file_name, file_size, chunk_size } => {
            let nb = encode_utf8(file_name);
            spec_u32_to_le_bytes(1) + spec_u64_to_le_bytes(nb.len() as u64) + nb
                + spec_u64_to_le_bytes(file_size) + spec_u64_to_le_bytes(chunk_size)
        },
        MessageModel::RequestChunk { chunk_index } => spec_u32_to_le_bytes(2)
            + spec_u64_to_le_bytes(chunk_index),
        MessageModel::FileChunk { chunk_index, data } => spec_u32_to_le_bytes(3)
            + spec_u64_to_le_bytes(chunk_index) + spec_u64_to_le_bytes(data.len() as u64) + data,
        MessageModel::TransferComplete => spec_u32_to_le_bytes(4),
    }
}

/// A payload fits a frame when its length is expressible in the 4-byte prefix.
pub open spec fn payload_fits(m: MessageModel) -> bool {
    spec_encode_payload(m).len() <= u32::MAX
}

/// A whole frame: the payload's length as 4 big-endian bytes, then the payload.
pub open spec fn spec_encode_frame(m: MessageModel) -> Seq<u8> {
    spec_u32_to_be_bytes(spec_encode_payload(m).len() as u32) + spec_encode_payload(m)
}

/// Parses a payload back into a message model. `None` is a malformed payload:
/// a short buffer, an unknown tag, a length field that disagrees with the
/// buffer, trailing bytes, or a file name that is not UTF-8.
pub open spec fn spec_parse_payload(p: Seq<u8>) -> Option<MessageModel> {
    if p.len() < 4 {
        None
    } else {
        let tag = spec_u32_from_le_bytes(p.subrange(0, 4));
        let rest = p.subrange(4, p.len() as int);
        if tag == 0 {
            if rest.len() == 0 {
                Some(MessageModel::RequestMetadata)
            } else {
                None
            }
        } else if tag == 1 {
            if rest.len() < 8 {
                None
            } else {
                let nlen = spec_u64_from_le_bytes(rest.subrange(0, 8)) as int;
                if rest.len() == 24 + nlen {
                    let nb = rest.subrange(8, 8 + nlen);
                    if valid_utf8(nb) {
                        Some(
                            MessageModel::Metadata {
                                file_name: decode_utf8(nb),
                                file_size: spec_u64_from_le_bytes(
                                    rest.subrange(8 + nlen, 16 + nlen),
                                ),
                                chunk_size: spec_u64_from_le_bytes(
                                    rest.subrange(16 + nlen, 24 + nlen),
                                ),
                            },
                        )
                    } else {
                        None
                    }
                } else {
                    None
                }
            }
        } else if tag == 2 {
            if rest.len() == 8 {
                Some(MessageModel::RequestChunk { chunk_index: spec_u64_from_le_bytes(rest) })
            } else {
                None
            }
        } else if tag == 3 {
            if rest.len() < 16 {
                None
            } else {
                let dlen = spec_u64_from_le_bytes(rest.subrange(8, 16)) as int;
                if rest.len() == 16 + dlen {
                    Some(
                        MessageModel::FileChunk {
                            chunk_index: spec_u64_from_le_bytes(rest.subrange(0, 8)),
                            data: rest.subrange(16, 16 + dlen),
                        },
                    )
                } else {
                    None
                }
            }
        } else if tag == 4 {
            if rest.len() == 0 {
                Some(MessageModel::TransferComplete)
            } else {
                None
            }
        } else {
            None
        }
    }
}

/// Decodes one frame from the front of `b`. Fewer bytes than one full frame
/// is `ConnectionClosed` (the stream ended mid-frame); a full frame whose
/// payload does not parse is `Malformed`. Bytes past the frame are the
/// stream's next frames and are ignored.
pub open spec fn spec_decode_frame(b: Seq<u8>) -> Result<MessageModel, DecodeError> {
    if b.len() < 4 {
        Err(DecodeError::ConnectionClosed)
    } else {
        let n = spec_u32_from_be_bytes(b.subrange(0, 4)) as int;
        if b.len() - 4 < n {
            Err(DecodeError::ConnectionClosed)
        } else {
            match spec_parse_payload(b.subrange(4, 4 + n)) {
                Some(m) => Ok(m),
                None => Err(DecodeError::Malformed),
            }
        }
    }
}

/// Appends the little-endian bytes of `x` to `buf`.
fn push_u64_le(buf: &mut Vec<u8>, x: u64)
    ensures
        final(buf)@ == old(buf)@ + spec_u64_to_le_bytes(x),
{
    let mut b = u64_to_le_bytes(x);
    buf.append(&mut b);
}

impl ProtocolMessage {
    /// Encodes the message as one frame: the 4-byte big-endian payload length,
    /// then the tagged payload.
    pub fn framed_serialize(&self) -> (r: Vec<u8>)
        requires
            payload_fits(self@),
        ensures
            r@ == spec_encode_frame(self@),
    {
        let mut payload: Vec<u8> = Vec::new();
        match self {
            ProtocolMessage::RequestMetadata => {
                let mut t = u32_to_le_bytes(0);
                payload.append(&mut t);
            },
            ProtocolMessage::Metadata { file_name, file_size, chunk_size } => {
                let mut t = u32_to_le_bytes(1);
                payload.append(&mut t);
                let mut name_bytes = file_name.as_str().as_bytes_vec();
                push_u64_le(&mut payload, name_bytes.len() as u64);
                payload.append(&mut name_bytes);
                push_u64_le(&mut payload, *file_size);
                push_u64_le(&mut payload, *chunk_size);
            },
            ProtocolMessage::RequestChunk { chunk_index } => {
                let mut t = u32_to_le_bytes(2);
                payload.append(&mut t);
                push_u64_le(&mut payload, *chunk_index);
            },
            ProtocolMessage::FileChunk { chunk_index, data } => {
                let mut t = u32_to_le_bytes(3);
                payload.append(&mut t);
                push_u64_le(&mut payload, *chunk_index);
                push_u64_le(&mut payload, data.len() as u64);
                let mut d = slice_to_vec(data.as_slice());
                payload.append(&mut d);
            },
            ProtocolMessage::TransferComplete => {
                let mut t = u32_to_le_bytes(4);
                payload.append(&mut t);
            },
        }
        assert(payload@ == spec_encode_payload(self@));
        let n = payload.len() as u32;
        let mut r = u32_to_be_bytes_vec(n);
        r.append(&mut payload);
        r
    }
}

/// Frame round-trip law: a message whose payload fits a frame decodes, from
/// its own encoding, back to itself.
pub proof fn lemma_frame_round_trip(m: MessageModel)
    requires
        payload_fits(m),
    ensures
        spec_decode_frame(spec_encode_frame(m)) == Ok::<MessageModel, DecodeError>(m),
{
    lemma_auto_spec_u32_to_from_le_bytes();
    lemma_auto_spec_u64_to_from_le_bytes();
    let p = spec_encode_payload(m);
    let b = spec_encode_frame(m);
    lemma_u32_be_bytes_round_trip(p.len() as u32);
    assert(b.subrange(0, 4) =~= spec_u32_to_be_bytes(p.len() as u32));
    assert(b.subrange(4, 4 + p.len() as int) =~= p);
    let rest = p.subrange(4, p.len() as int);
    match m {
        MessageModel::RequestMetadata => {
            assert(p.subrange(0, 4) =~= spec_u32_to_le_bytes(0));
        },
        MessageModel::Metadata { file_name, file_size, chunk_size } => {
            let nb = encode_utf8(file_name);
            let nlen = nb.len() as int;
            assert(p.subrange(0, 4) =~= spec_u32_to_le_bytes(1));
            assert(rest.subrange(0, 8) =~= spec_u64_to_le_bytes(nb.len() as u64));
            assert(rest.subrange(8, 8 + nlen) =~= nb);
            assert(rest.subrange(8 + nlen, 16 + nlen) =~= spec_u64_to_le_bytes(file_size));
            assert(rest.subrange(16 + nlen, 24 + nlen) =~= spec_u64_to_le_bytes(chunk_size));
            vstd::utf8::encode_utf8_valid_utf8(file_name);
            vstd::utf8::encode_utf8_decode_utf8(file_name);
        },
        MessageModel::RequestChunk { chunk_index } => {
            assert(p.subrange(0, 4) =~= spec_u32_to_le_bytes(2));
            assert(rest =~= spec_u64_to_le_bytes(chunk_index));
        },
        MessageModel::FileChunk { chunk_index, data } => {
            let dlen = data.len() as int;
            assert(p.subrange(0, 4) =~= spec_u32_to_le_bytes(3));
            assert(rest.subrange(0, 8) =~= spec_u64_to_le_bytes(chunk_index));
            assert(rest.subrange(8, 16) =~= spec_u64_to_le_bytes(data.len() as u64));
            assert(rest.subrange(16, 16 + dlen) =~= data);
        },
        MessageModel::TransferComplete => {
            assert(p.subrange(0, 4) =~= spec_u32_to_le_bytes(4));
        },
    }
}

/// The fixed-size messages — both requests and the terminal signal — always
/// fit a frame; only `Metadata` and `FileChunk` carry unbounded payloads.
pub proof fn lemma_fixed_size_messages_fit(m: MessageModel)
    requires
        m is RequestMetadata || m is RequestChunk || m is TransferComplete,
    ensures
        payload_fits(m),
{
    lemma_auto_spec_u32_to_from_le_bytes();
    lemma_auto_spec_u64_to_from_le_bytes();
}

impl ProtocolMessage {
    /// True exactly when the message's payload length fits the frame's 4-byte
    /// prefix, the precondition of `framed_serialize`.
    pub fn fits_frame(&self) -> (r: bool)
        ensures
            r == payload_fits(self@),
    {
        proof {
            lemma_auto_spec_u32_to_from_le_bytes();
            lemma_auto_spec_u64_to_from_le_bytes();
        }
        match self {
            ProtocolMessage::RequestMetadata => {
                assert(spec_encode_payload(self@).len() == 4);
                true
            },
            ProtocolMessage::Metadata { file_name, .. } => {
                let nlen = file_name.as_str().as_bytes_vec().len();
                assert(spec_encode_payload(self@).len() == 28 + encode_utf8(file_name@).len());
                nlen as u64 <= (u32::MAX as u64) - 28
            },
            ProtocolMessage::RequestChunk { .. } => {
                assert(spec_encode_payload(self@).len() == 12);
                true
            },
            ProtocolMessage::FileChunk { data, .. } => {
                assert(spec_encode_payload(self@).len() == 20 + data@.len());
                data.len() as u64 <= (u32::MAX as u64) - 20
            },
            ProtocolMessage::TransferComplete => {
                assert(spec_encode_payload(self@).len() == 4);
                true
            },
        }
    }
}

/// Relies on `String::from_utf8`: it returns `Ok` exactly on valid UTF-8
/// input, and the string it returns holds that input's UTF-8 decoding, the
/// function that `vstd::utf8::decode_utf8` models.
#[verifier::external_body]
fn bytes_to_string(bytes: Vec<u8>) -> (r: Option<String>)
    ensures
        r is Some <==> valid_utf8(bytes@),
        r is Some ==> r->0@ == decode_utf8(bytes@),
{
    match String::from_utf8(bytes) {
        Ok(s) => Some(s),
        Err(_) => None,
    }
}

/// Parses one payload. `None` exactly where `spec_parse_payload` is `None`.
fn parse_payload(p: &[u8]) -> (r: Option<ProtocolMessage>)
    ensures
        match spec_parse_payload(p@) {
            Some(model) => r is Some && r->0@ == model,
            None => r is None,
        },
{
    proof {
        lemma_auto_spec_u32_to_from_le_bytes();
        lemma_auto_spec_u64_to_from_le_bytes();
    }
    let plen = p.len();
    if plen < 4 {
        return None;
    }
    let tag = u32_from_le_bytes(slice_subrange(p, 0, 4));
    let ghost rest = p@.subrange(4, plen as int);
    if tag == 0 {
        if plen == 4 {
            Some(ProtocolMessage::RequestMetadata)
        } else {
            None
        }
    } else if tag == 1 {
        if plen < 12 {
            assert(rest.len() < 8);
            return None;
        }
        let nlen = u64_from_le_bytes(slice_subrange(p, 4, 12));
        assert(p@.subrange(4, 12) =~= rest.subrange(0, 8));
        let rest_len = (plen - 4) as u64;
        if rest_len < 24 || rest_len - 24 != nlen {
            assert(rest.len() != 24 + nlen);
            return None;
        }
        let nlen_us = nlen as usize;
        let nb = slice_subrange(p, 12, 12 + nlen_us);
        assert(nb@ =~= rest.subrange(8, 8 + nlen as int));
        let name = match bytes_to_string(slice_to_vec(nb)) {
            Some(s) => s,
            None => {
                return None;
            },
        };
        let file_size = u64_from_le_bytes(slice_subrange(p, 12 + nlen_us, 20 + nlen_us));
        let chunk_size = u64_from_le_bytes(slice_subrange(p, 20 + nlen_us, 28 + nlen_us));
        assert(p@.subrange(12 + nlen as int, 20 + nlen as int) =~= rest.subrange(
            8 + nlen as int,
            16 + nlen as int,
        ));
        assert(p@.subrange(20 + nlen as int, 28 + nlen as int) =~= rest.subrange(
            16 + nlen as int,
            24 + nlen as int,
        ));
        Some(ProtocolMessage::Metadata { file_name: name, file_size, chunk_size })
    } else if tag == 2 {
        if plen != 12 {
            return None;
        }
        let chunk_index = u64_from_le_bytes(slice_subrange(p, 4, 12));
        assert(p@.subrange(4, 12) =~= rest);
        Some(ProtocolMessage::RequestChunk { chunk_index })
    } else if tag == 3 {
        if plen < 20 {
            assert(rest.len() < 16);
            return None;
        }
        let chunk_index = u64_from_le_bytes(slice_subrange(p, 4, 12));
        let dlen = u64_from_le_bytes(slice_subrange(p, 12, 20));
        assert(p@.subrange(4, 12) =~= rest.subrange(0, 8));
        assert(p@.subrange(12, 20) =~= rest.subrange(8, 16));
        let rest_len = (plen - 4) as u64;
        if rest_len - 16 != dlen {
            assert(rest.len() != 16 + dlen);
            return None;
        }
        let data = slice_to_vec(slice_subrange(p, 20, plen));
        assert(data@ =~= rest.subrange(16, 16 + dlen as int));
        Some(ProtocolMessage::FileChunk { chunk_index, data })
    } else if tag == 4 {
        if plen == 4 {
            Some(ProtocolMessage::TransferComplete)
        } else {
            None
        }
    } else {
        None
    }
}

impl ProtocolMessage {
    /// Decodes one frame from the front of `frame`: reads the 4-byte
    /// big-endian length, then that many payload bytes, then parses them.
    /// A buffer shorter than the declared frame is `ConnectionClosed`; a
    /// payload that does not parse is `Malformed`.
    pub fn framed_deserialize(frame: &Vec<u8>) -> (r: Result<ProtocolMessage, DecodeError>)
        ensures
            match spec_decode_frame(frame@) {
                Ok(model) => r is Ok && r->Ok_0@ == model,
                Err(e) => r is Err && r->Err_0 == e,
            },
    {
        if frame.len() < 4 {
            return Err(DecodeError::ConnectionClosed);
        }
        let n = ((frame[0] as u32) << 24) | ((frame[1] as u32) << 16) | ((frame[2] as u32) << 8)
            | (frame[3] as u32);
        proof {
            assert(frame@.subrange(0, 4)[0] == frame@[0] && frame@.subrange(0, 4)[1] == frame@[1]
                && frame@.subrange(0, 4)[2] == frame@[2] && frame@.subrange(0, 4)[3] == frame@[3]);
        }
        let n_us = n as usize;
        if frame.len() - 4 < n_us {
            return Err(DecodeError::ConnectionClosed);
        }
        let payload = slice_subrange(frame.as_slice(), 4, 4 + n_us);
        assert(payload@ =~= frame@.subrange(4, 4 + n as int));
        match parse_payload(payload) {
            Some(m) => Ok(m),
            None => Err(DecodeError::Malformed),
        }
    }
}

/// The 4 big-endian bytes of `x`, as the frame prefix carries them.
fn u32_to_be_bytes_vec(x: u32) -> (r: Vec<u8>)
    ensures
        r@ == spec_u32_to_be_bytes(x),
{
    let mut r: Vec<u8> = Vec::new();
    r.push((x >> 24) as u8);
    r.push((x >> 16) as u8);
    r.push((x >> 8) as u8);
    r.push(x as u8);
    proof {
        assert((x >> 24) as u8 == ((x >> 24) & 0xff) as u8 && (x >> 16) as u8 == ((x >> 16)
            & 0xff) as u8 && (x >> 8) as u8 == ((x >> 8) & 0xff) as u8 && x as u8 == (x
            & 0xff) as u8) by (bit_vector);
        assert(r@ =~= spec_u32_to_be_bytes(x));
    }
    r
}

} // verus!
