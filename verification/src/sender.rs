//! The sender's per-connection session logic: how one decoded request maps to
//! a response. Each session is stateless across requests, so the whole
//! decision lives in one function from message to action.

use vstd::prelude::*;
use crate::chunks::{lemma_chunk_count_bounds, lemma_chunk_index_in_range, read_chunk, spec_chunk};
use crate::file_metadata::FileMetaData;
use crate::protocol::{MessageModel, ProtocolMessage};

verus! {

/// The fixed chunk size the sender announces and serves.
pub const CHUNK_SIZE: u64 = 1024 * 1024;

/// What a session does with one decoded request.
pub enum SenderAction {
    /// Encode and send this message; `TransferComplete` then ends the session.
    Respond(ProtocolMessage),
    /// Read `len` bytes of the served file at `offset` and send them as a
    /// `FileChunk` with this index.
    ReadChunk { chunk_index: u64, offset: u64, len: u64 },
    /// An unexpected message: log it and send nothing.
    Ignore,
}

/// Decides the session's response to one request.
///
/// `RequestMetadata` is answered with the file's name, size, and the fixed
/// chunk size. `RequestChunk` past the end of the file — any index whose
/// start offset `chunk_index * chunk_size` reaches `file_size` — is answered
/// with `TransferComplete`; in range, it asks for the chunk's bytes, exactly
/// `chunk_size` or the final remainder. Every other message is ignored.
pub fn handle_message_packet(
    message: &ProtocolMessage,
    file_metadata: &FileMetaData,
    chunk_size: u64,
) -> (action: SenderAction)
    requires
        chunk_size > 0,
    ensures
        match message@ {
            MessageModel::RequestMetadata => action matches SenderAction::Respond(r) && r@
                == (MessageModel::Metadata {
                file_name: file_metadata.name@,
                file_size: file_metadata.size,
                chunk_size,
            }),
            MessageModel::RequestChunk { chunk_index } => {
                if chunk_index * chunk_size >= file_metadata.size {
                    action matches SenderAction::Respond(r) && r@
                        == MessageModel::TransferComplete
                } else {
                    action matches SenderAction::ReadChunk { chunk_index: i, offset, len }
                        && i == chunk_index && offset == chunk_index * chunk_size && len
                        == vstd::math::min(
                        chunk_size as int,
                        file_metadata.size - chunk_index * chunk_size,
                    )
                }
            },
            _ => action is Ignore,
        },
{
    match message {
        ProtocolMessage::RequestMetadata => SenderAction::Respond(
            ProtocolMessage::Metadata {
                file_name: file_metadata.name.clone(),
                file_size: file_metadata.size,
                chunk_size,
            },
        ),
        ProtocolMessage::RequestChunk { chunk_index } => {
            let chunk_index = *chunk_index;
            proof {
                lemma_chunk_index_in_range(
                    file_metadata.size as int,
                    chunk_size as int,
                    chunk_index as int,
                );
                lemma_chunk_count_bounds(file_metadata.size as int, chunk_size as int);
            }
            let count = crate::chunks::chunk_count(file_metadata.size, chunk_size);
            if chunk_index >= count {
                SenderAction::Respond(ProtocolMessage::TransferComplete)
            } else {
                let offset = chunk_index * chunk_size;
                let remaining = file_metadata.size - offset;
                let len = if chunk_size <= remaining {
                    chunk_size
                } else {
                    remaining
                };
                SenderAction::ReadChunk { chunk_index, offset, len }
            }
        },
        _ => SenderAction::Ignore,
    }
}

/// The whole in-range chunk response at once, for a sender that has the
/// served file's bytes at hand: the `FileChunk` message carrying chunk
/// `chunk_index` of `file`.
pub fn chunk_message(file: &Vec<u8>, chunk_index: u64, chunk_size: u64) -> (r: ProtocolMessage)
    requires
        chunk_size > 0,
        chunk_index * chunk_size < file@.len(),
    ensures
        r@ == (MessageModel::FileChunk {
            chunk_index,
            data: spec_chunk(file@, chunk_size as int, chunk_index as int),
        }),
{
    proof {
        lemma_chunk_index_in_range(file@.len() as int, chunk_size as int, chunk_index as int);
    }
    let data = read_chunk(file, chunk_index, chunk_size);
    ProtocolMessage::FileChunk { chunk_index, data }
}

} // verus!
