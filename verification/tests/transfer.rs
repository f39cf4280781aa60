use file_transfer::chunks::{chunk_count, read_chunk};
use file_transfer::file_metadata::FileMetaData;
use file_transfer::protocol::{DecodeError, ProtocolMessage};
use file_transfer::receiver::{
    choose_strategy, worker_range, DownloadStep, DownloadStrategy, Receiver, SequentialDownload,
    WorkerDownload, CONCURRENT_THRESHOLD, NUM_WORKERS,
};
use file_transfer::sender::{chunk_message, handle_message_packet, SenderAction, CHUNK_SIZE};
use file_transfer::utils::{collect_chunks, write_at};

fn meta_for(name: &str, size: u64) -> FileMetaData {
    FileMetaData { file_path: format!("/tmp/{}", name), name: String::from(name), size }
}

/// One sender session step: decode the request frame, compute the response,
/// encode it. `None` when the sender ignores the message.
fn sender_reply(
    file: &Vec<u8>,
    meta: &FileMetaData,
    chunk_size: u64,
    request_frame: &Vec<u8>,
) -> Option<Vec<u8>> {
    let msg = ProtocolMessage::framed_deserialize(request_frame).ok()?;
    match handle_message_packet(&msg, meta, chunk_size) {
        SenderAction::Respond(r) => {
            assert!(r.fits_frame());
            Some(r.framed_serialize())
        }
        SenderAction::ReadChunk { chunk_index, .. } => {
            let r = chunk_message(file, chunk_index, chunk_size);
            assert!(r.fits_frame());
            Some(r.framed_serialize())
        }
        SenderAction::Ignore => None,
    }
}

#[test]
fn chunk_count_values() {
    assert_eq!(chunk_count(0, 1024), 0);
    assert_eq!(chunk_count(10, 1024), 1);
    assert_eq!(chunk_count(1024, 1024), 1);
    assert_eq!(chunk_count(1025, 1024), 2);
    assert_eq!(chunk_count(2048, 1024), 2);
    assert_eq!(chunk_count(2049, 1024), 3);
    assert_eq!(chunk_count(u64::MAX, 1), u64::MAX);
    assert_eq!(chunk_count(u64::MAX, u64::MAX), 1);
}

#[test]
fn chunks_concatenate_to_the_file() {
    let file: Vec<u8> = (0u8..10).collect();
    let count = chunk_count(file.len() as u64, 3);
    assert_eq!(count, 4);
    let mut rebuilt: Vec<u8> = Vec::new();
    for i in 0..count {
        let chunk = read_chunk(&file, i, 3);
        if i < count - 1 {
            assert_eq!(chunk.len(), 3);
        } else {
            assert_eq!(chunk.len(), 1);
        }
        rebuilt.extend_from_slice(&chunk);
    }
    assert_eq!(rebuilt, file);
}

#[test]
fn write_at_is_idempotent() {
    let mut file = vec![9u8; 10];
    let data = vec![1u8, 2, 3];
    write_at(&mut file, 4, &data);
    let once = file.clone();
    write_at(&mut file, 4, &data);
    assert_eq!(file, once);
    assert_eq!(file, vec![9, 9, 9, 9, 1, 2, 3, 9, 9, 9]);
}

#[test]
fn partition_balanced_17_over_5() {
    let sizes: Vec<u64> = (0..5).map(|w| {
        let (s, e) = worker_range(w, 5, 17);
        e - s
    }).collect();
    assert_eq!(sizes, vec![4, 4, 3, 3, 3]);
    let mut next: u64 = 0;
    for w in 0..5 {
        let (s, e) = worker_range(w, 5, 17);
        assert_eq!(s, next);
        next = e;
    }
    assert_eq!(next, 17);
}

#[test]
fn partition_fewer_chunks_than_workers() {
    let mut covered: Vec<u64> = Vec::new();
    for w in 0..5 {
        let (s, e) = worker_range(w, 5, 3);
        for i in s..e {
            covered.push(i);
        }
    }
    assert_eq!(covered, vec![0, 1, 2]);
}

#[test]
fn partition_empty_range() {
    for w in 0..5 {
        let (s, e) = worker_range(w, 5, 0);
        assert_eq!(s, e);
    }
}

#[test]
fn strategy_threshold_is_strict() {
    assert_eq!(choose_strategy(CONCURRENT_THRESHOLD), DownloadStrategy::Sequential);
    assert_eq!(choose_strategy(CONCURRENT_THRESHOLD + 1), DownloadStrategy::Concurrent);
    assert_eq!(choose_strategy(0), DownloadStrategy::Sequential);
}

#[test]
fn receiver_keeps_its_address() {
    let r = Receiver::new(String::from("10.0.0.1:4000"));
    assert_eq!(r.sender_address, "10.0.0.1:4000");
}

#[test]
fn sender_metadata_reply_uses_fixed_chunk_size() {
    let meta = meta_for("a.bin", 10);
    let action = handle_message_packet(&ProtocolMessage::RequestMetadata, &meta, CHUNK_SIZE);
    match action {
        SenderAction::Respond(ProtocolMessage::Metadata { file_name, file_size, chunk_size }) => {
            assert_eq!(file_name, "a.bin");
            assert_eq!(file_size, 10);
            assert_eq!(chunk_size, 1024 * 1024);
        }
        _ => panic!("expected a Metadata response"),
    }
}

#[test]
fn chunk_request_past_the_end_gets_transfer_complete() {
    let meta = meta_for("a.bin", 10);
    for index in [1u64, 5, 1000, u64::MAX] {
        let action = handle_message_packet(
            &ProtocolMessage::RequestChunk { chunk_index: index },
            &meta,
            1024,
        );
        match action {
            SenderAction::Respond(ProtocolMessage::TransferComplete) => {}
            _ => panic!("expected TransferComplete for out-of-range index {}", index),
        }
    }
}

#[test]
fn sender_ignores_unexpected_messages() {
    let meta = meta_for("a.bin", 10);
    let action = handle_message_packet(&ProtocolMessage::TransferComplete, &meta, 1024);
    assert!(matches!(action, SenderAction::Ignore));
}

#[test]
fn sequential_ten_byte_file() {
    let src: Vec<u8> = (1u8..=10).collect();
    let meta = meta_for("ten.bin", src.len() as u64);
    let chunk_size = 1024u64;

    // handshake
    let reply = sender_reply(
        &src,
        &meta,
        chunk_size,
        &ProtocolMessage::RequestMetadata.framed_serialize(),
    )
    .expect("metadata reply");
    let (file_size, announced_chunk) = match ProtocolMessage::framed_deserialize(&reply) {
        Ok(ProtocolMessage::Metadata { file_size, chunk_size, .. }) => (file_size, chunk_size),
        other => panic!("expected metadata, got {:?}", other),
    };
    assert_eq!(file_size, 10);
    assert_eq!(announced_chunk, 1024);

    // chunk 0 arrives as a 10-byte FileChunk
    let mut dest = vec![0u8; file_size as usize];
    let mut dl = SequentialDownload::new(file_size, announced_chunk);
    while let Some(req) = dl.next_request() {
        let reply = sender_reply(&src, &meta, announced_chunk, &req.framed_serialize())
            .expect("chunk reply");
        match ProtocolMessage::framed_deserialize(&reply).expect("decodes") {
            m @ ProtocolMessage::FileChunk { .. } => {
                if let ProtocolMessage::FileChunk { chunk_index, ref data } = m {
                    assert_eq!(chunk_index, 0);
                    assert_eq!(data.len(), 10);
                }
                match dl.handle_response(m) {
                    DownloadStep::Write { offset, data } => {
                        assert!(offset + data.len() as u64 <= dest.len() as u64);
                        write_at(&mut dest, offset, &data);
                    }
                    _ => panic!("a FileChunk response must become a write"),
                }
            }
            m @ ProtocolMessage::TransferComplete => {
                dl.handle_response(m);
            }
            other => panic!("unexpected response {:?}", other),
        }
    }
    // one more request past the end is answered with TransferComplete
    let extra = sender_reply(
        &src,
        &meta,
        announced_chunk,
        &ProtocolMessage::RequestChunk { chunk_index: 1 }.framed_serialize(),
    )
    .expect("reply");
    assert_eq!(
        ProtocolMessage::framed_deserialize(&extra),
        Ok(ProtocolMessage::TransferComplete)
    );
    assert_eq!(dest, src);
}

#[test]
fn sequential_skips_unexpected_response_and_advances() {
    let mut dl = SequentialDownload::new(8, 4);
    assert!(dl.next_request().is_some());
    let step = dl.handle_response(ProtocolMessage::RequestMetadata);
    assert!(matches!(step, DownloadStep::Skipped));
    // the skipped chunk is never re-requested: the next request is chunk 1
    match dl.next_request() {
        Some(ProtocolMessage::RequestChunk { chunk_index }) => assert_eq!(chunk_index, 1),
        other => panic!("expected a request for chunk 1, got {:?}", other),
    }
}

#[test]
fn dropped_connection_after_metadata_surfaces_fatal_error() {
    // the sender vanished: no reply bytes ever arrive
    let mut dl = SequentialDownload::new(10, 1024);
    let dest = vec![0u8; 10];
    let mut fatal = None;
    while let Some(_req) = dl.next_request() {
        let nothing: Vec<u8> = Vec::new();
        match ProtocolMessage::framed_deserialize(&nothing) {
            Ok(m) => {
                dl.handle_response(m);
            }
            Err(e) => {
                fatal = Some(e);
                break;
            }
        }
    }
    assert_eq!(fatal, Some(DecodeError::ConnectionClosed));
    // nothing was written
    assert_eq!(dest, vec![0u8; 10]);
}

#[test]
fn worker_stops_early_on_transfer_complete() {
    let mut worker = WorkerDownload::new(2, 6);
    match worker.next_request() {
        Some(ProtocolMessage::RequestChunk { chunk_index }) => assert_eq!(chunk_index, 2),
        other => panic!("expected a request for chunk 2, got {:?}", other),
    }
    assert!(worker.handle_response(ProtocolMessage::TransferComplete).is_none());
    assert!(worker.next_request().is_none());
}

#[test]
fn worker_skips_unexpected_response_and_advances() {
    let mut worker = WorkerDownload::new(0, 2);
    assert!(worker.next_request().is_some());
    assert!(worker.handle_response(ProtocolMessage::RequestMetadata).is_none());
    match worker.next_request() {
        Some(ProtocolMessage::RequestChunk { chunk_index }) => assert_eq!(chunk_index, 1),
        other => panic!("expected a request for chunk 1, got {:?}", other),
    }
}

#[test]
fn concurrent_workers_reassemble_out_of_order() {
    assert_eq!(NUM_WORKERS, 5);
    // a file slightly over the threshold picks the concurrent path
    assert_eq!(choose_strategy(CONCURRENT_THRESHOLD + 1), DownloadStrategy::Concurrent);

    // the same logic, exercised on a small file: 18 bytes in chunks of 4
    let src: Vec<u8> = (0u8..18).collect();
    let meta = meta_for("big.bin", src.len() as u64);
    let chunk_size = 4u64;
    let count = chunk_count(src.len() as u64, chunk_size);
    assert_eq!(count, 5);

    let mut pairs: Vec<(u64, Vec<u8>)> = Vec::new();
    for w in 0..NUM_WORKERS {
        // each worker performs its own handshake on its own connection
        let reply = sender_reply(
            &src,
            &meta,
            chunk_size,
            &ProtocolMessage::RequestMetadata.framed_serialize(),
        )
        .expect("metadata reply");
        assert!(matches!(
            ProtocolMessage::framed_deserialize(&reply),
            Ok(ProtocolMessage::Metadata { .. })
        ));
        let (start, end) = worker_range(w, NUM_WORKERS, count);
        let mut worker = WorkerDownload::new(start, end);
        while let Some(request) = worker.next_request() {
            let reply = sender_reply(&src, &meta, chunk_size, &request.framed_serialize())
                .expect("chunk reply");
            let response = ProtocolMessage::framed_deserialize(&reply).expect("decodes");
            if let Some(pair) = worker.handle_response(response) {
                pairs.push(pair);
            }
        }
    }
    assert_eq!(pairs.len(), count as usize);

    // the collector sees an arbitrary interleaving: reverse the arrivals
    pairs.reverse();
    let mut dest = vec![0u8; src.len()];
    for (i, d) in pairs.iter() {
        assert!(i * chunk_size + d.len() as u64 <= dest.len() as u64);
    }
    collect_chunks(&mut dest, &pairs, chunk_size);
    assert_eq!(dest, src);

    // a duplicated arrival changes nothing
    let dup = vec![pairs[0].clone(), pairs[0].clone()];
    collect_chunks(&mut dest, &dup, chunk_size);
    assert_eq!(dest, src);
}
