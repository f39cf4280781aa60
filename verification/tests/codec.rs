use file_transfer::protocol::{DecodeError, ProtocolMessage};

fn round_trip(m: ProtocolMessage) -> ProtocolMessage {
    assert!(m.fits_frame());
    let frame = m.framed_serialize();
    ProtocolMessage::framed_deserialize(&frame).expect("frame must decode")
}

#[test]
fn round_trip_request_metadata() {
    let m = ProtocolMessage::RequestMetadata;
    assert_eq!(round_trip(m.clone()), m);
}

#[test]
fn round_trip_metadata() {
    let m = ProtocolMessage::Metadata {
        file_name: String::from("movie.mkv"),
        file_size: 123456789,
        chunk_size: 1024 * 1024,
    };
    assert_eq!(round_trip(m.clone()), m);
}

#[test]
fn round_trip_metadata_unicode_name() {
    let m = ProtocolMessage::Metadata {
        file_name: String::from("ré\u{2603}umé.txt"),
        file_size: 7,
        chunk_size: 2,
    };
    assert_eq!(round_trip(m.clone()), m);
}

#[test]
fn round_trip_metadata_empty_name() {
    let m = ProtocolMessage::Metadata { file_name: String::new(), file_size: 0, chunk_size: 1 };
    assert_eq!(round_trip(m.clone()), m);
}

#[test]
fn round_trip_request_chunk() {
    let m = ProtocolMessage::RequestChunk { chunk_index: u64::MAX };
    assert_eq!(round_trip(m.clone()), m);
}

#[test]
fn round_trip_file_chunk() {
    let m = ProtocolMessage::FileChunk { chunk_index: 3, data: vec![0u8, 255, 7, 7, 1] };
    assert_eq!(round_trip(m.clone()), m);
}

#[test]
fn round_trip_file_chunk_empty_data() {
    let m = ProtocolMessage::FileChunk { chunk_index: 0, data: Vec::new() };
    assert_eq!(round_trip(m.clone()), m);
}

#[test]
fn round_trip_transfer_complete() {
    let m = ProtocolMessage::TransferComplete;
    assert_eq!(round_trip(m.clone()), m);
}

#[test]
fn exact_frame_bytes_request_chunk() {
    let m = ProtocolMessage::RequestChunk { chunk_index: 7 };
    let frame = m.framed_serialize();
    // 4-byte big-endian payload length, little-endian tag 2, little-endian index
    assert_eq!(
        frame,
        vec![0, 0, 0, 12, 2, 0, 0, 0, 7, 0, 0, 0, 0, 0, 0, 0]
    );
}

#[test]
fn exact_frame_bytes_request_metadata() {
    let frame = ProtocolMessage::RequestMetadata.framed_serialize();
    assert_eq!(frame, vec![0, 0, 0, 4, 0, 0, 0, 0]);
}

#[test]
fn decode_empty_buffer_is_connection_closed() {
    let r = ProtocolMessage::framed_deserialize(&Vec::new());
    assert_eq!(r, Err(DecodeError::ConnectionClosed));
}

#[test]
fn decode_short_header_is_connection_closed() {
    let r = ProtocolMessage::framed_deserialize(&vec![0, 0, 0]);
    assert_eq!(r, Err(DecodeError::ConnectionClosed));
}

#[test]
fn decode_truncated_payload_is_connection_closed() {
    let mut frame = ProtocolMessage::RequestChunk { chunk_index: 7 }.framed_serialize();
    frame.pop();
    let r = ProtocolMessage::framed_deserialize(&frame);
    assert_eq!(r, Err(DecodeError::ConnectionClosed));
}

#[test]
fn decode_unknown_tag_is_malformed() {
    // declared length 4, tag 9
    let frame = vec![0, 0, 0, 4, 9, 0, 0, 0];
    let r = ProtocolMessage::framed_deserialize(&frame);
    assert_eq!(r, Err(DecodeError::Malformed));
}

#[test]
fn decode_trailing_payload_bytes_is_malformed() {
    // tag 0 must carry no fields; one extra byte inside the payload
    let frame = vec![0, 0, 0, 5, 0, 0, 0, 0, 42];
    let r = ProtocolMessage::framed_deserialize(&frame);
    assert_eq!(r, Err(DecodeError::Malformed));
}

#[test]
fn decode_invalid_utf8_name_is_malformed() {
    // a Metadata payload whose one-byte name is not UTF-8
    let mut frame = vec![0u8, 0, 0, 29];
    frame.extend_from_slice(&[1, 0, 0, 0]); // tag 1
    frame.extend_from_slice(&[1, 0, 0, 0, 0, 0, 0, 0]); // name length 1
    frame.push(0xFF); // invalid UTF-8
    frame.extend_from_slice(&[10, 0, 0, 0, 0, 0, 0, 0]); // file_size 10
    frame.extend_from_slice(&[4, 0, 0, 0, 0, 0, 0, 0]); // chunk_size 4
    let r = ProtocolMessage::framed_deserialize(&frame);
    assert_eq!(r, Err(DecodeError::Malformed));
}

#[test]
fn decode_name_length_beyond_payload_is_malformed() {
    let mut frame = vec![0u8, 0, 0, 28];
    frame.extend_from_slice(&[1, 0, 0, 0]); // tag 1
    frame.extend_from_slice(&[200, 0, 0, 0, 0, 0, 0, 0]); // name length 200, absent
    frame.extend_from_slice(&[10, 0, 0, 0, 0, 0, 0, 0]);
    frame.extend_from_slice(&[4, 0, 0, 0, 0, 0, 0, 0]);
    let r = ProtocolMessage::framed_deserialize(&frame);
    assert_eq!(r, Err(DecodeError::Malformed));
}

#[test]
fn decode_ignores_bytes_after_the_frame() {
    let mut frame = ProtocolMessage::TransferComplete.framed_serialize();
    let next = ProtocolMessage::RequestMetadata.framed_serialize();
    frame.extend_from_slice(&next);
    let r = ProtocolMessage::framed_deserialize(&frame);
    assert_eq!(r, Ok(ProtocolMessage::TransferComplete));
}

#[test]
fn fits_frame_small_messages() {
    assert!(ProtocolMessage::RequestMetadata.fits_frame());
    assert!(ProtocolMessage::TransferComplete.fits_frame());
    assert!(ProtocolMessage::RequestChunk { chunk_index: 0 }.fits_frame());
    assert!(
        ProtocolMessage::FileChunk { chunk_index: 1, data: vec![9; 4096] }.fits_frame()
    );
}
