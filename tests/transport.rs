use protocol::error::Error;
use protocol::framing::{decode_len, encode_len, with_len_prefix};
use protocol::handshake::{accept_length, HandshakeNegotiator, HandshakePhase};
use protocol::primitives::rand_buf;
use protocol::stream::{frame_len, SessionSlot, TransportSession, ENC_CHUNK_SIZE, SOURCE_CHUNK_SIZE};
use rand_core::{OsRng, RngCore};
use x25519_dalek::{PublicKey, StaticSecret};

fn prefix_of(f: &[u8]) -> [u8; 4] {
    [f[0], f[1], f[2], f[3]]
}

fn handshake_pair() -> (TransportSession, TransportSession) {
    let server_key: [u8; 32] = rand_buf::<32>();
    let server_public = PublicKey::from(&StaticSecret::from(server_key)).to_bytes();
    let mut client = HandshakeNegotiator::initiator(&server_public).unwrap();
    let mut server = HandshakeNegotiator::responder(&server_key).unwrap();
    let m1 = client.start().unwrap();
    assert_eq!(client.current_phase(), HandshakePhase::MessageSent);
    let n1 = accept_length(&prefix_of(&m1)).unwrap();
    assert_eq!(n1 + 4, m1.len());
    let m2 = server.receive(&m1[4..]).unwrap().unwrap();
    assert_eq!(server.current_phase(), HandshakePhase::TransportReady);
    let n2 = accept_length(&prefix_of(&m2)).unwrap();
    assert_eq!(n2 + 4, m2.len());
    assert!(client.receive(&m2[4..]).unwrap().is_none());
    assert_eq!(client.current_phase(), HandshakePhase::TransportReady);
    (server.into_transport().unwrap(), client.into_transport().unwrap())
}

fn pass(from: &mut TransportSession, to: &mut TransportSession, payload: &[u8]) -> Vec<u8> {
    let frame = from.seal_frame(payload).unwrap();
    let len = decode_len(&prefix_of(&frame)) as usize;
    assert_eq!(len + 4, frame.len());
    to.open_frame(&frame[4..]).unwrap()
}

#[test]
fn test_handshake() {
    let (_server, _client) = handshake_pair();
}

#[test]
fn test_read_write_short_message() {
    let (mut server, mut client) = handshake_pair();
    let bytes = bincode::serialize("This is a short test message").unwrap();
    let msg: String = bincode::deserialize(&pass(&mut client, &mut server, &bytes)).unwrap();
    assert_eq!(msg, "This is a short test message");

    let bytes = bincode::serialize("This is a short test message").unwrap();
    let msg: String = bincode::deserialize(&pass(&mut server, &mut client, &bytes)).unwrap();
    assert_eq!(msg, "This is a short test message");
}

#[test]
fn test_read_write_with_large_message() {
    let (mut server, mut client) = handshake_pair();
    let mut msg = vec![0u8; 1024 * 1024];
    OsRng.fill_bytes(&mut msg);
    let bytes = bincode::serialize(&msg).unwrap();
    let msg2: Vec<u8> = bincode::deserialize(&pass(&mut client, &mut server, &bytes)).unwrap();
    assert_eq!(msg, msg2);

    let mut msg = vec![0u8; 1024 * 1024];
    OsRng.fill_bytes(&mut msg);
    let bytes = bincode::serialize(&msg).unwrap();
    let msg2: Vec<u8> = bincode::deserialize(&pass(&mut server, &mut client, &bytes)).unwrap();
    assert_eq!(msg, msg2);
}

#[test]
fn chunk_boundaries_round_trip() {
    let (mut server, mut client) = handshake_pair();
    for n in [
        SOURCE_CHUNK_SIZE - 1,
        SOURCE_CHUNK_SIZE,
        SOURCE_CHUNK_SIZE + 1,
        2 * SOURCE_CHUNK_SIZE,
        1024 * 1024,
    ] {
        let mut payload = vec![0u8; n];
        OsRng.fill_bytes(&mut payload);
        let frame = client.seal_frame(&payload).unwrap();
        let chunks = (n + SOURCE_CHUNK_SIZE - 1) / SOURCE_CHUNK_SIZE;
        assert_eq!(frame.len(), 4 + n + 16 * chunks);
        assert_eq!(server.open_frame(&frame[4..]).unwrap(), payload);
    }
}

#[test]
fn frame_of_one_full_chunk_is_one_noise_message() {
    let (_server, mut client) = handshake_pair();
    let frame = client.seal_frame(&vec![9u8; SOURCE_CHUNK_SIZE]).unwrap();
    assert_eq!(decode_len(&prefix_of(&frame)) as usize, ENC_CHUNK_SIZE);
}

#[test]
fn empty_payload_is_an_empty_frame() {
    let (mut server, mut client) = handshake_pair();
    let frame = client.seal_frame(&[]).unwrap();
    assert_eq!(frame, vec![0u8, 0, 0, 0]);
    assert_eq!(server.open_frame(&frame[4..]).unwrap(), Vec::<u8>::new());
}

#[test]
fn back_to_back_values_arrive_in_order() {
    let (mut server, mut client) = handshake_pair();
    let f1 = client.seal_frame(b"first").unwrap();
    let f2 = client.seal_frame(b"second").unwrap();
    assert_eq!(server.open_frame(&f1[4..]).unwrap(), b"first".to_vec());
    assert_eq!(server.open_frame(&f2[4..]).unwrap(), b"second".to_vec());
}

#[test]
fn reordered_frames_fail() {
    let (mut server, mut client) = handshake_pair();
    let _f1 = client.seal_frame(b"first").unwrap();
    let f2 = client.seal_frame(b"second").unwrap();
    assert_eq!(server.open_frame(&f2[4..]).unwrap_err(), Error::CryptoFailure);
}

#[test]
fn reordered_chunks_fail() {
    let (mut server, mut client) = handshake_pair();
    let payload = vec![1u8; 2 * SOURCE_CHUNK_SIZE];
    let frame = client.seal_frame(&payload).unwrap();
    let body = &frame[4..];
    let mut swapped = body[ENC_CHUNK_SIZE..].to_vec();
    swapped.extend_from_slice(&body[..ENC_CHUNK_SIZE]);
    assert_eq!(server.open_frame(&swapped).unwrap_err(), Error::CryptoFailure);
}

#[test]
fn truncated_frame_fails() {
    let (mut server, mut client) = handshake_pair();
    let frame = client.seal_frame(b"some value").unwrap();
    assert_eq!(server.open_frame(&frame[4..frame.len() - 1]).unwrap_err(), Error::CryptoFailure);
}

#[test]
fn taken_session_is_invalid_state() {
    let (server, _client) = handshake_pair();
    let mut slot = SessionSlot::new(server);
    let s = slot.take().unwrap();
    assert_eq!(slot.take().err(), Some(Error::InvalidState));
    slot.restore(s);
    assert!(slot.take().is_ok());
}

#[test]
fn handshake_message_after_completion_is_refused() {
    let server_key: [u8; 32] = rand_buf();
    let server_public = PublicKey::from(&StaticSecret::from(server_key)).to_bytes();
    let mut client = HandshakeNegotiator::initiator(&server_public).unwrap();
    let mut server = HandshakeNegotiator::responder(&server_key).unwrap();
    let m1 = client.start().unwrap();
    assert_eq!(client.start().unwrap_err(), Error::InvalidState);
    let m2 = server.receive(&m1[4..]).unwrap().unwrap();
    assert_eq!(server.receive(&m1[4..]).unwrap_err(), Error::ProtocolViolation);
    client.receive(&m2[4..]).unwrap();
    assert_eq!(client.receive(&m2[4..]).unwrap_err(), Error::ProtocolViolation);
}

#[test]
fn garbage_handshake_reply_is_refused() {
    let server_public = PublicKey::from(&StaticSecret::from([4u8; 32])).to_bytes();
    let mut client = HandshakeNegotiator::initiator(&server_public).unwrap();
    client.start().unwrap();
    assert_eq!(client.receive(&[1u8; 3]).unwrap_err(), Error::ProtocolViolation);
    assert_eq!(client.current_phase(), HandshakePhase::Failed);
    assert_eq!(client.into_transport().err(), Some(Error::InvalidState));
}

#[test]
fn unfinished_handshake_has_no_transport() {
    let server_key: [u8; 32] = rand_buf();
    let server = HandshakeNegotiator::responder(&server_key).unwrap();
    assert_eq!(server.current_phase(), HandshakePhase::AwaitingMessage);
    assert_eq!(server.into_transport().err(), Some(Error::InvalidState));
}

#[test]
fn oversized_handshake_length_is_refused() {
    assert_eq!(accept_length(&[0, 0, 4, 0]), Ok(1024));
    assert_eq!(accept_length(&[0, 0, 4, 1]), Err(Error::ProtocolViolation));
    assert_eq!(accept_length(&[255, 0, 0, 0]), Err(Error::ProtocolViolation));
}

#[test]
fn length_prefix_is_big_endian() {
    assert_eq!(encode_len(0x01020304), [1, 2, 3, 4]);
    assert_eq!(decode_len(&[1, 2, 3, 4]), 0x01020304);
    assert_eq!(decode_len(&encode_len(4_000_000_000)), 4_000_000_000);
    assert_eq!(with_len_prefix(&[9, 8]), vec![0, 0, 0, 2, 9, 8]);
}

#[test]
fn frame_length_counts_one_tag_per_chunk() {
    assert_eq!(frame_len(0), Some(0));
    assert_eq!(frame_len(1), Some(17));
    assert_eq!(frame_len(SOURCE_CHUNK_SIZE), Some(65535));
    assert_eq!(frame_len(SOURCE_CHUNK_SIZE + 1), Some(65535 + 17));
    assert_eq!(frame_len(u32::MAX as usize), None);
    assert_eq!(frame_len(u32::MAX as usize + 1), None);
}
