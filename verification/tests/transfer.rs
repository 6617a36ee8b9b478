use crisclip::proto::{
    plaintext_frames, raw_frame, raw_frame_len, Channel, PendingHandshake, ProtoError, Reassembly,
    MAX_PLAINTEXT,
};

const KEY_A: [u8; 32] = [7u8; 32];
const KEY_B: [u8; 32] = [9u8; 32];
const LIMIT: usize = 64 * 1024 * 1024;

/// Splits wire bytes into the messages behind their 2-byte lengths.
fn unframe(wire: &[u8]) -> Vec<u8> {
    let len = raw_frame_len([wire[0], wire[1]]);
    assert_eq!(wire.len(), len + 2);
    wire[2..].to_vec()
}

fn handshake(initiator_key: &[u8; 32], responder_key: &[u8; 32]) -> Result<(Channel, Channel), ProtoError> {
    let (mut initiator, hello) = PendingHandshake::initiate(initiator_key)?;
    let (responder, reply) = PendingHandshake::answer(responder_key, &unframe(&hello))?;
    initiator.read_reply(&unframe(&reply))?;
    Ok((initiator.into_channel()?, responder.into_channel()?))
}

fn transfer(sender: &mut Channel, receiver: &mut Channel, payload: &[u8], limit: usize) -> Result<Vec<u8>, ProtoError> {
    let mut wire = Vec::new();
    for frame in plaintext_frames(payload)? {
        wire.push(sender.seal(&frame)?);
    }
    let mut frames = wire.into_iter().map(|w| receiver.open(&unframe(&w)));
    let header = frames.next().unwrap()?;
    let mut reassembly = Reassembly::start(&header, limit)?;
    while reassembly.needs_more() {
        let chunk = frames.next().unwrap()?;
        reassembly.push_chunk(&chunk)?;
    }
    reassembly.finish()
}

#[test]
fn payload_larger_than_one_noise_frame_arrives_whole() {
    let (mut a, mut b) = handshake(&KEY_A, &KEY_A).unwrap();
    let payload: Vec<u8> = (0..5 * 1024 * 1024).map(|i| (i % 251) as u8).collect();
    assert_eq!(transfer(&mut a, &mut b, &payload, LIMIT).unwrap(), payload);
    // The channel keeps working in the other direction too.
    assert_eq!(transfer(&mut b, &mut a, b"back", LIMIT).unwrap(), b"back".to_vec());
}

#[test]
fn different_keys_break_the_handshake() {
    let result = handshake(&KEY_B, &KEY_A);
    assert!(matches!(result, Err(ProtoError::Noise(_))));
}

#[test]
fn tampered_frame_is_refused() {
    let (mut a, mut b) = handshake(&KEY_A, &KEY_A).unwrap();
    let mut wire = a.seal(b"secret").unwrap();
    let last = wire.len() - 1;
    wire[last] ^= 1;
    assert!(matches!(b.open(&unframe(&wire)), Err(ProtoError::Noise(_))));
}

#[test]
fn sealed_frame_carries_the_tag() {
    let (mut a, mut b) = handshake(&KEY_A, &KEY_A).unwrap();
    let wire = a.seal(b"hello").unwrap();
    assert_eq!(wire.len(), 2 + 5 + 16);
    assert_eq!(b.open(&unframe(&wire)).unwrap(), b"hello".to_vec());
    let too_big = vec![0u8; MAX_PLAINTEXT + 1];
    assert!(a.seal(&too_big).is_err());
}

#[test]
fn frames_of_a_payload() {
    let payload: Vec<u8> = (0..(2 * MAX_PLAINTEXT + 10)).map(|i| i as u8).collect();
    let frames = plaintext_frames(&payload).unwrap();
    assert_eq!(frames.len(), 4);
    assert_eq!(frames[0], ((2 * MAX_PLAINTEXT + 10) as u32).to_be_bytes().to_vec());
    assert_eq!(frames[1].len(), MAX_PLAINTEXT);
    assert_eq!(frames[2].len(), MAX_PLAINTEXT);
    assert_eq!(frames[3].len(), 10);
    assert_eq!(frames[1..].concat(), payload);

    let empty = plaintext_frames(&[]).unwrap();
    assert_eq!(empty, vec![vec![0, 0, 0, 0]]);
}

#[test]
fn empty_payload_needs_no_chunk() {
    let r = Reassembly::start(&[0, 0, 0, 0], 10).unwrap();
    assert!(!r.needs_more());
    assert_eq!(r.finish().unwrap(), Vec::<u8>::new());
}

#[test]
fn receiver_refuses_bad_transfers() {
    assert!(matches!(Reassembly::start(&[0, 0, 1], 10), Err(ProtoError::InvalidLengthHeader)));
    match Reassembly::start(&[0, 0, 0, 11], 10) {
        Err(ProtoError::OverLimit { announced, limit }) => assert_eq!((announced, limit), (11, 10)),
        _ => panic!("expected the limit to refuse"),
    }
    let mut r = Reassembly::start(&[0, 0, 0, 4], 10).unwrap();
    assert_eq!((r.total(), r.received_len()), (4, 0));
    assert!(matches!(r.push_chunk(&[]), Err(ProtoError::CutShort)));
    r.push_chunk(&[1, 2, 3]).unwrap();
    assert!(r.needs_more());
    r.push_chunk(&[4, 5]).unwrap();
    assert!(!r.needs_more());
    match r.finish() {
        Err(ProtoError::LengthMismatch { received, expected }) => assert_eq!((received, expected), (5, 4)),
        _ => panic!("expected a length mismatch"),
    }
}

#[test]
fn raw_frames_carry_their_length() {
    let framed = raw_frame(&[5, 6, 7]).unwrap();
    assert_eq!(framed, vec![0, 3, 5, 6, 7]);
    assert_eq!(raw_frame_len([1, 2]), 258);
    assert!(matches!(raw_frame(&vec![0u8; 65536]), Err(ProtoError::FrameTooLarge)));
    assert_eq!(raw_frame(&vec![0u8; 65535]).unwrap().len(), 65537);
}

#[test]
fn proto_error_messages() {
    assert_eq!(
        ProtoError::OverLimit { announced: 100, limit: 10 }.message(),
        "peer announced 100 bytes, over the 10 limit"
    );
    assert_eq!(
        ProtoError::LengthMismatch { received: 5, expected: 4 }.message(),
        "received 5 bytes, expected 4"
    );
    assert_eq!(ProtoError::CutShort.message(), "transfer cut short");
    assert_eq!(ProtoError::InvalidLengthHeader.message(), "invalid length header");
    assert_eq!(ProtoError::PayloadTooLarge.message(), "payload too large");
    assert_eq!(ProtoError::FrameTooLarge.message(), "Noise frame too large");
}
