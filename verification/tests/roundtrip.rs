use crisclip::clip::{from_clipboard, with_kind, Payload, PayloadError};

#[test]
fn image_survives_png_encoding() {
    let rgba: Vec<u8> = (0..64 * 48 * 4).map(|i| (i % 256) as u8).collect();
    let original = Payload::Image {
        width: 64,
        height: 48,
        rgba,
    };

    let decoded = Payload::decode(&original.encode().unwrap()).unwrap();

    assert_eq!(decoded.fingerprint(), original.fingerprint());
}

#[test]
fn png_compresses_far_better_than_raw_bitmap() {
    let rgba = vec![0x20u8; 1920 * 1080 * 4];
    let raw = rgba.len();
    let png = Payload::Image {
        width: 1920,
        height: 1080,
        rgba,
    }
    .encode()
    .unwrap();

    assert!(png.len() * 100 < raw, "PNG {} vs raw {raw}", png.len());
}

#[test]
fn text_and_image_fingerprints_do_not_collide() {
    let text = Payload::Text("hi".into());
    let image = Payload::Image {
        width: 1,
        height: 1,
        rgba: vec![1, 2, 3, 4],
    };

    assert_ne!(text.fingerprint(), image.fingerprint());
}

#[test]
fn text_survives_encoding() {
    let original = Payload::Text("héllo, wörld ✓".to_string());
    let bytes = original.encode().unwrap();
    assert_eq!(bytes[0], 0);
    assert_eq!(&bytes[1..], "héllo, wörld ✓".as_bytes());
    match Payload::decode(&bytes).unwrap() {
        Payload::Text(t) => assert_eq!(t, "héllo, wörld ✓"),
        _ => panic!("expected text"),
    }
}

#[test]
fn decoded_image_keeps_its_pixels() {
    let rgba: Vec<u8> = (0..3 * 2 * 4).map(|i| (i * 11 % 256) as u8).collect();
    let original = Payload::Image { width: 3, height: 2, rgba: rgba.clone() };
    let bytes = original.encode().unwrap();
    assert_eq!(bytes[0], 1);
    assert_eq!(&bytes[1..5], &[0x89, b'P', b'N', b'G']);
    match Payload::decode(&bytes).unwrap() {
        Payload::Image { width, height, rgba: px } => {
            assert_eq!((width, height), (3, 2));
            assert_eq!(px, rgba);
        }
        _ => panic!("expected an image"),
    }
}

#[test]
fn decode_refuses_bad_input() {
    assert_eq!(Payload::decode(&[]).err(), Some(PayloadError::Empty));
    assert_eq!(Payload::decode(&[0, 0xff, 0xfe]).err(), Some(PayloadError::InvalidUtf8));
    assert_eq!(Payload::decode(&[1, 1, 2, 3]).err(), Some(PayloadError::PngDecode));
    assert_eq!(Payload::decode(&[7, 1]).err(), Some(PayloadError::UnknownKind(7)));
}

#[test]
fn empty_text_decodes() {
    match Payload::decode(&[0]).unwrap() {
        Payload::Text(t) => assert!(t.is_empty()),
        _ => panic!("expected text"),
    }
}

#[test]
fn payload_error_messages() {
    assert_eq!(PayloadError::Empty.message(), "empty payload");
    assert_eq!(PayloadError::InvalidUtf8.message(), "text is not valid UTF-8");
    assert_eq!(PayloadError::PngEncode.message(), "failed to encode PNG");
    assert_eq!(PayloadError::PngDecode.message(), "failed to decode PNG");
    assert_eq!(PayloadError::UnknownKind(42).message(), "unknown payload kind: 42");
}

#[test]
fn describe_text_and_image() {
    assert_eq!(Payload::Text("héllo".into()).describe(), "text (6 bytes)");
    assert_eq!(Payload::Text(String::new()).describe(), "text (0 bytes)");
    let image = Payload::Image { width: 640, height: 480, rgba: Vec::new() };
    assert_eq!(image.describe(), "image 640x480");
}

#[test]
fn fingerprint_is_blake3_of_framed_contents() {
    let text = Payload::Text("hi".into());
    assert_eq!(text.fingerprint(), *blake3::hash(&[0, b'h', b'i']).as_bytes());

    let image = Payload::Image { width: 1, height: 2, rgba: vec![9, 8, 7, 6, 5, 4, 3, 2] };
    let mut input = vec![1u8];
    input.extend_from_slice(&1u64.to_be_bytes());
    input.extend_from_slice(&2u64.to_be_bytes());
    input.extend_from_slice(&[9, 8, 7, 6, 5, 4, 3, 2]);
    assert_eq!(image.fingerprint(), *blake3::hash(&input).as_bytes());
}

#[test]
fn fingerprint_separates_width_and_height() {
    let a = Payload::Image { width: 2, height: 1, rgba: vec![0; 8] };
    let b = Payload::Image { width: 1, height: 2, rgba: vec![0; 8] };
    assert_ne!(a.fingerprint(), b.fingerprint());
    let c = Payload::Image { width: 2, height: 1, rgba: vec![0; 8] };
    assert_eq!(a.fingerprint(), c.fingerprint());
}

#[test]
fn clipboard_read_prefers_image_then_nonempty_text() {

    match from_clipboard(Some((1, 1, vec![1, 2, 3, 4])), Some("x".into())) {
        Some(Payload::Image { width: 1, height: 1, .. }) => {}
        _ => panic!("expected the image"),
    }
    match from_clipboard(None, Some("x".into())) {
        Some(Payload::Text(t)) => assert_eq!(t, "x"),
        _ => panic!("expected the text"),
    }
    assert!(from_clipboard(None, Some(String::new())).is_none());
    assert!(from_clipboard(None, None).is_none());
}

#[test]
fn encoding_pieces() {
    assert_eq!(with_kind(1, &[5, 6]), vec![1, 5, 6]);
    assert_eq!(with_kind(0, &[]), vec![0]);
    match Payload::from_png_pixels(2, 3, vec![1; 24]) {
        Payload::Image { width, height, rgba } => {
            assert_eq!((width, height, rgba.len()), (2, 3, 24));
        }
        _ => panic!("expected an image"),
    }
    let text = Payload::Text("ok".into());
    assert_eq!(text.fingerprint_bytes(), vec![0, b'o', b'k']);
    let image = Payload::Image { width: 258, height: 1, rgba: vec![7] };
    assert_eq!(
        image.fingerprint_bytes(),
        vec![1, 0, 0, 0, 0, 0, 0, 1, 2, 0, 0, 0, 0, 0, 0, 0, 1, 7]
    );
}

#[test]
fn encodability_of_images() {
    assert!(Payload::Text("x".into()).is_encodable());
    assert!(Payload::Image { width: 2, height: 3, rgba: vec![0; 24] }.is_encodable());
    assert!(!Payload::Image { width: 2, height: 3, rgba: vec![0; 23] }.is_encodable());
    assert!(Payload::Image { width: 0, height: 3, rgba: Vec::new() }.is_encodable());
}

#[test]
fn zero_sized_image_is_not_encoded() {
    let empty = Payload::Image { width: 0, height: 5, rgba: Vec::new() };
    assert_eq!(empty.encode().err(), Some(PayloadError::PngEncode));
    let flat = Payload::Image { width: 5, height: 0, rgba: Vec::new() };
    assert_eq!(flat.encode().err(), Some(PayloadError::PngEncode));
}
