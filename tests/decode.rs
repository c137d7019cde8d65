use image::GenericImageView;
use image_astc::{decode_container, decode_header, load_from_memory, DecodeError};

const SIGNATURE: [u8; 12] = [0xA5, 0x7C, 0xC7, 0x5A, 0x4F, 0xF4, 0x5F, 0x5F, 0x4F, 0xF4, 0x5F, 0x5F];

fn header(version: u16, width: u64, height: u64) -> Vec<u8> {
    let mut bytes = SIGNATURE.to_vec();
    bytes.extend_from_slice(&version.to_le_bytes());
    bytes.extend_from_slice(&width.to_le_bytes());
    bytes.extend_from_slice(&height.to_le_bytes());
    bytes
}

fn container_units(version: u16, width: u64, height: u64, payload: &[u32]) -> Vec<u32> {
    let mut bytes = header(version, width, height);
    bytes.extend_from_slice(&[0, 0]);
    let mut units: Vec<u32> = bytes
        .chunks(4)
        .map(|c| u32::from_ne_bytes([c[0], c[1], c[2], c[3]]))
        .collect();
    units.extend_from_slice(payload);
    units
}

#[test]
fn ten_zero_bytes_are_too_short() {
    assert_eq!(decode_header(&[0u8; 10]), Err(DecodeError::TooShort));
}

#[test]
fn thirty_zero_bytes_have_bad_signature() {
    assert_eq!(decode_header(&[0u8; 30]), Err(DecodeError::BadSignature));
}

#[test]
fn every_length_below_header_is_too_short() {
    let full = header(1, 5, 3);
    for n in 0..30 {
        assert_eq!(decode_header(&full[..n]), Err(DecodeError::TooShort));
    }
    assert_eq!(decode_header(&[]), Err(DecodeError::TooShort));
}

#[test]
fn any_changed_signature_byte_is_rejected() {
    for k in 0..12 {
        let mut bytes = header(1, 5, 3);
        bytes[k] ^= 0x01;
        assert_eq!(decode_header(&bytes), Err(DecodeError::BadSignature));
    }
}

#[test]
fn length_is_checked_before_signature() {
    assert_eq!(decode_header(&[0xFFu8; 29]), Err(DecodeError::TooShort));
}

#[test]
fn header_round_trips_dimensions() {
    assert_eq!(decode_header(&header(1, 5, 3)), Ok((5, 3)));
    assert_eq!(decode_header(&header(0, 0, 0)), Ok((0, 0)));
    assert_eq!(
        decode_header(&header(0xFFFF, u32::MAX as u64, 0x1234_5678)),
        Ok((u32::MAX, 0x1234_5678))
    );
}

#[test]
fn version_is_not_checked() {
    assert_eq!(decode_header(&header(0xBEEF, 7, 9)), Ok((7, 9)));
}

#[test]
fn trailing_bytes_after_header_are_ignored() {
    let mut bytes = header(1, 640, 480);
    bytes.extend_from_slice(&[9, 9, 9, 9, 9]);
    assert_eq!(decode_header(&bytes), Ok((640, 480)));
}

#[test]
fn wide_fields_keep_their_low_32_bits() {
    assert_eq!(decode_header(&header(1, 0x1_0000_0005, 0xFFFF_FFFF_0000_0003)), Ok((5, 3)));
}

#[test]
fn load_five_by_three() {
    let units = container_units(0x0001, 5, 3, &[0xFFFF_FFFF; 15]);
    let img = load_from_memory(&units).expect("the container is complete");
    assert_eq!(img.width(), 5);
    assert_eq!(img.height(), 3);
}

#[test]
fn load_two_by_two_with_four_units() {
    let units = container_units(1, 2, 2, &[1, 2, 3, 4]);
    let img = load_from_memory(&units).expect("the container is complete");
    assert_eq!(img.dimensions(), (2, 2));
}

#[test]
fn load_two_by_two_with_three_units_fails() {
    let units = container_units(1, 2, 2, &[1, 2, 3]);
    assert_eq!(load_from_memory(&units).err(), Some(DecodeError::InsufficientMemory));
}

#[test]
fn load_two_by_two_without_payload_fails() {
    let units = container_units(1, 2, 2, &[]);
    assert_eq!(load_from_memory(&units).err(), Some(DecodeError::InsufficientMemory));
}

#[test]
fn load_short_input_is_too_short() {
    assert_eq!(load_from_memory(&[]).err(), Some(DecodeError::TooShort));
    assert_eq!(load_from_memory(&[0u32; 7]).err(), Some(DecodeError::TooShort));
}

#[test]
fn load_zero_units_have_bad_signature() {
    assert_eq!(load_from_memory(&[0u32; 8]).err(), Some(DecodeError::BadSignature));
    assert_eq!(load_from_memory(&[0u32; 20]).err(), Some(DecodeError::BadSignature));
}

#[test]
fn load_empty_image() {
    let units = container_units(1, 0, 0, &[]);
    let img = load_from_memory(&units).expect("no pixels are needed");
    assert_eq!(img.dimensions(), (0, 0));
}

#[test]
fn load_keeps_pixel_bytes() {
    let first = u32::from_ne_bytes([1, 2, 3, 4]);
    let second = u32::from_ne_bytes([5, 6, 7, 8]);
    let units = container_units(1, 2, 1, &[first, second]);
    let img = load_from_memory(&units).expect("the container is complete").to_rgba8();
    assert_eq!(img.get_pixel(0, 0).0, [1, 2, 3, 4]);
    assert_eq!(img.get_pixel(1, 0).0, [5, 6, 7, 8]);
}

#[test]
fn container_bytes_decode_like_units() {
    let mut bytes = header(1, 1, 2);
    bytes.extend_from_slice(&[0, 0, 10, 20, 30, 40, 50, 60, 70, 80]);
    let img = decode_container(&bytes).expect("the container is complete");
    assert_eq!(img.dimensions(), (1, 2));
    let rgba = img.to_rgba8();
    assert_eq!(rgba.get_pixel(0, 0).0, [10, 20, 30, 40]);
    assert_eq!(rgba.get_pixel(0, 1).0, [50, 60, 70, 80]);
}

#[test]
fn container_bytes_short_payload_fails() {
    let mut bytes = header(1, 1, 2);
    bytes.extend_from_slice(&[0, 0, 10, 20, 30, 40, 50, 60, 70]);
    assert_eq!(decode_container(&bytes).err(), Some(DecodeError::InsufficientMemory));
}

#[test]
fn container_without_padding_has_no_payload() {
    assert_eq!(decode_container(&header(1, 0, 0)).map(|i| i.dimensions()).ok(), Some((0, 0)));
    assert_eq!(decode_container(&header(1, 1, 1)).err(), Some(DecodeError::InsufficientMemory));
}

#[test]
fn container_errors_pass_header_errors_on() {
    assert_eq!(decode_container(&[0u8; 12]).err(), Some(DecodeError::TooShort));
    assert_eq!(decode_container(&[0u8; 40]).err(), Some(DecodeError::BadSignature));
}

#[test]
fn error_messages_are_distinct() {
    let a = DecodeError::TooShort.message();
    let b = DecodeError::BadSignature.message();
    let c = DecodeError::InsufficientMemory.message();
    assert!(!a.is_empty() && !b.is_empty() && !c.is_empty());
    assert_ne!(a, b);
    assert_ne!(b, c);
    assert_ne!(a, c);
}

#[test]
fn extra_units_after_payload_are_ignored() {
    let payload = [
        u32::from_ne_bytes([1, 2, 3, 4]),
        u32::from_ne_bytes([5, 6, 7, 8]),
        u32::from_ne_bytes([9, 10, 11, 12]),
        u32::from_ne_bytes([13, 14, 15, 16]),
    ];
    let exact = load_from_memory(&container_units(1, 2, 2, &payload)).expect("complete");
    let mut longer_payload = payload.to_vec();
    longer_payload.extend_from_slice(&[0xDEAD_BEEF, 7]);
    let longer = load_from_memory(&container_units(1, 2, 2, &longer_payload)).expect("complete");
    assert_eq!(exact.dimensions(), (2, 2));
    assert_eq!(longer.dimensions(), (2, 2));
    assert_eq!(exact.as_bytes(), longer.as_bytes());
    assert_eq!(exact.as_bytes(), &(1..=16).collect::<Vec<u8>>()[..]);
}

#[test]
fn pixels_follow_payload_row_by_row() {
    let payload: Vec<u32> = (0..6u8).map(|k| u32::from_ne_bytes([k, k + 10, k + 20, k + 30])).collect();
    let img = load_from_memory(&container_units(1, 3, 2, &payload)).expect("complete").to_rgba8();
    for y in 0..2u32 {
        for x in 0..3u32 {
            let k = (y * 3 + x) as u8;
            assert_eq!(img.get_pixel(x, y).0, [k, k + 10, k + 20, k + 30]);
        }
    }
}

#[test]
fn error_message_texts() {
    assert_eq!(DecodeError::TooShort.message(), "Data is too short to contain an ASTC header");
    assert_eq!(DecodeError::BadSignature.message(), "Data does not contain an ASTC header");
    assert_eq!(DecodeError::InsufficientMemory.message(), "Not enough data to fill the image buffer");
}
