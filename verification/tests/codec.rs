use deposition_codec::bytes::{read_u32_le, read_u64_le, ByteView};
use deposition_codec::composite::{decode_composite, encode};
use deposition_codec::deposition::{parse_deposition_lock_args, DepositionLockArgs};
use deposition_codec::error::CodecError;

fn single_field_buffer() -> Vec<u8> {
    // total = 4 + 4 * 2 + 2 = 14, offsets: 12 (header end), 14 (sentinel)
    vec![14, 0, 0, 0, 12, 0, 0, 0, 14, 0, 0, 0, 0xAA, 0xBB]
}

#[test]
fn encode_single_field() {
    let buf = encode(&vec![vec![0xAA, 0xBB]]);
    assert_eq!(buf, single_field_buffer());
}

#[test]
fn decode_single_field() {
    let buf = single_field_buffer();
    let c = decode_composite(&buf, 1).unwrap();
    assert_eq!(c.field_count(), 1);
    let v = c.field(&buf, 0);
    assert_eq!(v.start, 12);
    assert_eq!(v.end, 14);
    assert_eq!(v.len(), 2);
    assert_eq!(c.field_bytes(&buf, 0), vec![0xAA, 0xBB]);
}

#[test]
fn encode_no_fields() {
    let buf = encode(&vec![]);
    assert_eq!(buf, vec![8, 0, 0, 0, 8, 0, 0, 0]);
    let c = decode_composite(&buf, 0).unwrap();
    assert_eq!(c.field_count(), 0);
}

#[test]
fn round_trip_many_fields() {
    let fields = vec![
        vec![],
        vec![1],
        vec![2, 3, 4, 5],
        vec![0xFF; 32],
        vec![],
        vec![9, 8, 7],
    ];
    let buf = encode(&fields);
    let c = decode_composite(&buf, fields.len()).unwrap();
    assert_eq!(c.field_count(), fields.len());
    for (i, f) in fields.iter().enumerate() {
        assert_eq!(&c.field_bytes(&buf, i), f);
    }
}

#[test]
fn decoded_offsets_invariants() {
    let fields = vec![vec![1, 2], vec![], vec![3, 4, 5]];
    let buf = encode(&fields);
    let c = decode_composite(&buf, 3).unwrap();
    // header size = 4 + 4 * (3 + 1) = 20
    assert_eq!(c.offsets[0], 20);
    assert_eq!(c.offsets[c.offsets.len() - 1] as usize, buf.len());
    for w in c.offsets.windows(2) {
        assert!(w[0] <= w[1]);
    }
}

#[test]
fn decode_too_short() {
    for n in 0..4 {
        let buf = vec![0u8; n];
        assert_eq!(decode_composite(&buf, 1).unwrap_err(), CodecError::TooShort);
    }
}

#[test]
fn decode_length_mismatch() {
    // declares 5 bytes but holds 4
    let buf = vec![5, 0, 0, 0];
    assert_eq!(decode_composite(&buf, 1).unwrap_err(), CodecError::LengthMismatch);
    // declares 14 bytes but holds 15
    let mut buf = single_field_buffer();
    buf.push(0);
    assert_eq!(decode_composite(&buf, 1).unwrap_err(), CodecError::LengthMismatch);
}

#[test]
fn decode_header_too_short() {
    // 12 bytes, correctly self-declared, but a 3-field header needs 20
    let buf = vec![12, 0, 0, 0, 0, 0, 0, 0, 0, 0, 0, 0];
    assert_eq!(decode_composite(&buf, 3).unwrap_err(), CodecError::TooShort);
}

#[test]
fn decode_invalid_offsets() {
    // first offset does not name the header end
    let buf = vec![14, 0, 0, 0, 13, 0, 0, 0, 14, 0, 0, 0, 0xAA, 0xBB];
    assert_eq!(decode_composite(&buf, 1).unwrap_err(), CodecError::InvalidOffsets);
    // sentinel does not name the total length
    let buf = vec![14, 0, 0, 0, 12, 0, 0, 0, 13, 0, 0, 0, 0xAA, 0xBB];
    assert_eq!(decode_composite(&buf, 1).unwrap_err(), CodecError::InvalidOffsets);
    // decreasing offsets
    let buf = vec![
        18, 0, 0, 0, 16, 0, 0, 0, 15, 0, 0, 0, 18, 0, 0, 0, 1, 2,
    ];
    assert_eq!(decode_composite(&buf, 2).unwrap_err(), CodecError::InvalidOffsets);
}

#[test]
fn read_u64_le_exact() {
    let one = vec![0x01, 0, 0, 0, 0, 0, 0, 0];
    let v = ByteView::new(&one, 0, 8).unwrap();
    assert_eq!(read_u64_le(&one, v, 0), Ok(1));
    let max = vec![0xFF; 8];
    let v = ByteView::new(&max, 0, 8).unwrap();
    assert_eq!(read_u64_le(&max, v, 0), Ok(18446744073709551615));
}

#[test]
fn read_u32_le_exact() {
    let buf = vec![0x78, 0x56, 0x34, 0x12, 0xFF];
    let v = ByteView::new(&buf, 0, 5).unwrap();
    assert_eq!(read_u32_le(&buf, v, 0), Ok(0x12345678));
    assert_eq!(read_u32_le(&buf, v, 1), Ok(0xFF123456));
}

#[test]
fn reads_out_of_bounds() {
    let buf = vec![0u8; 10];
    let v = ByteView::new(&buf, 2, 8).unwrap();
    assert_eq!(read_u32_le(&buf, v, 3), Err(CodecError::OutOfBounds));
    assert_eq!(read_u64_le(&buf, v, 0), Err(CodecError::OutOfBounds));
}

#[test]
fn byte_view_bounds() {
    let buf = vec![1, 2, 3, 4];
    assert_eq!(ByteView::new(&buf, 3, 2), Err(CodecError::OutOfBounds));
    assert_eq!(ByteView::new(&buf, 0, 5), Err(CodecError::OutOfBounds));
    let v = ByteView::new(&buf, 1, 3).unwrap();
    assert_eq!(v.bytes(&buf), vec![2, 3]);
}

fn deposition_buffer(timeout_field: Vec<u8>) -> Vec<u8> {
    let fields = vec![vec![0x11; 32], vec![0x22; 5], timeout_field];
    encode(&fields)
}

#[test]
fn cancel_timeout_value() {
    let buf = deposition_buffer(vec![0x39, 0x30, 0, 0, 0, 0, 0, 0]);
    let args = DepositionLockArgs::from_slice(&buf).unwrap();
    assert_eq!(args.cancel_timeout(&buf), Ok(12345));
    assert_eq!(
        args.cancel_timeout_bytes(&buf),
        Ok(vec![0x39, 0x30, 0, 0, 0, 0, 0, 0])
    );
}

#[test]
fn cancel_timeout_width_mismatch() {
    let buf = deposition_buffer(vec![1, 2, 3]);
    let args = DepositionLockArgs::from_slice(&buf).unwrap();
    assert_eq!(args.cancel_timeout(&buf), Err(CodecError::FieldWidthMismatch));
    assert_eq!(
        args.cancel_timeout_bytes(&buf),
        Err(CodecError::FieldWidthMismatch)
    );
}

#[test]
fn parse_valid_hex() {
    let buf = deposition_buffer(vec![0xEF, 0xBE, 0xAD, 0xDE, 0, 0, 0, 0]);
    let hex_string = hex::encode(&buf);
    assert_eq!(
        parse_deposition_lock_args(&hex_string),
        Ok(vec![0xEF, 0xBE, 0xAD, 0xDE, 0, 0, 0, 0])
    );
    let upper = hex_string.to_uppercase();
    assert_eq!(
        parse_deposition_lock_args(&upper),
        Ok(vec![0xEF, 0xBE, 0xAD, 0xDE, 0, 0, 0, 0])
    );
}

#[test]
fn parse_invalid_hex() {
    assert_eq!(
        parse_deposition_lock_args("zz"),
        Err(CodecError::InvalidInput)
    );
    assert_eq!(
        parse_deposition_lock_args("abc"),
        Err(CodecError::InvalidInput)
    );
    assert_eq!(
        parse_deposition_lock_args("0e0000000c0000000e000"),
        Err(CodecError::InvalidInput)
    );
    assert_eq!(
        parse_deposition_lock_args("\u{e9}e"),
        Err(CodecError::InvalidInput)
    );
}

#[test]
fn parse_structurally_invalid() {
    // well-formed hex, but the bytes are not a valid composite
    assert_eq!(
        parse_deposition_lock_args(""),
        Err(CodecError::TooShort)
    );
    assert_eq!(
        parse_deposition_lock_args("05000000"),
        Err(CodecError::LengthMismatch)
    );
}

#[test]
fn decode_arbitrary_buffers_never_misbehaves() {
    // deterministic pseudo-random buffers: decoding either yields a view
    // whose offsets satisfy the structural invariants or a defined error
    let mut state: u64 = 0x2545F4914F6CDD1D;
    for round in 0..200 {
        let len = (round * 7) % 64;
        let mut buf = Vec::with_capacity(len);
        for _ in 0..len {
            state = state
                .wrapping_mul(6364136223846793005)
                .wrapping_add(1442695040888963407);
            buf.push((state >> 33) as u8);
        }
        for fc in 0..4 {
            match decode_composite(&buf, fc) {
                Ok(c) => {
                    assert_eq!(c.field_count(), fc);
                    assert_eq!(c.offsets[0] as usize, 4 + 4 * (fc + 1));
                    assert_eq!(c.offsets[fc] as usize, buf.len());
                    for w in c.offsets.windows(2) {
                        assert!(w[0] <= w[1]);
                    }
                }
                Err(e) => {
                    assert!(matches!(
                        e,
                        CodecError::TooShort
                            | CodecError::LengthMismatch
                            | CodecError::InvalidOffsets
                    ));
                }
            }
        }
    }
}
