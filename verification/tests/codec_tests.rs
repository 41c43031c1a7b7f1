use gdb_server::codec::{
    checksum, de_escape, decode_hex, decode_packet, encode_hex, escape, is_reserved_byte, subvec,
    wrap_packet,
};
use gdb_server::protocol::DebugError;

#[test]
fn checksum_of_known_payloads() {
    assert_eq!(checksum(&b"?".to_vec()), 0x3f);
    assert_eq!(checksum(&b"abc".to_vec()), ((97u32 + 98 + 99) % 256) as u8);
    assert_eq!(checksum(&Vec::new()), 0);
    // Wraps around modulo 256.
    assert_eq!(checksum(&vec![0xff, 0xff, 0x03]), 0x01);
}

#[test]
fn reserved_bytes_are_exactly_three() {
    assert!(is_reserved_byte(0x23));
    assert!(is_reserved_byte(0x24));
    assert!(is_reserved_byte(0x7d));
    assert!(!is_reserved_byte(0x00));
    assert!(!is_reserved_byte(b'a'));
}

#[test]
fn escape_round_trip_plain_payload() {
    let payload = b"hello, world".to_vec();
    let escaped = escape(&payload);
    // Nothing reserved: escaping is the identity.
    assert_eq!(escaped, payload);
    assert_eq!(de_escape(escaped), payload);
}

#[test]
fn escape_single_reserved_bytes() {
    for b in [0x23u8, 0x24, 0x7d] {
        let escaped = escape(&vec![b]);
        assert_eq!(escaped, vec![0x7d, b ^ 0x20]);
        assert_eq!(de_escape(escaped), vec![b]);
    }
}

#[test]
fn escape_round_trip_mixed_payload() {
    let payload = vec![b'a', 0x24, b'b', 0x7d, 0x23, 0x00];
    let escaped = escape(&payload);
    assert_eq!(
        escaped,
        vec![b'a', 0x7d, 0x04, b'b', 0x7d, 0x5d, 0x7d, 0x03, 0x00]
    );
    assert_eq!(de_escape(escaped), payload);
}

#[test]
fn hex_round_trip_and_exact_values() {
    assert_eq!(encode_hex(&vec![0xde, 0xad]), b"dead".to_vec());
    assert_eq!(decode_hex(&b"dead".to_vec()), Ok(vec![0xde, 0xad]));
    assert_eq!(decode_hex(&b"DEAD".to_vec()), Ok(vec![0xde, 0xad]));
    assert_eq!(decode_hex(&b"00ff10".to_vec()), Ok(vec![0x00, 0xff, 0x10]));
    let all: Vec<u8> = (0u16..256).map(|b| b as u8).collect();
    assert_eq!(decode_hex(&encode_hex(&all)), Ok(all));
}

#[test]
fn hex_rejects_malformed_fields() {
    assert_eq!(decode_hex(&b"abc".to_vec()), Err(DebugError::InvalidPacket));
    assert_eq!(decode_hex(&b"zz".to_vec()), Err(DebugError::InvalidPacket));
}

#[test]
fn wrap_packet_exact_form() {
    // `$?#3f`: checksum of `?` is 0x3f.
    assert_eq!(wrap_packet(&b"?".to_vec()), b"$?#3f".to_vec());
}

#[test]
fn packet_round_trip() {
    for payload in [
        b"".to_vec(),
        b"?".to_vec(),
        b"m1000,20".to_vec(),
        vec![0x24, 0x23, 0x7d, b'x'],
    ] {
        let wrapped = wrap_packet(&payload);
        assert_eq!(decode_packet(&wrapped), Ok(payload));
    }
}

#[test]
fn decode_rejects_malformed_packets() {
    assert_eq!(
        decode_packet(&b"?#3f".to_vec()),
        Err(DebugError::InvalidPacket)
    );
    assert_eq!(decode_packet(&b"$#".to_vec()), Err(DebugError::InvalidPacket));
    assert_eq!(
        decode_packet(&b"$?#zz".to_vec()),
        Err(DebugError::InvalidPacket)
    );
}

#[test]
fn bit_flip_in_payload_is_caught() {
    let wrapped = wrap_packet(&b"m1000,20".to_vec());
    // Flip each bit of one payload byte in turn: the checksum no longer
    // matches, so the packet is refused and would be answered with `-`.
    for k in 0..8 {
        let mut corrupted = wrapped.clone();
        corrupted[1] ^= 1u8 << k;
        assert_eq!(
            decode_packet(&corrupted),
            Err(DebugError::ChecksumMismatch)
        );
    }
}

#[test]
fn subvec_copies_the_range() {
    let v = b"abcdef".to_vec();
    assert_eq!(subvec(&v, 1, 4), b"bcd".to_vec());
    assert_eq!(subvec(&v, 0, 0), Vec::<u8>::new());
}
