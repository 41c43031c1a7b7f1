use gdb_server::protocol::DebugError;
use gdb_server::registers::{BPFRegId, BPFRegs, NUM_REGS, REG_NUM_BYTES};

#[test]
fn serialize_is_96_little_endian_bytes() {
    let mut rf = BPFRegs::zeroed();
    rf.regs[0] = 1;
    rf.regs[10] = 0xdead_beef;
    rf.pc = 0x0102_0304_0506_0708;
    let bytes = rf.gdb_serialize();
    assert_eq!(bytes.len(), REG_NUM_BYTES);
    assert_eq!(&bytes[0..8], &[1, 0, 0, 0, 0, 0, 0, 0]);
    assert_eq!(&bytes[80..88], &[0xef, 0xbe, 0xad, 0xde, 0, 0, 0, 0]);
    // Program counter, least-significant byte first.
    assert_eq!(&bytes[88..96], &[8, 7, 6, 5, 4, 3, 2, 1]);
}

/// Register round trip: any valid 96-byte buffer survives
/// deserialize-then-serialize unchanged.
#[test]
fn buffer_round_trip() {
    let buffer: Vec<u8> = (0u8..96).map(|b| b.wrapping_mul(37).wrapping_add(11)).collect();
    let mut rf = BPFRegs::zeroed();
    assert_eq!(rf.gdb_deserialize(&buffer), Ok(()));
    assert_eq!(rf.gdb_serialize(), buffer);
}

#[test]
fn register_file_round_trip() {
    let mut rf = BPFRegs::zeroed();
    for i in 0..NUM_REGS {
        rf.regs[i] = (i as u64 + 1) * 0x0101_0101_0101_0101;
    }
    rf.pc = u64::MAX;
    let bytes = rf.gdb_serialize();
    let mut rf2 = BPFRegs::zeroed();
    assert_eq!(rf2.gdb_deserialize(&bytes), Ok(()));
    assert_eq!(rf2, rf);
}

#[test]
fn deserialize_rejects_wrong_lengths() {
    let mut rf = BPFRegs::zeroed();
    let before = rf.clone();
    assert_eq!(
        rf.gdb_deserialize(&vec![0u8; 95]),
        Err(DebugError::Serialization)
    );
    assert_eq!(
        rf.gdb_deserialize(&vec![0u8; 97]),
        Err(DebugError::Serialization)
    );
    assert_eq!(rf.gdb_deserialize(&Vec::new()), Err(DebugError::Serialization));
    assert_eq!(rf, before);
}

#[test]
fn raw_register_ids_up_to_the_pc_are_accepted() {
    for id in 0..=11usize {
        let got = BPFRegId::from_raw_id(id);
        assert!(got.is_some());
        let (rid, size) = got.unwrap();
        assert_eq!(rid, BPFRegId(id as u8));
        assert_eq!(size, 8);
    }
    assert!(BPFRegId::from_raw_id(12).is_none());
    assert!(BPFRegId::from_raw_id(usize::MAX).is_none());
    assert_eq!(BPFRegId::from(3u8), BPFRegId(3));
}
