use gdb_server::parser::{find_byte, parse_command, parse_hex_num, parse_usize};
use gdb_server::protocol::{DebugError, DebugRequest};

fn parse(payload: &[u8]) -> Result<DebugRequest, DebugError> {
    parse_command(payload.to_vec())
}

#[test]
fn parse_usize_reads_sixteen_hex_digits_little_endian() {
    // Decoded bytes 00 10 00 ... 00 denote 0x1000 read least-significant
    // byte first.
    assert_eq!(parse_usize(&b"0010000000000000".to_vec()), Some(0x1000));
    assert_eq!(parse_usize(&b"0000000000000000".to_vec()), Some(0));
    assert_eq!(parse_usize(&b"0100000000000000".to_vec()), Some(1));
    assert_eq!(parse_usize(&b"123".to_vec()), None);
    assert_eq!(parse_usize(&b"00100000000000zz".to_vec()), None);
}

#[test]
fn parse_hex_num_reads_big_endian() {
    let v = b"x1000,ff".to_vec();
    assert_eq!(parse_hex_num(&v, 1, 5), Some(0x1000));
    assert_eq!(parse_hex_num(&v, 6, 8), Some(0xff));
    assert_eq!(parse_hex_num(&v, 1, 1), None);
    assert_eq!(parse_hex_num(&v, 0, 5), None);
}

#[test]
fn find_byte_finds_the_first_occurrence() {
    let v = b"m10,20,30".to_vec();
    assert_eq!(find_byte(&v, b',', 1), Some(3));
    assert_eq!(find_byte(&v, b',', 4), Some(6));
    assert_eq!(find_byte(&v, b'x', 0), None);
}

#[test]
fn single_letter_commands() {
    assert_eq!(parse(b"?"), Ok(DebugRequest::WhyHalted));
    assert_eq!(parse(b"s"), Ok(DebugRequest::Step));
    assert_eq!(parse(b"g"), Ok(DebugRequest::ShowRegs));
    assert_eq!(parse(b"k"), Ok(DebugRequest::Kill));
    assert_eq!(parse(b"c"), Ok(DebugRequest::Continue(None)));
}

#[test]
fn continue_with_address() {
    assert_eq!(
        parse(b"c0010000000000000"),
        Ok(DebugRequest::Continue(Some(0x1000)))
    );
    assert_eq!(parse(b"c1000"), Err(DebugError::InvalidPacket));
}

#[test]
fn register_commands() {
    let hex: Vec<u8> = std::iter::repeat(b'0').take(192).collect();
    let mut payload = b"G".to_vec();
    payload.extend_from_slice(&hex);
    assert_eq!(parse(&payload), Ok(DebugRequest::SetRegs(vec![0u8; 96])));

    // An odd number of digits is rejected; a short but even field parses,
    // its length being the session's concern.
    assert_eq!(parse(b"G123"), Err(DebugError::InvalidPacket));
    assert_eq!(parse(b"Gbeef"), Ok(DebugRequest::SetRegs(vec![0xbe, 0xef])));

    assert_eq!(parse(b"p1f"), Ok(DebugRequest::ShowReg(0x1f)));
    assert_eq!(parse(b"p"), Err(DebugError::InvalidPacket));
    assert_eq!(
        parse(b"P5=0a00000000000000"),
        Ok(DebugRequest::SetReg(5, 0x0a))
    );
    assert_eq!(parse(b"P5=0a"), Err(DebugError::InvalidPacket));
    assert_eq!(parse(b"P5"), Err(DebugError::InvalidPacket));
}

#[test]
fn memory_commands() {
    assert_eq!(
        parse(b"m1000,20"),
        Ok(DebugRequest::ShowMem { addr: 0x1000, len: 0x20 })
    );
    assert_eq!(parse(b"m1000"), Err(DebugError::InvalidPacket));
    assert_eq!(
        parse(b"M1000,2:beef"),
        Ok(DebugRequest::SetMem { addr: 0x1000, buf: vec![0xbe, 0xef] })
    );
    // The byte count must match the length field.
    assert_eq!(parse(b"M1000,3:beef"), Err(DebugError::InvalidPacket));
    assert_eq!(parse(b"M1000,2:bzef"), Err(DebugError::InvalidPacket));
}

#[test]
fn breakpoint_commands() {
    assert_eq!(parse(b"Z0,1000,1"), Ok(DebugRequest::SetBreakpoint(0x1000)));
    assert_eq!(
        parse(b"z0,1000,1"),
        Ok(DebugRequest::RemoveBreakpoint(0x1000))
    );
    assert_eq!(parse(b"Z1,1000,1"), Err(DebugError::InvalidPacket));
    assert_eq!(parse(b"Z0,1000"), Err(DebugError::InvalidPacket));
    assert_eq!(parse(b"Z0,zz,1"), Err(DebugError::InvalidPacket));
}

#[test]
fn query_commands() {
    assert_eq!(parse(b"qOffsets"), Ok(DebugRequest::Offsets));
    assert_eq!(
        parse(b"qSupported:xmlRegisters=i386"),
        Ok(DebugRequest::Supported)
    );
    assert_eq!(parse(b"qSupported"), Ok(DebugRequest::Supported));
    assert_eq!(parse(b"qOffset"), Err(DebugError::InvalidPacket));
    assert_eq!(parse(b"qRcmd,test"), Err(DebugError::InvalidPacket));
}

#[test]
fn load_command() {
    assert_eq!(
        parse(b"X200,2:ab"),
        Ok(DebugRequest::Load { offset: 0x200, len: Some(2) })
    );
    assert_eq!(parse(b"X200"), Err(DebugError::InvalidPacket));
}

#[test]
fn garbage_is_an_invalid_packet() {
    assert_eq!(parse(b""), Err(DebugError::InvalidPacket));
    assert_eq!(parse(b"D"), Err(DebugError::InvalidPacket));
    assert_eq!(parse(b"!!"), Err(DebugError::InvalidPacket));
}
