//! Command parser: maps one de-escaped packet payload to the typed client
//! intent it denotes, or to an invalid-packet error.

use vstd::prelude::*;

use crate::codec::{hex_decode_spec, hex_digit_val, hex_digit_value, is_hex_digit, is_hex_seq};
use crate::codec::{decode_hex, subvec};
use crate::protocol::{DebugError, DebugRequest};
use crate::registers::le_value;

verus! {

/// 16 to the `k`th power.
pub open spec fn pow16(k: nat) -> int
    decreases k,
{
    if k == 0 {
        1
    } else {
        16 * pow16((k - 1) as nat)
    }
}

/// A big-endian hex numeral: one to sixteen hex digits.
pub open spec fn is_hex_num(s: Seq<u8>) -> bool {
    1 <= s.len() <= 16 && forall|i: int| 0 <= i < s.len() ==> is_hex_digit(#[trigger] s[i])
}

/// The value a big-endian hex numeral denotes.
pub open spec fn hex_num_val(s: Seq<u8>) -> int
    decreases s.len(),
{
    if s.len() == 0 {
        0
    } else {
        hex_num_val(s.drop_last()) * 16 + hex_digit_val(s.last())
    }
}

/// The first position of `b` in `s` at or after `from`.
pub open spec fn find_byte_spec(s: Seq<u8>, b: u8, from: int) -> Option<int>
    decreases s.len() - from,
{
    if from < 0 || from >= s.len() {
        None
    } else if s[from] == b {
        Some(from)
    } else {
        find_byte_spec(s, b, from + 1)
    }
}

/// Finds the first `b` in `v` at or after `from`.
#[verifier::loop_isolation(false)]
pub fn find_byte(v: &Vec<u8>, b: u8, from: usize) -> (r: Option<usize>)
    ensures
        match r {
            Some(i) => from <= i < v@.len() && v@[i as int] == b && find_byte_spec(
                v@,
                b,
                from as int,
            ) == Some(i as int),
            None => find_byte_spec(v@, b, from as int) is None,
        },
{
    let mut i: usize = from;
    while i < v.len()
        invariant
            from <= i,
            find_byte_spec(v@, b, from as int) == find_byte_spec(v@, b, i as int),
        decreases v@.len() - i,
    {
        if v[i] == b {
            return Some(i);
        }
        i = i + 1;
    }
    None
}

/// A fixed-width numeric field: exactly sixteen hex digits whose decoded
/// eight bytes, read least-significant first, denote a value the machine's
/// address width can hold.
pub open spec fn parse_usize_spec(s: Seq<u8>) -> Option<usize> {
    if s.len() == 16 && is_hex_seq(s) && le_value(hex_decode_spec(s)) <= usize::MAX {
        Some(le_value(hex_decode_spec(s)) as usize)
    } else {
        None
    }
}

/// Parses a fixed-width sixteen-digit hex field into an address.
pub fn parse_usize(buf: &Vec<u8>) -> (r: Option<usize>)
    ensures
        r == parse_usize_spec(buf@),
{
    if buf.len() != 16 {
        return None;
    }
    let bytes = match decode_hex(buf) {
        Ok(b) => b,
        Err(_) => {
            return None;
        },
    };
    proof {
        lemma_hex_decode_len(buf@);
        crate::registers::lemma_le_value_bound(bytes@);
        crate::registers::lemma_pow256_8();
        assert(bytes@.subrange(0, 8) =~= bytes@);
    }
    let v = crate::registers::read_u64_le(&bytes, 0);
    if v <= usize::MAX as u64 {
        Some(v as usize)
    } else {
        None
    }
}

pub proof fn lemma_hex_decode_len(s: Seq<u8>)
    ensures
        hex_decode_spec(s).len() == s.len() / 2,
    decreases s.len(),
{
    if s.len() >= 2 {
        lemma_hex_decode_len(s.skip(2));
        assert(s.skip(2).len() == s.len() - 2);
    }
}

/// The value of a variable-width big-endian hex field, where it is one the
/// machine's address width can hold.
pub open spec fn parse_hex_num_spec(s: Seq<u8>) -> Option<usize> {
    if is_hex_num(s) && hex_num_val(s) <= usize::MAX {
        Some(hex_num_val(s) as usize)
    } else {
        None
    }
}

/// Parses the big-endian hex numeral in `v[from..to]`.
#[verifier::loop_isolation(false)]
pub fn parse_hex_num(v: &Vec<u8>, from: usize, to: usize) -> (r: Option<usize>)
    requires
        from <= to <= v@.len(),
    ensures
        r == parse_hex_num_spec(v@.subrange(from as int, to as int)),
{
    let ghost s = v@.subrange(from as int, to as int);
    if to - from < 1 || to - from > 16 {
        return None;
    }
    let mut acc: u64 = 0;
    let mut i: usize = from;
    proof {
        assert(s.take(0) =~= Seq::<u8>::empty());
        lemma_pow16_16();
    }
    while i < to
        invariant
            from <= i <= to,
            forall|j: int| 0 <= j < i - from ==> is_hex_digit(#[trigger] s[j]),
            acc as int == hex_num_val(s.take(i - from)),
            pow16((i - from) as nat) > acc as int,
        decreases to - i,
    {
        let d = match hex_digit_value(v[i]) {
            Some(d) => d,
            None => {
                proof {
                    assert(s[i as int - from] == v@[i as int]);
                }
                return None;
            },
        };
        proof {
            assert(s[i as int - from] == v@[i as int]);
            assert(s.take(i as int + 1 - from).drop_last() =~= s.take(i as int - from));
            assert(s.take(i as int + 1 - from).last() == s[i as int - from]);
            lemma_pow16_mono((i - from + 1) as nat, 16);
        }
        acc = acc * 16 + d as u64;
        i = i + 1;
    }
    proof {
        assert(s.take(to as int - from) =~= s);
    }
    if acc <= usize::MAX as u64 {
        Some(acc as usize)
    } else {
        None
    }
}

proof fn lemma_pow16_16()
    ensures
        pow16(16) == 0x1_0000_0000_0000_0000,
{
    assert(pow16(16) == 0x1_0000_0000_0000_0000) by {
        reveal_with_fuel(pow16, 17);
    }
}

proof fn lemma_pow16_pos(k: nat)
    ensures
        pow16(k) >= 1,
    decreases k,
{
    if k > 0 {
        lemma_pow16_pos((k - 1) as nat);
    }
}

proof fn lemma_pow16_mono(a: nat, b: nat)
    requires
        a <= b,
    ensures
        pow16(a) <= pow16(b),
    decreases b,
{
    if a < b {
        lemma_pow16_mono(a, (b - 1) as nat);
        lemma_pow16_pos((b - 1) as nat);
    }
}


/// The shape a payload denotes, with packet fields as mathematical values.
/// `Invalid` stands for every payload that no command grammar accepts.
pub enum CommandForm {
    ShowMem { addr: usize, len: usize },
    SetMem { addr: usize, data: Seq<u8> },
    ShowRegs,
    SetRegs(Seq<u8>),
    ShowReg(usize),
    SetReg(usize, u64),
    Continue(Option<usize>),
    Kill,
    Load { offset: usize, len: Option<usize> },
    Offsets,
    Supported,
    Step,
    WhyHalted,
    SetBreakpoint(usize),
    RemoveBreakpoint(usize),
    Invalid,
}

/// Whether a parsed request carries exactly the fields of a command form.
pub open spec fn request_matches(r: DebugRequest, c: CommandForm) -> bool {
    match c {
        CommandForm::ShowMem { addr, len } => r == DebugRequest::ShowMem { addr, len },
        CommandForm::SetMem { addr, data } => match r {
            DebugRequest::SetMem { addr: a, buf } => a == addr && buf@ == data,
            _ => false,
        },
        CommandForm::ShowRegs => r == DebugRequest::ShowRegs,
        CommandForm::SetRegs(data) => match r {
            DebugRequest::SetRegs(buf) => buf@ == data,
            _ => false,
        },
        CommandForm::ShowReg(id) => r == DebugRequest::ShowReg(id),
        CommandForm::SetReg(id, val) => r == DebugRequest::SetReg(id, val),
        CommandForm::Continue(addr) => r == DebugRequest::Continue(addr),
        CommandForm::Kill => r == DebugRequest::Kill,
        CommandForm::Load { offset, len } => r == DebugRequest::Load { offset, len },
        CommandForm::Offsets => r == DebugRequest::Offsets,
        CommandForm::Supported => r == DebugRequest::Supported,
        CommandForm::Step => r == DebugRequest::Step,
        CommandForm::WhyHalted => r == DebugRequest::WhyHalted,
        CommandForm::SetBreakpoint(addr) => r == DebugRequest::SetBreakpoint(addr),
        CommandForm::RemoveBreakpoint(addr) => r == DebugRequest::RemoveBreakpoint(addr),
        CommandForm::Invalid => false,
    }
}

/// The payload `qOffsets`.
pub open spec fn is_qoffsets(s: Seq<u8>) -> bool {
    s =~= seq![0x71u8, 0x4fu8, 0x66u8, 0x66u8, 0x73u8, 0x65u8, 0x74u8, 0x73u8]
}

/// A payload beginning `qSupported`.
pub open spec fn is_qsupported(s: Seq<u8>) -> bool {
    s.len() >= 10 && s.take(10) =~= seq![
        0x71u8,
        0x53u8,
        0x75u8,
        0x70u8,
        0x70u8,
        0x6fu8,
        0x72u8,
        0x74u8,
        0x65u8,
        0x64u8,
    ]
}

/// The command grammar: what one de-escaped payload denotes.
pub open spec fn parse_command_spec(s: Seq<u8>) -> CommandForm {
    if s.len() == 0 {
        CommandForm::Invalid
    } else if s[0] == 0x3f {  // `?`
        if s.len() == 1 {
            CommandForm::WhyHalted
        } else {
            CommandForm::Invalid
        }
    } else if s[0] == 0x63 {  // `c`
        if s.len() == 1 {
            CommandForm::Continue(None)
        } else {
            match parse_usize_spec(s.skip(1)) {
                Some(addr) => CommandForm::Continue(Some(addr)),
                None => CommandForm::Invalid,
            }
        }
    } else if s[0] == 0x73 {  // `s`
        if s.len() == 1 {
            CommandForm::Step
        } else {
            CommandForm::Invalid
        }
    } else if s[0] == 0x67 {  // `g`
        if s.len() == 1 {
            CommandForm::ShowRegs
        } else {
            CommandForm::Invalid
        }
    } else if s[0] == 0x47 {  // `G`
        if is_hex_seq(s.skip(1)) {
            CommandForm::SetRegs(hex_decode_spec(s.skip(1)))
        } else {
            CommandForm::Invalid
        }
    } else if s[0] == 0x70 {  // `p`
        match parse_hex_num_spec(s.skip(1)) {
            Some(id) => CommandForm::ShowReg(id),
            None => CommandForm::Invalid,
        }
    } else if s[0] == 0x50 {  // `P`
        match find_byte_spec(s, 0x3d, 1) {
            Some(e) => match (parse_hex_num_spec(s.subrange(1, e)), parse_usize_spec(
                s.skip(e + 1),
            )) {
                (Some(id), Some(val)) => CommandForm::SetReg(id, val as u64),
                _ => CommandForm::Invalid,
            },
            None => CommandForm::Invalid,
        }
    } else if s[0] == 0x6d {  // `m`
        match find_byte_spec(s, 0x2c, 1) {
            Some(c) => match (parse_hex_num_spec(s.subrange(1, c)), parse_hex_num_spec(
                s.skip(c + 1),
            )) {
                (Some(addr), Some(len)) => CommandForm::ShowMem { addr, len },
                _ => CommandForm::Invalid,
            },
            None => CommandForm::Invalid,
        }
    } else if s[0] == 0x4d {  // `M`
        match find_byte_spec(s, 0x2c, 1) {
            Some(c) => match find_byte_spec(s, 0x3a, c + 1) {
                Some(o) => match (parse_hex_num_spec(s.subrange(1, c)), parse_hex_num_spec(
                    s.subrange(c + 1, o),
                )) {
                    (Some(addr), Some(len)) => if is_hex_seq(s.skip(o + 1)) && hex_decode_spec(
                        s.skip(o + 1),
                    ).len() == len {
                        CommandForm::SetMem { addr, data: hex_decode_spec(s.skip(o + 1)) }
                    } else {
                        CommandForm::Invalid
                    },
                    _ => CommandForm::Invalid,
                },
                None => CommandForm::Invalid,
            },
            None => CommandForm::Invalid,
        }
    } else if s[0] == 0x6b {  // `k`
        if s.len() == 1 {
            CommandForm::Kill
        } else {
            CommandForm::Invalid
        }
    } else if s[0] == 0x7a || s[0] == 0x5a {  // `z` | `Z`
        if s.len() >= 3 && s[1] == 0x30 && s[2] == 0x2c {
            match find_byte_spec(s, 0x2c, 3) {
                Some(c) => match (parse_hex_num_spec(s.subrange(3, c)), parse_hex_num_spec(
                    s.skip(c + 1),
                )) {
                    (Some(addr), Some(_kind)) => if s[0] == 0x7a {
                        CommandForm::RemoveBreakpoint(addr)
                    } else {
                        CommandForm::SetBreakpoint(addr)
                    },
                    _ => CommandForm::Invalid,
                },
                None => CommandForm::Invalid,
            }
        } else {
            CommandForm::Invalid
        }
    } else if s[0] == 0x71 {  // `q`
        if is_qoffsets(s) {
            CommandForm::Offsets
        } else if is_qsupported(s) {
            CommandForm::Supported
        } else {
            CommandForm::Invalid
        }
    } else if s[0] == 0x58 {  // `X`
        match find_byte_spec(s, 0x2c, 1) {
            Some(c) => match find_byte_spec(s, 0x3a, c + 1) {
                Some(o) => match (parse_hex_num_spec(s.subrange(1, c)), parse_hex_num_spec(
                    s.subrange(c + 1, o),
                )) {
                    (Some(offset), Some(len)) => CommandForm::Load { offset, len: Some(len) },
                    _ => CommandForm::Invalid,
                },
                None => CommandForm::Invalid,
            },
            None => CommandForm::Invalid,
        }
    } else {
        CommandForm::Invalid
    }
}

/// Parses one de-escaped payload into the client's typed intent. A payload
/// that no command grammar accepts is an invalid packet; the session reports
/// it and stays open.
pub fn parse_command(packet: Vec<u8>) -> (r: Result<DebugRequest, DebugError>)
    ensures
        r is Ok <==> !(parse_command_spec(packet@) is Invalid),
        r is Ok ==> request_matches(r->Ok_0, parse_command_spec(packet@)),
        r is Err ==> r == Err::<DebugRequest, DebugError>(DebugError::InvalidPacket),
{
    let n = packet.len();
    if n == 0 {
        return Err(DebugError::InvalidPacket);
    }
    let c0 = packet[0];
    if c0 == 0x3f {
        if n == 1 {
            Ok(DebugRequest::WhyHalted)
        } else {
            Err(DebugError::InvalidPacket)
        }
    } else if c0 == 0x63 {
        if n == 1 {
            Ok(DebugRequest::Continue(None))
        } else {
            let rest = subvec(&packet, 1, n);
            proof {
                assert(rest@ =~= packet@.skip(1));
            }
            match parse_usize(&rest) {
                Some(addr) => Ok(DebugRequest::Continue(Some(addr))),
                None => Err(DebugError::InvalidPacket),
            }
        }
    } else if c0 == 0x73 {
        if n == 1 {
            Ok(DebugRequest::Step)
        } else {
            Err(DebugError::InvalidPacket)
        }
    } else if c0 == 0x67 {
        if n == 1 {
            Ok(DebugRequest::ShowRegs)
        } else {
            Err(DebugError::InvalidPacket)
        }
    } else if c0 == 0x47 {
        let rest = subvec(&packet, 1, n);
        proof {
            assert(rest@ =~= packet@.skip(1));
        }
        match decode_hex(&rest) {
            Ok(bytes) => Ok(DebugRequest::SetRegs(bytes)),
            Err(_) => Err(DebugError::InvalidPacket),
        }
    } else if c0 == 0x70 {
        proof {
            assert(packet@.subrange(1, n as int) =~= packet@.skip(1));
        }
        match parse_hex_num(&packet, 1, n) {
            Some(id) => Ok(DebugRequest::ShowReg(id)),
            None => Err(DebugError::InvalidPacket),
        }
    } else if c0 == 0x50 {
        match find_byte(&packet, 0x3d, 1) {
            Some(e) => {
                let id = parse_hex_num(&packet, 1, e);
                let val_field = subvec(&packet, e + 1, n);
                proof {
                    assert(val_field@ =~= packet@.skip(e as int + 1));
                }
                let val = parse_usize(&val_field);
                match (id, val) {
                    (Some(id), Some(val)) => Ok(DebugRequest::SetReg(id, val as u64)),
                    _ => Err(DebugError::InvalidPacket),
                }
            },
            None => Err(DebugError::InvalidPacket),
        }
    } else if c0 == 0x6d {
        match find_byte(&packet, 0x2c, 1) {
            Some(c) => {
                let addr = parse_hex_num(&packet, 1, c);
                proof {
                    assert(packet@.subrange(c as int + 1, n as int) =~= packet@.skip(c as int + 1));
                }
                let len = parse_hex_num(&packet, c + 1, n);
                match (addr, len) {
                    (Some(addr), Some(len)) => Ok(DebugRequest::ShowMem { addr, len }),
                    _ => Err(DebugError::InvalidPacket),
                }
            },
            None => Err(DebugError::InvalidPacket),
        }
    } else if c0 == 0x4d {
        match find_byte(&packet, 0x2c, 1) {
            Some(c) => match find_byte(&packet, 0x3a, c + 1) {
                Some(o) => {
                    let addr = parse_hex_num(&packet, 1, c);
                    let len = parse_hex_num(&packet, c + 1, o);
                    let data_field = subvec(&packet, o + 1, n);
                    proof {
                        assert(data_field@ =~= packet@.skip(o as int + 1));
                    }
                    match (addr, len) {
                        (Some(addr), Some(len)) => match decode_hex(&data_field) {
                            Ok(data) => {
                                if data.len() == len {
                                    Ok(DebugRequest::SetMem { addr, buf: data })
                                } else {
                                    Err(DebugError::InvalidPacket)
                                }
                            },
                            Err(_) => Err(DebugError::InvalidPacket),
                        },
                        _ => Err(DebugError::InvalidPacket),
                    }
                },
                None => Err(DebugError::InvalidPacket),
            },
            None => Err(DebugError::InvalidPacket),
        }
    } else if c0 == 0x6b {
        if n == 1 {
            Ok(DebugRequest::Kill)
        } else {
            Err(DebugError::InvalidPacket)
        }
    } else if c0 == 0x7a || c0 == 0x5a {
        if n >= 3 && packet[1] == 0x30 && packet[2] == 0x2c {
            match find_byte(&packet, 0x2c, 3) {
                Some(c) => {
                    let addr = parse_hex_num(&packet, 3, c);
                    proof {
                        assert(packet@.subrange(c as int + 1, n as int) =~= packet@.skip(
                            c as int + 1,
                        ));
                    }
                    let kind = parse_hex_num(&packet, c + 1, n);
                    match (addr, kind) {
                        (Some(addr), Some(_)) => {
                            if c0 == 0x7a {
                                Ok(DebugRequest::RemoveBreakpoint(addr))
                            } else {
                                Ok(DebugRequest::SetBreakpoint(addr))
                            }
                        },
                        _ => Err(DebugError::InvalidPacket),
                    }
                },
                None => Err(DebugError::InvalidPacket),
            }
        } else {
            Err(DebugError::InvalidPacket)
        }
    } else if c0 == 0x71 {
        if n == 8 && packet[1] == 0x4f && packet[2] == 0x66 && packet[3] == 0x66 && packet[4]
            == 0x73 && packet[5] == 0x65 && packet[6] == 0x74 && packet[7] == 0x73 {
            proof {
                assert(is_qoffsets(packet@));
            }
            Ok(DebugRequest::Offsets)
        } else if n >= 10 && packet[1] == 0x53 && packet[2] == 0x75 && packet[3] == 0x70
            && packet[4] == 0x70 && packet[5] == 0x6f && packet[6] == 0x72 && packet[7] == 0x74
            && packet[8] == 0x65 && packet[9] == 0x64 {
            proof {
                assert(is_qsupported(packet@));
                assert(!is_qoffsets(packet@));
            }
            Ok(DebugRequest::Supported)
        } else {
            proof {
                assert(!is_qoffsets(packet@));
                assert(!is_qsupported(packet@));
            }
            Err(DebugError::InvalidPacket)
        }
    } else if c0 == 0x58 {
        match find_byte(&packet, 0x2c, 1) {
            Some(c) => match find_byte(&packet, 0x3a, c + 1) {
                Some(o) => {
                    let offset = parse_hex_num(&packet, 1, c);
                    let len = parse_hex_num(&packet, c + 1, o);
                    match (offset, len) {
                        (Some(offset), Some(len)) => Ok(
                            DebugRequest::Load { offset, len: Some(len) },
                        ),
                        _ => Err(DebugError::InvalidPacket),
                    }
                },
                None => Err(DebugError::InvalidPacket),
            },
            None => Err(DebugError::InvalidPacket),
        }
    } else {
        Err(DebugError::InvalidPacket)
    }
}

} // verus!
