//! Reply encoding: the payload bytes of stop notifications and command
//! replies, as the protocol spells them, before packet framing.

use vstd::prelude::*;

use crate::codec::{encode_hex, hex_digit_char, hex_encode_spec};
use crate::protocol::{stop_view, DebugReply, StopForm, StopReply, StopValue};
use crate::registers::le_bytes;

verus! {

/// The two hex digits of one byte.
pub open spec fn hex2(c: u8) -> Seq<u8> {
    seq![hex_digit_char(c as int / 16), hex_digit_char(c as int % 16)]
}

/// A sequence read back to front.
pub open spec fn rev_bytes(s: Seq<u8>) -> Seq<u8> {
    Seq::new(s.len(), |i: int| s[s.len() - 1 - i])
}

/// The eight big-endian bytes of a 64-bit value.
pub open spec fn be_bytes8(n: int) -> Seq<u8> {
    rev_bytes(le_bytes(n, 8))
}

/// The wire keyword of one stop value, with its trailer.
pub open spec fn stop_value_bytes(v: StopValue) -> Seq<u8> {
    match v {
        StopValue::Watch => seq![0x77u8, 0x61u8, 0x74u8, 0x63u8, 0x68u8, 0x3au8, 0x3bu8],
        StopValue::RWatch => seq![0x72u8, 0x77u8, 0x61u8, 0x74u8, 0x63u8, 0x68u8, 0x3au8, 0x3bu8],
        StopValue::AWatch => seq![0x61u8, 0x77u8, 0x61u8, 0x74u8, 0x63u8, 0x68u8, 0x3au8, 0x3bu8],
        StopValue::SyscallEntry => seq![
            0x73u8,
            0x79u8,
            0x73u8,
            0x63u8,
            0x61u8,
            0x6cu8,
            0x6cu8,
            0x5fu8,
            0x65u8,
            0x6eu8,
            0x74u8,
            0x72u8,
            0x79u8,
            0x3au8,
            0x3bu8,
        ],
        StopValue::SyscallReturn => seq![
            0x73u8,
            0x79u8,
            0x73u8,
            0x63u8,
            0x61u8,
            0x6cu8,
            0x6cu8,
            0x5fu8,
            0x72u8,
            0x65u8,
            0x74u8,
            0x75u8,
            0x72u8,
            0x6eu8,
            0x3au8,
            0x3bu8,
        ],
        StopValue::SwBreak => seq![0x73u8, 0x77u8, 0x62u8, 0x72u8, 0x65u8, 0x61u8, 0x6bu8, 0x3au8, 0x3bu8],
    }
}

/// The keywords of a list of stop values, in order.
pub open spec fn stop_values_bytes(vs: Seq<StopValue>) -> Seq<u8>
    decreases vs.len(),
{
    if vs.len() == 0 {
        Seq::empty()
    } else {
        stop_value_bytes(vs[0]) + stop_values_bytes(vs.drop_first())
    }
}

/// The payload of a stop notification: `S` or `T` with the signal, `W` with
/// an exit status, `X` with a terminating signal, or `O` with hex output.
pub open spec fn stop_reply_bytes(s: StopForm) -> Seq<u8> {
    match s {
        StopForm::Signal(c) => seq![0x53u8] + hex2(c),
        StopForm::SignalWithValue(c, vs) => seq![0x54u8] + hex2(c) + stop_values_bytes(vs),
        StopForm::ExitStatus(c) => seq![0x57u8] + hex2(c),
        StopForm::TerminateSignal(c) => seq![0x58u8] + hex2(c),
        StopForm::Output(bytes) => seq![0x4fu8] + hex_encode_spec(bytes),
    }
}

/// Pushes the two hex digits of `c`.
fn push_hex2(out: &mut Vec<u8>, c: u8)
    ensures
        final(out)@ == old(out)@ + hex2(c),
{
    let hi = c / 16;
    let lo = c % 16;
    out.push(if hi < 10 { 0x30 + hi } else { 0x61 + hi - 10 });
    out.push(if lo < 10 { 0x30 + lo } else { 0x61 + lo - 10 });
    proof {
        assert(out@ =~= old(out)@ + hex2(c));
    }
}

/// Encodes one stop value's keyword.
fn push_stop_value(out: &mut Vec<u8>, v: &StopValue)
    ensures
        final(out)@ == old(out)@ + stop_value_bytes(*v),
{
    match v {
        StopValue::Watch => {
            out.push(0x77);
            out.push(0x61);
            out.push(0x74);
            out.push(0x63);
            out.push(0x68);
            out.push(0x3a);
            out.push(0x3b);
        },
        StopValue::RWatch => {
            out.push(0x72);
            out.push(0x77);
            out.push(0x61);
            out.push(0x74);
            out.push(0x63);
            out.push(0x68);
            out.push(0x3a);
            out.push(0x3b);
        },
        StopValue::AWatch => {
            out.push(0x61);
            out.push(0x77);
            out.push(0x61);
            out.push(0x74);
            out.push(0x63);
            out.push(0x68);
            out.push(0x3a);
            out.push(0x3b);
        },
        StopValue::SyscallEntry => {
            out.push(0x73);
            out.push(0x79);
            out.push(0x73);
            out.push(0x63);
            out.push(0x61);
            out.push(0x6c);
            out.push(0x6c);
            out.push(0x5f);
            out.push(0x65);
            out.push(0x6e);
            out.push(0x74);
            out.push(0x72);
            out.push(0x79);
            out.push(0x3a);
            out.push(0x3b);
        },
        StopValue::SyscallReturn => {
            out.push(0x73);
            out.push(0x79);
            out.push(0x73);
            out.push(0x63);
            out.push(0x61);
            out.push(0x6c);
            out.push(0x6c);
            out.push(0x5f);
            out.push(0x72);
            out.push(0x65);
            out.push(0x74);
            out.push(0x75);
            out.push(0x72);
            out.push(0x6e);
            out.push(0x3a);
            out.push(0x3b);
        },
        StopValue::SwBreak => {
            out.push(0x73);
            out.push(0x77);
            out.push(0x62);
            out.push(0x72);
            out.push(0x65);
            out.push(0x61);
            out.push(0x6b);
            out.push(0x3a);
            out.push(0x3b);
        },
    }
    proof {
        assert(out@ =~= old(out)@ + stop_value_bytes(*v));
    }
}

proof fn lemma_stop_values_snoc(vs: Seq<StopValue>, v: StopValue)
    ensures
        stop_values_bytes(vs.push(v)) == stop_values_bytes(vs) + stop_value_bytes(v),
    decreases vs.len(),
{
    let t = vs.push(v);
    if vs.len() == 0 {
        assert(t.drop_first() =~= Seq::<StopValue>::empty());
        assert(t[0] == v);
        assert(stop_values_bytes(t) == stop_value_bytes(v) + stop_values_bytes(t.drop_first()));
        assert(stop_value_bytes(v) + Seq::<u8>::empty() =~= stop_value_bytes(v));
        assert(Seq::<u8>::empty() + stop_value_bytes(v) =~= stop_value_bytes(v));
    } else {
        assert(t[0] == vs[0]);
        assert(t.drop_first() =~= vs.drop_first().push(v));
        lemma_stop_values_snoc(vs.drop_first(), v);
        assert(stop_value_bytes(vs[0]) + (stop_values_bytes(vs.drop_first()) + stop_value_bytes(v))
            =~= (stop_value_bytes(vs[0]) + stop_values_bytes(vs.drop_first())) + stop_value_bytes(
            v,
        ));
    }
}

/// Encodes a stop notification as its wire payload.
#[verifier::loop_isolation(false)]
pub fn encode_stop_reply(s: &StopReply) -> (r: Vec<u8>)
    ensures
        r@ == stop_reply_bytes(stop_view(*s)),
{
    let mut out: Vec<u8> = Vec::new();
    match s {
        StopReply::Signal(c) => {
            out.push(0x53);
            push_hex2(&mut out, *c);
            proof {
                assert(out@ =~= seq![0x53u8] + hex2(*c));
            }
        },
        StopReply::SignalWithValue(c, vals) => {
            out.push(0x54);
            push_hex2(&mut out, *c);
            let ghost head = seq![0x54u8] + hex2(*c);
            proof {
                assert(out@ =~= head);
                assert(vals@.take(0) =~= Seq::<StopValue>::empty());
            }
            let mut i: usize = 0;
            while i < vals.len()
                invariant
                    i <= vals@.len(),
                    out@ == head + stop_values_bytes(vals@.take(i as int)),
                decreases vals@.len() - i,
            {
                push_stop_value(&mut out, &vals[i]);
                proof {
                    lemma_stop_values_snoc(vals@.take(i as int), vals@[i as int]);
                    assert(vals@.take(i as int).push(vals@[i as int]) =~= vals@.take(i as int + 1));
                    assert(out@ =~= head + stop_values_bytes(vals@.take(i as int + 1)));
                }
                i = i + 1;
            }
            proof {
                assert(vals@.take(vals@.len() as int) =~= vals@);
            }
        },
        StopReply::ExitStatus(c) => {
            out.push(0x57);
            push_hex2(&mut out, *c);
            proof {
                assert(out@ =~= seq![0x57u8] + hex2(*c));
            }
        },
        StopReply::TerminateSignal(c) => {
            out.push(0x58);
            push_hex2(&mut out, *c);
            proof {
                assert(out@ =~= seq![0x58u8] + hex2(*c));
            }
        },
        StopReply::Output(bytes) => {
            out.push(0x4f);
            let mut hexed = encode_hex(bytes);
            out.append(&mut hexed);
            proof {
                assert(out@ =~= seq![0x4fu8] + hex_encode_spec(bytes@));
            }
        },
    }
    out
}

/// Pushes the sixteen hex digits of a value, most significant first.
#[verifier::loop_isolation(false)]
fn push_hex16(out: &mut Vec<u8>, v: usize)
    ensures
        final(out)@ == old(out)@ + hex_encode_spec(be_bytes8(v as int)),
{
    let le = crate::registers::u64_le_vec(v as u64);
    let mut i: usize = 0;
    let ghost be = be_bytes8(v as int);
    proof {
        crate::registers::lemma_le_bytes_len(v as int, 8);
    }
    let mut rev: Vec<u8> = Vec::new();
    while i < 8
        invariant
            i <= 8,
            le@ == le_bytes(v as int, 8),
            le@.len() == 8,
            rev@ =~= be.take(i as int),
        decreases 8 - i,
    {
        rev.push(le[7 - i]);
        proof {
            assert(be[i as int] == le@[7 - i as int]);
            assert(rev@ =~= be.take(i as int + 1));
        }
        i = i + 1;
    }
    proof {
        assert(rev@ =~= be);
    }
    let mut hexed = encode_hex(&rev);
    out.append(&mut hexed);
}

/// Encodes one command reply as its wire payload: `OK`, `E` with an error
/// code, hex-encoded data, a stop notification, or the offsets and
/// supported-features texts.
pub fn encode_reply(reply: &DebugReply) -> (r: Vec<u8>)
    ensures
        r@ == reply_bytes_spec(*reply),
{
    let mut out: Vec<u8> = Vec::new();
    match reply {
        DebugReply::Done => {
            out.push(0x4f);
            out.push(0x4b);
            proof {
                assert(out@ =~= seq![0x4fu8, 0x4bu8]);
            }
        },
        DebugReply::Error(c) => {
            out.push(0x45);
            push_hex2(&mut out, *c);
            proof {
                assert(out@ =~= seq![0x45u8] + hex2(*c));
            }
        },
        DebugReply::ShowMem(bytes) => {
            let mut hexed = encode_hex(bytes);
            out.append(&mut hexed);
            proof {
                assert(out@ =~= hex_encode_spec(bytes@));
            }
        },
        DebugReply::ShowRegs(bytes) => {
            let mut hexed = encode_hex(bytes);
            out.append(&mut hexed);
            proof {
                assert(out@ =~= hex_encode_spec(bytes@));
            }
        },
        DebugReply::StopReply(sr) => {
            let mut encoded = encode_stop_reply(sr);
            out.append(&mut encoded);
            proof {
                assert(out@ =~= stop_reply_bytes(stop_view(*sr)));
            }
        },
        DebugReply::Load(bytes) => {
            let mut hexed = encode_hex(bytes);
            out.append(&mut hexed);
            proof {
                assert(out@ =~= hex_encode_spec(bytes@));
            }
        },
        DebugReply::Offsets { text, data, bss } => {
            out.push(0x54);
            out.push(0x65);
            out.push(0x78);
            out.push(0x74);
            out.push(0x3d);
            push_hex16(&mut out, *text);
            out.push(0x3b);
            out.push(0x44);
            out.push(0x61);
            out.push(0x74);
            out.push(0x61);
            out.push(0x3d);
            push_hex16(&mut out, *data);
            out.push(0x3b);
            out.push(0x42);
            out.push(0x73);
            out.push(0x73);
            out.push(0x3d);
            push_hex16(&mut out, *bss);
            proof {
                assert(out@ =~= reply_bytes_spec(DebugReply::Offsets {
                    text: *text,
                    data: *data,
                    bss: *bss,
                }));
            }
        },
        DebugReply::Supported { packet_size } => {
            out.push(0x50);
            out.push(0x61);
            out.push(0x63);
            out.push(0x6b);
            out.push(0x65);
            out.push(0x74);
            out.push(0x53);
            out.push(0x69);
            out.push(0x7a);
            out.push(0x65);
            out.push(0x3d);
            push_hex16(&mut out, *packet_size);
            proof {
                assert(out@ =~= reply_bytes_spec(DebugReply::Supported {
                    packet_size: *packet_size,
                }));
            }
        },
    }
    out
}

/// The payload bytes of each command reply.
pub open spec fn reply_bytes_spec(reply: DebugReply) -> Seq<u8> {
    match reply {
        DebugReply::Done => seq![0x4fu8, 0x4bu8],
        DebugReply::Error(c) => seq![0x45u8] + hex2(c),
        DebugReply::ShowMem(bytes) => hex_encode_spec(bytes@),
        DebugReply::ShowRegs(bytes) => hex_encode_spec(bytes@),
        DebugReply::StopReply(sr) => stop_reply_bytes(stop_view(sr)),
        DebugReply::Load(bytes) => hex_encode_spec(bytes@),
        DebugReply::Offsets { text, data, bss } => seq![0x54u8, 0x65u8, 0x78u8, 0x74u8, 0x3du8]
            + hex_encode_spec(be_bytes8(text as int)) + seq![0x3bu8, 0x44u8, 0x61u8, 0x74u8, 0x61u8, 0x3du8]
            + hex_encode_spec(be_bytes8(data as int)) + seq![0x3bu8, 0x42u8, 0x73u8, 0x73u8, 0x3du8]
            + hex_encode_spec(be_bytes8(bss as int)),
        DebugReply::Supported { packet_size } => seq![
            0x50u8,
            0x61u8,
            0x63u8,
            0x6bu8,
            0x65u8,
            0x74u8,
            0x53u8,
            0x69u8,
            0x7au8,
            0x65u8,
            0x3du8,
        ] + hex_encode_spec(be_bytes8(packet_size as int)),
    }
}

} // verus!
