//! Wire-packet codec: checksum, reserved-byte escaping, hex fields, and
//! framing of `$<payload>#<2-hex-digit-checksum>` packets.

use vstd::prelude::*;

use crate::protocol::DebugError;

verus! {

/// Sum of the bytes of `s`, as an unbounded integer.
pub open spec fn byte_sum(s: Seq<u8>) -> int
    decreases s.len(),
{
    if s.len() == 0 {
        0
    } else {
        s[0] + byte_sum(s.drop_first())
    }
}

/// The packet checksum: the byte sum reduced modulo 256.
pub open spec fn checksum_spec(s: Seq<u8>) -> u8 {
    (byte_sum(s) % 256) as u8
}

proof fn lemma_byte_sum_nonneg(s: Seq<u8>)
    ensures
        byte_sum(s) >= 0,
    decreases s.len(),
{
    if s.len() > 0 {
        lemma_byte_sum_nonneg(s.drop_first());
    }
}

proof fn lemma_byte_sum_snoc(s: Seq<u8>, b: u8)
    ensures
        byte_sum(s.push(b)) == byte_sum(s) + b,
    decreases s.len(),
{
    if s.len() == 0 {
        assert(s.push(b).drop_first() =~= Seq::<u8>::empty());
        assert(byte_sum(s.push(b)) == s.push(b)[0] + byte_sum(s.push(b).drop_first()));
        assert(s.push(b)[0] == b);
    } else {
        assert(s.push(b).drop_first() =~= s.drop_first().push(b));
        lemma_byte_sum_snoc(s.drop_first(), b);
        assert(byte_sum(s.push(b)) == s.push(b)[0] + byte_sum(s.push(b).drop_first()));
        assert(s.push(b)[0] == s[0]);
    }
}

/// Computes the checksum of `payload`: the sum of its bytes modulo 256.
pub fn checksum(payload: &Vec<u8>) -> (r: u8)
    ensures
        r == checksum_spec(payload@),
{
    let mut acc: u8 = 0;
    let mut i: usize = 0;
    while i < payload.len()
        invariant
            i <= payload@.len(),
            acc == checksum_spec(payload@.subrange(0, i as int)),
        decreases payload@.len() - i,
    {
        proof {
            lemma_byte_sum_nonneg(payload@.subrange(0, i as int));
            lemma_byte_sum_snoc(payload@.subrange(0, i as int), payload@[i as int]);
            assert(payload@.subrange(0, i as int).push(payload@[i as int]) =~= payload@.subrange(
                0,
                i as int + 1,
            ));
        }
        let sum: u16 = acc as u16 + payload[i] as u16;
        acc = (sum % 256) as u8;
        i = i + 1;
    }
    proof {
        assert(payload@.subrange(0, payload@.len() as int) =~= payload@);
    }
    acc
}

/// The bytes that may not stand raw inside a packet body: `#`, `$` and `}`.
pub open spec fn is_reserved(b: u8) -> bool {
    b == 0x23 || b == 0x24 || b == 0x7d
}

/// Escaping of one payload: each reserved byte `b` becomes the pair
/// `(0x7d, b ^ 0x20)`; every other byte is passed through.
pub open spec fn escape_spec(s: Seq<u8>) -> Seq<u8>
    decreases s.len(),
{
    if s.len() == 0 {
        Seq::empty()
    } else if is_reserved(s[0]) {
        seq![0x7du8, (s[0] ^ 0x20u8)] + escape_spec(s.drop_first())
    } else {
        seq![s[0]] + escape_spec(s.drop_first())
    }
}

/// De-escaping of one packet body: a pair `(0x7d, c)` where `c ^ 0x20` is
/// reserved becomes the single byte `c ^ 0x20`; everything else is passed
/// through unchanged.
pub open spec fn de_escape_spec(s: Seq<u8>) -> Seq<u8>
    decreases s.len(),
{
    if s.len() == 0 {
        Seq::empty()
    } else if s.len() >= 2 && s[0] == 0x7d && is_reserved(s[1] ^ 0x20u8) {
        seq![(s[1] ^ 0x20u8)] + de_escape_spec(s.skip(2))
    } else {
        seq![s[0]] + de_escape_spec(s.drop_first())
    }
}

/// Exec test for a reserved byte.
pub fn is_reserved_byte(b: u8) -> (r: bool)
    ensures
        r == is_reserved(b),
{
    b == 0x23 || b == 0x24 || b == 0x7d
}

/// Applies the reserved-byte escaping to `payload`.
pub fn escape(payload: &Vec<u8>) -> (r: Vec<u8>)
    ensures
        r@ == escape_spec(payload@),
{
    let mut out: Vec<u8> = Vec::new();
    let mut i: usize = 0;
    proof {
        assert(payload@.skip(0) =~= payload@);
    }
    while i < payload.len()
        invariant
            i <= payload@.len(),
            escape_spec(payload@) == out@ + escape_spec(payload@.skip(i as int)),
        decreases payload@.len() - i,
    {
        let b = payload[i];
        proof {
            lemma_escape_step(payload@, i as int);
        }
        if is_reserved_byte(b) {
            out.push(0x7d);
            out.push(b ^ 0x20);
        } else {
            out.push(b);
        }
        i = i + 1;
    }
    proof {
        assert(payload@.skip(payload@.len() as int) =~= Seq::<u8>::empty());
        assert(out@ + Seq::<u8>::empty() =~= out@);
    }
    out
}

proof fn lemma_escape_step(s: Seq<u8>, i: int)
    requires
        0 <= i < s.len(),
    ensures
        is_reserved(s[i]) ==> escape_spec(s.skip(i)) == seq![0x7du8, (s[i] ^ 0x20u8)]
            + escape_spec(s.skip(i + 1)),
        !is_reserved(s[i]) ==> escape_spec(s.skip(i)) == seq![s[i]] + escape_spec(s.skip(i + 1)),
{
    let t = s.skip(i);
    assert(t[0] == s[i]);
    assert(t.drop_first() =~= s.skip(i + 1));
}

/// Undoes the reserved-byte escaping in `buf`.
pub fn de_escape(buf: Vec<u8>) -> (r: Vec<u8>)
    ensures
        r@ == de_escape_spec(buf@),
{
    let mut out: Vec<u8> = Vec::new();
    let mut i: usize = 0;
    proof {
        assert(buf@.skip(0) =~= buf@);
    }
    while i < buf.len()
        invariant
            i <= buf@.len(),
            de_escape_spec(buf@) == out@ + de_escape_spec(buf@.skip(i as int)),
        decreases buf@.len() - i,
    {
        proof {
            lemma_de_escape_step(buf@, i as int);
        }
        let b = buf[i];
        if b == 0x7d && i + 1 < buf.len() && is_reserved_byte(buf[i + 1] ^ 0x20) {
            out.push(buf[i + 1] ^ 0x20);
            i = i + 2;
        } else {
            out.push(b);
            i = i + 1;
        }
    }
    proof {
        assert(buf@.skip(buf@.len() as int) =~= Seq::<u8>::empty());
        assert(out@ + Seq::<u8>::empty() =~= out@);
    }
    out
}

proof fn lemma_de_escape_step(s: Seq<u8>, i: int)
    requires
        0 <= i < s.len(),
    ensures
        (i + 1 < s.len() && s[i] == 0x7d && is_reserved(s[i + 1] ^ 0x20u8)) ==> de_escape_spec(
            s.skip(i),
        ) == seq![(s[i + 1] ^ 0x20u8)] + de_escape_spec(s.skip(i + 2)),
        !(i + 1 < s.len() && s[i] == 0x7d && is_reserved(s[i + 1] ^ 0x20u8)) ==> de_escape_spec(
            s.skip(i),
        ) == seq![s[i]] + de_escape_spec(s.skip(i + 1)),
{
    let t = s.skip(i);
    assert(t[0] == s[i]);
    if i + 1 < s.len() {
        assert(t[1] == s[i + 1]);
        assert(t.skip(2) =~= s.skip(i + 2));
    }
    assert(t.drop_first() =~= s.skip(i + 1));
}

/// Escaping inverts: de-escaping an escaped payload gives the payload back,
/// for every payload. In particular this holds for payloads that contain no
/// reserved byte, where escaping is the identity, and for each single
/// reserved byte.
pub proof fn lemma_escape_round_trip(s: Seq<u8>)
    ensures
        de_escape_spec(escape_spec(s)) == s,
    decreases s.len(),
{
    if s.len() == 0 {
    } else {
        lemma_escape_round_trip(s.drop_first());
        let rest = escape_spec(s.drop_first());
        if is_reserved(s[0]) {
            let b = s[0];
            let e = seq![0x7du8, (b ^ 0x20u8)] + rest;
            assert((b ^ 0x20u8) ^ 0x20u8 == b) by (bit_vector);
            assert(e[0] == 0x7d && e[1] == (s[0] ^ 0x20u8));
            assert(e.skip(2) =~= rest);
            assert(de_escape_spec(e) == seq![s[0]] + de_escape_spec(rest));
            assert(seq![s[0]] + s.drop_first() =~= s);
        } else {
            let e = seq![s[0]] + rest;
            assert(e[0] == s[0]);
            if e.len() >= 2 && e[0] == 0x7d && is_reserved(e[1] ^ 0x20u8) {
                assert(is_reserved(s[0]));
                assert(false);
            }
            assert(e.drop_first() =~= rest);
            assert(de_escape_spec(e) == seq![s[0]] + de_escape_spec(rest));
            assert(seq![s[0]] + s.drop_first() =~= s);
        }
    }
}

/// A reserved byte is escaped as exactly the two bytes `0x7d, b ^ 0x20`.
pub proof fn lemma_escape_reserved_byte(b: u8)
    requires
        is_reserved(b),
    ensures
        escape_spec(seq![b]) == seq![0x7du8, (b ^ 0x20u8)],
        de_escape_spec(escape_spec(seq![b])) == seq![b],
{
    let s = seq![b];
    assert(s.drop_first() =~= Seq::<u8>::empty());
    assert(escape_spec(Seq::<u8>::empty()) =~= Seq::<u8>::empty());
    assert(s[0] == b && is_reserved(s[0]));
    assert(escape_spec(s) == seq![0x7du8, (b ^ 0x20u8)] + escape_spec(s.drop_first()));
    assert(escape_spec(s) =~= seq![0x7du8, (b ^ 0x20u8)]);
    lemma_escape_round_trip(s);
}

/// The value of one ASCII hex digit, or -1 where the byte is no hex digit.
pub open spec fn hex_digit_val(c: u8) -> int {
    if 0x30 <= c <= 0x39 {
        c - 0x30
    } else if 0x61 <= c <= 0x66 {
        c - 0x61 + 10
    } else if 0x41 <= c <= 0x46 {
        c - 0x41 + 10
    } else {
        -1
    }
}

pub open spec fn is_hex_digit(c: u8) -> bool {
    hex_digit_val(c) >= 0
}

/// Whether `s` is a well-formed hex field: even length, hex digits only.
pub open spec fn is_hex_seq(s: Seq<u8>) -> bool {
    s.len() % 2 == 0 && forall|i: int| 0 <= i < s.len() ==> is_hex_digit(#[trigger] s[i])
}

/// The bytes that a well-formed hex field denotes, two digits per byte.
pub open spec fn hex_decode_spec(s: Seq<u8>) -> Seq<u8>
    decreases s.len(),
{
    if s.len() < 2 {
        Seq::empty()
    } else {
        seq![(hex_digit_val(s[0]) * 16 + hex_digit_val(s[1])) as u8] + hex_decode_spec(s.skip(2))
    }
}

/// The lower-case ASCII digit of a value below 16.
pub open spec fn hex_digit_char(v: int) -> u8 {
    if v < 10 {
        (0x30 + v) as u8
    } else {
        (0x61 + v - 10) as u8
    }
}

/// The hex form of a byte string, two lower-case digits per byte.
pub open spec fn hex_encode_spec(s: Seq<u8>) -> Seq<u8>
    decreases s.len(),
{
    if s.len() == 0 {
        Seq::empty()
    } else {
        seq![hex_digit_char(s[0] as int / 16), hex_digit_char(s[0] as int % 16)] + hex_encode_spec(s.drop_first())
    }
}

/// Exec form of `hex_digit_val`, with -1 mapped to `None`.
pub fn hex_digit_value(c: u8) -> (r: Option<u8>)
    ensures
        r is Some <==> is_hex_digit(c),
        r is Some ==> r->0 == hex_digit_val(c) && r->0 < 16,
{
    if 0x30 <= c && c <= 0x39 {
        Some(c - 0x30)
    } else if 0x61 <= c && c <= 0x66 {
        Some(c - 0x61 + 10)
    } else if 0x41 <= c && c <= 0x46 {
        Some(c - 0x41 + 10)
    } else {
        None
    }
}

/// Decodes a hex field into its bytes. A field of odd length or with a byte
/// that is no hex digit is a protocol error.
pub fn decode_hex(buf: &Vec<u8>) -> (r: Result<Vec<u8>, DebugError>)
    ensures
        r is Ok <==> is_hex_seq(buf@),
        r is Ok ==> r->Ok_0@ == hex_decode_spec(buf@),
        r is Err ==> r->Err_0 == DebugError::InvalidPacket,
{
    if buf.len() % 2 != 0 {
        return Err(DebugError::InvalidPacket);
    }
    let mut out: Vec<u8> = Vec::new();
    let mut i: usize = 0;
    proof {
        assert(buf@.skip(0) =~= buf@);
    }
    while i + 1 < buf.len()
        invariant
            i % 2 == 0,
            buf@.len() % 2 == 0,
            i <= buf@.len(),
            forall|j: int| 0 <= j < i ==> is_hex_digit(#[trigger] buf@[j]),
            is_hex_seq(buf@) ==> hex_decode_spec(buf@) == out@ + hex_decode_spec(
                buf@.skip(i as int),
            ),
        decreases buf@.len() - i,
    {
        let hi = match hex_digit_value(buf[i]) {
            Some(v) => v,
            None => {
                return Err(DebugError::InvalidPacket);
            },
        };
        let lo = match hex_digit_value(buf[i + 1]) {
            Some(v) => v,
            None => {
                return Err(DebugError::InvalidPacket);
            },
        };
        proof {
            let t = buf@.skip(i as int);
            assert(t[0] == buf@[i as int] && t[1] == buf@[i as int + 1]);
            assert(t.skip(2) =~= buf@.skip(i as int + 2));
        }
        out.push(hi * 16 + lo);
        i = i + 2;
    }
    proof {
        assert(i == buf@.len());
        assert(hex_decode_spec(buf@.skip(i as int)) =~= Seq::<u8>::empty());
        assert(out@ + Seq::<u8>::empty() =~= out@);
    }
    Ok(out)
}

/// Encodes bytes as a hex field, two lower-case digits per byte.
pub fn encode_hex(bytes: &Vec<u8>) -> (r: Vec<u8>)
    ensures
        r@ == hex_encode_spec(bytes@),
        r@.len() == 2 * bytes@.len(),
{
    let mut out: Vec<u8> = Vec::new();
    let mut i: usize = 0;
    proof {
        assert(bytes@.skip(0) =~= bytes@);
        lemma_hex_encode_len(bytes@);
    }
    while i < bytes.len()
        invariant
            i <= bytes@.len(),
            out@.len() == 2 * i,
            hex_encode_spec(bytes@) == out@ + hex_encode_spec(bytes@.skip(i as int)),
        decreases bytes@.len() - i,
    {
        let b = bytes[i];
        proof {
            let t = bytes@.skip(i as int);
            assert(t[0] == bytes@[i as int]);
            assert(t.drop_first() =~= bytes@.skip(i as int + 1));
        }
        let hi = b / 16;
        let lo = b % 16;
        out.push(if hi < 10 { 0x30 + hi } else { 0x61 + hi - 10 });
        out.push(if lo < 10 { 0x30 + lo } else { 0x61 + lo - 10 });
        i = i + 1;
    }
    proof {
        assert(bytes@.skip(bytes@.len() as int) =~= Seq::<u8>::empty());
        assert(out@ + Seq::<u8>::empty() =~= out@);
    }
    out
}

proof fn lemma_hex_encode_len(s: Seq<u8>)
    ensures
        hex_encode_spec(s).len() == 2 * s.len(),
    decreases s.len(),
{
    if s.len() > 0 {
        lemma_hex_encode_len(s.drop_first());
    }
}

/// Hex round trip: decoding an encoded byte string gives the bytes back.
pub proof fn lemma_hex_round_trip(s: Seq<u8>)
    ensures
        is_hex_seq(hex_encode_spec(s)),
        hex_decode_spec(hex_encode_spec(s)) == s,
    decreases s.len(),
{
    lemma_hex_encode_len(s);
    if s.len() == 0 {
    } else {
        lemma_hex_round_trip(s.drop_first());
        let rest = hex_encode_spec(s.drop_first());
        let b = s[0];
        let e = seq![hex_digit_char(b as int / 16), hex_digit_char(b as int % 16)] + rest;
        assert(hex_digit_val(hex_digit_char(b as int / 16)) == b as int / 16);
        assert(hex_digit_val(hex_digit_char(b as int % 16)) == b as int % 16);
        assert(e.skip(2) =~= rest);
        assert(b as int == (b as int / 16) * 16 + b as int % 16);
        assert(hex_decode_spec(e) == seq![b] + hex_decode_spec(rest));
        assert(seq![b] + s.drop_first() =~= s);
        lemma_hex_encode_len(s.drop_first());
        assert(forall|i: int| 0 <= i < e.len() ==> is_hex_digit(#[trigger] e[i])) by {
            assert(forall|i: int|
                2 <= i < e.len() ==> #[trigger] e[i] == rest[i - 2] && is_hex_digit(rest[i - 2]));
        }
    }
}

proof fn lemma_byte_sum_update(s: Seq<u8>, i: int, b: u8)
    requires
        0 <= i < s.len(),
    ensures
        byte_sum(s.update(i, b)) == byte_sum(s) - s[i] + b,
    decreases s.len(),
{
    let t = s.update(i, b);
    if i == 0 {
        assert(t.drop_first() =~= s.drop_first());
        assert(t[0] == b);
    } else {
        assert(t[0] == s[0]);
        assert(t.drop_first() =~= s.drop_first().update(i - 1, b));
        lemma_byte_sum_update(s.drop_first(), i - 1, b);
    }
}

/// The checksum detects every change of a single byte: replacing one byte of
/// a payload by a different byte always changes the checksum, so the packet
/// is then refused and answered with a negative acknowledgement.
pub proof fn lemma_checksum_detects_byte_change(s: Seq<u8>, i: int, b: u8)
    requires
        0 <= i < s.len(),
        b != s[i],
    ensures
        checksum_spec(s.update(i, b)) != checksum_spec(s),
{
    lemma_byte_sum_update(s, i, b);
    lemma_byte_sum_nonneg(s);
    lemma_byte_sum_nonneg(s.update(i, b));
    let x = byte_sum(s);
    let y = byte_sum(s.update(i, b));
    let d = y - x;
    assert(-256 < d < 256 && d != 0);
    vstd::arithmetic::div_mod::lemma_fundamental_div_mod(x, 256);
    vstd::arithmetic::div_mod::lemma_fundamental_div_mod(y, 256);
    if y % 256 == x % 256 {
        let m = y / 256 - x / 256;
        assert(d == 256 * m);
        assert(m >= 1 ==> d >= 256);
        assert(m <= -1 ==> d <= -256);
        assert(false);
    }
}

/// Flipping any single bit of one payload byte changes the checksum.
pub proof fn lemma_checksum_detects_bit_flip(s: Seq<u8>, i: int, k: u8)
    requires
        0 <= i < s.len(),
        k < 8,
    ensures
        checksum_spec(s.update(i, s[i] ^ (1u8 << k))) != checksum_spec(s),
{
    let b = s[i];
    assert(b ^ (1u8 << k) != b) by (bit_vector)
        requires
            k < 8,
    ;
    lemma_checksum_detects_byte_change(s, i, b ^ (1u8 << k));
}

/// Copies out `v[from..to]`.
pub fn subvec(v: &Vec<u8>, from: usize, to: usize) -> (r: Vec<u8>)
    requires
        from <= to <= v@.len(),
    ensures
        r@ == v@.subrange(from as int, to as int),
{
    let mut out: Vec<u8> = Vec::new();
    let mut i: usize = from;
    while i < to
        invariant
            from <= i <= to <= v@.len(),
            out@ =~= v@.subrange(from as int, i as int),
        decreases to - i,
    {
        out.push(v[i]);
        proof {
            assert(out@ =~= v@.subrange(from as int, i as int + 1));
        }
        i = i + 1;
    }
    out
}

/// A whole wire packet for `payload`: `$`, the escaped payload, `#`, and the
/// checksum of the escaped payload as two hex digits.
pub open spec fn wrap_packet_spec(p: Seq<u8>) -> Seq<u8> {
    seq![0x24u8] + escape_spec(p) + seq![0x23u8] + hex_encode_spec(
        seq![checksum_spec(escape_spec(p))],
    )
}

/// Whether `s` has the shape of a wire packet: `$`, a body, `#`, two hex
/// digits.
pub open spec fn well_formed_packet(s: Seq<u8>) -> bool {
    &&& s.len() >= 4
    &&& s[0] == 0x24
    &&& s[s.len() - 3] == 0x23
    &&& is_hex_digit(s[s.len() - 2])
    &&& is_hex_digit(s[s.len() - 1])
}

/// The body of a well-formed packet: the bytes between `$` and `#`.
pub open spec fn packet_body(s: Seq<u8>) -> Seq<u8> {
    s.subrange(1, s.len() - 3)
}

/// Whether the checksum trailer of a well-formed packet matches its body.
pub open spec fn packet_checksum_ok(s: Seq<u8>) -> bool {
    hex_digit_val(s[s.len() - 2]) * 16 + hex_digit_val(s[s.len() - 1]) == checksum_spec(
        packet_body(s),
    )
}

/// Frames `payload` as a wire packet: escapes it, then wraps it in
/// `$<body>#<checksum>`.
pub fn wrap_packet(payload: &Vec<u8>) -> (r: Vec<u8>)
    ensures
        r@ == wrap_packet_spec(payload@),
{
    let esc = escape(payload);
    let ck = checksum(&esc);
    let mut out: Vec<u8> = Vec::new();
    out.push(0x24);
    let mut i: usize = 0;
    while i < esc.len()
        invariant
            i <= esc@.len(),
            out@ =~= seq![0x24u8] + esc@.subrange(0, i as int),
        decreases esc@.len() - i,
    {
        out.push(esc[i]);
        proof {
            assert(out@ =~= seq![0x24u8] + esc@.subrange(0, i as int + 1));
        }
        i = i + 1;
    }
    proof {
        assert(esc@.subrange(0, esc@.len() as int) =~= esc@);
    }
    out.push(0x23);
    let hi = ck / 16;
    let lo = ck % 16;
    out.push(if hi < 10 { 0x30 + hi } else { 0x61 + hi - 10 });
    out.push(if lo < 10 { 0x30 + lo } else { 0x61 + lo - 10 });
    proof {
        let ckseq = seq![checksum_spec(escape_spec(payload@))];
        assert(ckseq.drop_first() =~= Seq::<u8>::empty());
        assert(hex_encode_spec(Seq::<u8>::empty()) =~= Seq::<u8>::empty());
        assert(hex_encode_spec(ckseq) == seq![
            hex_digit_char(ck as int / 16),
            hex_digit_char(ck as int % 16),
        ] + hex_encode_spec(ckseq.drop_first()));
        assert(out@ =~= wrap_packet_spec(payload@));
    }
    out
}

/// Unframes one received packet. A buffer that has not the `$<body>#xx`
/// shape is an invalid packet; a checksum trailer that does not match the
/// body is a checksum mismatch, to be answered with a negative
/// acknowledgement; otherwise the de-escaped body is handed on.
pub fn decode_packet(raw: &Vec<u8>) -> (r: Result<Vec<u8>, DebugError>)
    ensures
        r is Ok <==> well_formed_packet(raw@) && packet_checksum_ok(raw@),
        r is Ok ==> r->Ok_0@ == de_escape_spec(packet_body(raw@)),
        !well_formed_packet(raw@) ==> r == Err::<Vec<u8>, DebugError>(DebugError::InvalidPacket),
        well_formed_packet(raw@) && !packet_checksum_ok(raw@) ==> r == Err::<
            Vec<u8>,
            DebugError,
        >(DebugError::ChecksumMismatch),
{
    if raw.len() < 4 {
        return Err(DebugError::InvalidPacket);
    }
    let n = raw.len();
    if raw[0] != 0x24 || raw[n - 3] != 0x23 {
        return Err(DebugError::InvalidPacket);
    }
    let hi = match hex_digit_value(raw[n - 2]) {
        Some(v) => v,
        None => {
            return Err(DebugError::InvalidPacket);
        },
    };
    let lo = match hex_digit_value(raw[n - 1]) {
        Some(v) => v,
        None => {
            return Err(DebugError::InvalidPacket);
        },
    };
    let body = subvec(raw, 1, n - 3);
    let ck = checksum(&body);
    if hi * 16 + lo != ck {
        return Err(DebugError::ChecksumMismatch);
    }
    Ok(de_escape(body))
}

/// Framing round trip: every payload, unframed after framing, comes back
/// unchanged, and the packet's checksum trailer matches its body. This
/// carries the escape round trip through whole packets.
pub proof fn lemma_wrap_packet_round_trip(p: Seq<u8>)
    ensures
        well_formed_packet(wrap_packet_spec(p)),
        packet_checksum_ok(wrap_packet_spec(p)),
        de_escape_spec(packet_body(wrap_packet_spec(p))) == p,
{
    let esc = escape_spec(p);
    let ck = checksum_spec(esc);
    let ckseq = seq![ck];
    assert(ckseq.drop_first() =~= Seq::<u8>::empty());
    assert(hex_encode_spec(Seq::<u8>::empty()) =~= Seq::<u8>::empty());
    let trailer = hex_encode_spec(ckseq);
    assert(trailer =~= seq![hex_digit_char(ck as int / 16), hex_digit_char(ck as int % 16)]);
    let w = wrap_packet_spec(p);
    assert(w.len() == esc.len() + 4);
    assert(w[0] == 0x24);
    assert(w[w.len() - 3] == 0x23);
    assert(w[w.len() - 2] == hex_digit_char(ck as int / 16));
    assert(w[w.len() - 1] == hex_digit_char(ck as int % 16));
    assert(hex_digit_val(hex_digit_char(ck as int / 16)) == ck as int / 16);
    assert(hex_digit_val(hex_digit_char(ck as int % 16)) == ck as int % 16);
    assert(packet_body(w) =~= esc);
    assert(ck as int == (ck as int / 16) * 16 + ck as int % 16);
    lemma_escape_round_trip(p);
}

} // verus!
