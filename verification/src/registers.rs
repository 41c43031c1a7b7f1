//! Register-file codec: fixed-layout encoding of the register file to its
//! 96-byte wire form, eleven 8-byte little-endian general registers followed
//! by the 8-byte little-endian program counter, and back.

use vstd::prelude::*;

use byteorder::{ByteOrder, LittleEndian};

use crate::protocol::DebugError;

verus! {

broadcast use vstd::array::group_array_axioms;

/// The number of general-purpose registers.
pub const NUM_REGS: usize = 11;

/// The length of the serialized register file: the general registers and the
/// program counter, eight bytes each.
pub const REG_NUM_BYTES: usize = 96;

/// 256 to the `k`th power.
pub open spec fn pow256(k: nat) -> int
    decreases k,
{
    if k == 0 {
        1
    } else {
        256 * pow256((k - 1) as nat)
    }
}

/// The `k` little-endian bytes of `n`: least-significant byte first.
pub open spec fn le_bytes(n: int, k: nat) -> Seq<u8>
    decreases k,
{
    if k == 0 {
        Seq::empty()
    } else {
        seq![(n % 256) as u8] + le_bytes(n / 256, (k - 1) as nat)
    }
}

/// The value that a little-endian byte string denotes.
pub open spec fn le_value(s: Seq<u8>) -> int
    decreases s.len(),
{
    if s.len() == 0 {
        0
    } else {
        s[0] + 256 * le_value(s.drop_first())
    }
}

pub proof fn lemma_le_bytes_len(n: int, k: nat)
    ensures
        le_bytes(n, k).len() == k,
    decreases k,
{
    if k > 0 {
        lemma_le_bytes_len(n / 256, (k - 1) as nat);
    }
}

pub proof fn lemma_le_value_bound(s: Seq<u8>)
    ensures
        0 <= le_value(s) < pow256(s.len()),
    decreases s.len(),
{
    if s.len() > 0 {
        lemma_le_value_bound(s.drop_first());
    }
}

/// A little-endian byte string is recovered from the value it denotes.
pub proof fn lemma_le_bytes_of_le_value(s: Seq<u8>)
    ensures
        le_bytes(le_value(s), s.len()) == s,
    decreases s.len(),
{
    if s.len() == 0 {
        assert(le_bytes(le_value(s), s.len()) =~= s);
    } else {
        let t = s.drop_first();
        lemma_le_value_bound(t);
        let v = le_value(s);
        assert(v == s[0] + 256 * le_value(t));
        assert(v % 256 == s[0] && v / 256 == le_value(t)) by {
            vstd::arithmetic::div_mod::lemma_fundamental_div_mod_converse(
                v,
                256,
                le_value(t),
                s[0] as int,
            );
        }
        lemma_le_bytes_of_le_value(t);
        assert(le_bytes(v, s.len()) == seq![s[0]] + t);
        assert(seq![s[0]] + t =~= s);
    }
}

/// The value denoted by the little-endian bytes of `n` is `n` itself.
pub proof fn lemma_le_value_of_le_bytes(n: int, k: nat)
    requires
        0 <= n < pow256(k),
    ensures
        le_value(le_bytes(n, k)) == n,
    decreases k,
{
    if k == 0 {
    } else {
        let s = le_bytes(n, k);
        vstd::arithmetic::div_mod::lemma_fundamental_div_mod(n, 256);
        assert(n / 256 < pow256((k - 1) as nat)) by {
            if n / 256 >= pow256((k - 1) as nat) {
                assert(256 * (n / 256) >= 256 * pow256((k - 1) as nat));
            }
        }
        lemma_le_value_of_le_bytes(n / 256, (k - 1) as nat);
        assert(s.drop_first() =~= le_bytes(n / 256, (k - 1) as nat));
        assert(s[0] == n % 256);
    }
}

/// Every `u64` fits in eight little-endian bytes.
pub proof fn lemma_pow256_8()
    ensures
        pow256(8) == 0x1_0000_0000_0000_0000,
{
    assert(pow256(8) == 0x1_0000_0000_0000_0000) by {
        reveal_with_fuel(pow256, 9);
    }
}

/// Relies on byteorder's `LittleEndian::read_u64`: reads eight bytes of
/// `buf` starting at `i`, least-significant byte first.
#[verifier::external_body]
pub(crate) fn read_u64_le(buf: &Vec<u8>, i: usize) -> (r: u64)
    requires
        i + 8 <= buf@.len(),
    ensures
        r as int == le_value(buf@.subrange(i as int, i as int + 8)),
{
    LittleEndian::read_u64(&buf[i..i + 8])
}

/// Relies on byteorder's `LittleEndian::write_u64`: the eight bytes of `n`,
/// least-significant byte first.
#[verifier::external_body]
pub(crate) fn u64_le_vec(n: u64) -> (r: Vec<u8>)
    ensures
        r@ == le_bytes(n as int, 8),
{
    let mut buf = vec![0u8; 8];
    LittleEndian::write_u64(&mut buf, n);
    buf
}

/// The register file: eleven general-purpose registers and the program
/// counter. The session only ever holds transient copies of it; the
/// execution engine owns the authoritative one.
#[derive(Debug, Clone, PartialEq)]
pub struct BPFRegs {
    pub regs: [u64; NUM_REGS],
    pub pc: u64,
}

/// The wire form of a sequence of registers: eight little-endian bytes each,
/// in order.
pub open spec fn concat_le(rs: Seq<u64>) -> Seq<u8>
    decreases rs.len(),
{
    if rs.len() == 0 {
        Seq::empty()
    } else {
        le_bytes(rs[0] as int, 8) + concat_le(rs.drop_first())
    }
}

proof fn lemma_concat_le_snoc(rs: Seq<u64>, x: u64)
    ensures
        concat_le(rs.push(x)) == concat_le(rs) + le_bytes(x as int, 8),
    decreases rs.len(),
{
    let t = rs.push(x);
    if rs.len() == 0 {
        assert(t.drop_first() =~= Seq::<u64>::empty());
        assert(concat_le(t) == le_bytes(t[0] as int, 8) + concat_le(t.drop_first()));
        assert(t[0] == x);
        assert(le_bytes(x as int, 8) + Seq::<u8>::empty() =~= le_bytes(x as int, 8));
        assert(Seq::<u8>::empty() + le_bytes(x as int, 8) =~= le_bytes(x as int, 8));
    } else {
        assert(t[0] == rs[0]);
        assert(t.drop_first() =~= rs.drop_first().push(x));
        lemma_concat_le_snoc(rs.drop_first(), x);
        assert(le_bytes(rs[0] as int, 8) + (concat_le(rs.drop_first()) + le_bytes(x as int, 8))
            =~= (le_bytes(rs[0] as int, 8) + concat_le(rs.drop_first())) + le_bytes(x as int, 8));
    }
}

impl BPFRegs {
    /// The serialized form: the general registers in declared order, then
    /// the program counter, eight little-endian bytes each.
    pub open spec fn to_bytes_spec(&self) -> Seq<u8> {
        concat_le(self.regs@) + le_bytes(self.pc as int, 8)
    }

    /// A register file with every register and the program counter zero.
    pub fn zeroed() -> (r: Self)
        ensures
            r.regs@ =~= Seq::new(NUM_REGS as nat, |i: int| 0u64),
            r.pc == 0,
    {
        BPFRegs { regs: [0u64; NUM_REGS], pc: 0 }
    }

    /// Serializes the register file to its 96-byte wire form.
    #[verifier::loop_isolation(false)]
    pub fn gdb_serialize(&self) -> (r: Vec<u8>)
        ensures
            r@ == self.to_bytes_spec(),
            r@.len() == REG_NUM_BYTES,
    {
        let mut out: Vec<u8> = Vec::new();
        let mut i: usize = 0;
        proof {
            assert(self.regs@.take(0) =~= Seq::<u64>::empty());
        }
        while i < NUM_REGS
            invariant
                i <= NUM_REGS,
                out@ == concat_le(self.regs@.take(i as int)),
                out@.len() == 8 * i,
            decreases NUM_REGS - i,
        {
            let mut piece = u64_le_vec(self.regs[i]);
            proof {
                lemma_le_bytes_len(self.regs@[i as int] as int, 8);
                lemma_concat_le_snoc(self.regs@.take(i as int), self.regs@[i as int]);
                assert(self.regs@.take(i as int).push(self.regs@[i as int]) =~= self.regs@.take(
                    i as int + 1,
                ));
            }
            out.append(&mut piece);
            i = i + 1;
        }
        proof {
            assert(self.regs@.take(NUM_REGS as int) =~= self.regs@);
        }
        let mut tail = u64_le_vec(self.pc);
        proof {
            lemma_le_bytes_len(self.pc as int, 8);
        }
        out.append(&mut tail);
        out
    }

    /// Fills the register file from its 96-byte wire form. A buffer of any
    /// other length is rejected with a serialization error and leaves the
    /// register file unchanged.
    #[verifier::loop_isolation(false)]
    pub fn gdb_deserialize(&mut self, bytes: &Vec<u8>) -> (r: Result<(), DebugError>)
        ensures
            r is Ok <==> bytes@.len() == REG_NUM_BYTES,
            r is Ok ==> final(self).to_bytes_spec() == bytes@,
            r is Err ==> *final(self) == *old(self) && r == Err::<(), DebugError>(
                DebugError::Serialization,
            ),
    {
        if bytes.len() != REG_NUM_BYTES {
            return Err(DebugError::Serialization);
        }
        let mut i: usize = 0;
        while i < NUM_REGS
            invariant
                i <= NUM_REGS,
                forall|j: int|
                    0 <= j < i ==> self.regs@[j] as int == le_value(
                        #[trigger] bytes@.subrange(8 * j, 8 * j + 8),
                    ),
            decreases NUM_REGS - i,
        {
            let v = read_u64_le(bytes, 8 * i);
            self.regs.set(i, v);
            i = i + 1;
        }
        let pc = read_u64_le(bytes, 88);
        self.pc = pc;
        proof {
            lemma_regs_reassemble(*self, bytes@);
        }
        Ok(())
    }
}

/// Serialization inverts deserialization: a register file whose registers
/// and program counter denote the twelve little-endian chunks of a 96-byte
/// buffer serializes back to exactly that buffer.
pub proof fn lemma_regs_reassemble(rf: BPFRegs, s: Seq<u8>)
    requires
        s.len() == REG_NUM_BYTES,
        forall|j: int|
            0 <= j < NUM_REGS ==> rf.regs@[j] as int == le_value(
                #[trigger] s.subrange(8 * j, 8 * j + 8),
            ),
        rf.pc as int == le_value(s.subrange(88, 96)),
    ensures
        rf.to_bytes_spec() == s,
{
    assert forall|j: int| 0 <= j < NUM_REGS implies le_bytes(rf.regs@[j] as int, 8)
        == s.subrange(8 * j, 8 * j + 8) by {
        lemma_le_bytes_of_le_value(s.subrange(8 * j, 8 * j + 8));
    }
    lemma_le_bytes_of_le_value(s.subrange(88, 96));
    lemma_concat_prefix(rf.regs@, s, NUM_REGS as int);
    assert(concat_le(rf.regs@.take(NUM_REGS as int)) == s.subrange(0, 88));
    assert(rf.regs@.take(NUM_REGS as int) =~= rf.regs@);
    assert(concat_le(rf.regs@) + le_bytes(rf.pc as int, 8) =~= s);
}

proof fn lemma_concat_prefix(rs: Seq<u64>, s: Seq<u8>, k: int)
    requires
        0 <= k <= rs.len(),
        rs.len() == NUM_REGS,
        s.len() == REG_NUM_BYTES,
        forall|j: int|
            0 <= j < rs.len() ==> rs[j] as int == le_value(#[trigger] s.subrange(8 * j, 8 * j + 8)),
    ensures
        concat_le(rs.take(k)) == s.subrange(0, 8 * k),
    decreases k,
{
    if k == 0 {
        assert(rs.take(0) =~= Seq::<u64>::empty());
        assert(concat_le(rs.take(0)) =~= s.subrange(0, 0));
    } else {
        lemma_concat_prefix(rs, s, k - 1);
        lemma_concat_le_snoc(rs.take(k - 1), rs[k - 1]);
        assert(rs.take(k - 1).push(rs[k - 1]) =~= rs.take(k));
        lemma_le_bytes_of_le_value(s.subrange(8 * (k - 1), 8 * (k - 1) + 8));
        assert(s.subrange(0, 8 * (k - 1)) + s.subrange(8 * (k - 1), 8 * k) =~= s.subrange(0, 8 * k));
    }
}

/// The id of one register on the wire: 0 to 10 name the general registers,
/// 11 names the program counter.
#[derive(Debug, Clone, Copy, PartialEq, Eq)]
pub struct BPFRegId(pub u8);

impl BPFRegId {
    /// Accepts a raw protocol register number. Ids past the program counter
    /// are out of range; an accepted id reports eight bytes of content.
    pub fn from_raw_id(id: usize) -> (r: Option<(BPFRegId, usize)>)
        ensures
            r is Some <==> id <= NUM_REGS,
            r is Some ==> r == Some((BPFRegId(id as u8), 8usize)),
    {
        if id <= NUM_REGS {
            Some((BPFRegId(id as u8), 8))
        } else {
            None
        }
    }
}

impl From<u8> for BPFRegId {
    fn from(val: u8) -> (r: BPFRegId) {
        BPFRegId(val)
    }
}

impl vstd::std_specs::convert::FromSpecImpl<u8> for BPFRegId {
    open spec fn obeys_from_spec() -> bool {
        true
    }

    open spec fn from_spec(val: u8) -> BPFRegId {
        BPFRegId(val)
    }
}

/// The target architecture: a 64-bit machine whose register file is
/// `BPFRegs`, addressed on the wire by `BPFRegId`.
pub struct BPFArch;

} // verus!
