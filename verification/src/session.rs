//! The debug session state machine. It owns the breakpoint mirror and the
//! last stop reason, and decides, for every client request and every engine
//! reply, what to send over the bridge, what to answer the client, and what
//! state to enter. The surrounding loop performs the sends and receives;
//! every decision stands here.

use vstd::prelude::*;

use crate::breakpoints::BreakpointTable;
use crate::protocol::{DebugError, DebugRequest, DebugReply, StopReply, StopValue, VmReply, VmRequest};
use crate::protocol::{stop_view, StopForm};

verus! {

/// The signal code reported for a trap: a breakpoint or a completed step.
pub const SIGTRAP: u8 = 5;

/// The signal code reported when the debugger interrupts execution.
pub const SIGINT: u8 = 2;

/// The packet size announced to a client asking for supported features.
pub const PACKET_SIZE: usize = 4096;

/// The error code a client is shown for each error kind; an engine-reported
/// failure keeps the engine's code.
pub open spec fn error_code_spec(e: DebugError) -> u8 {
    match e {
        DebugError::InvalidPacket => 1,
        DebugError::ChecksumMismatch => 2,
        DebugError::Serialization => 3,
        DebugError::Command(c) => c,
        DebugError::Internal => 0xff,
    }
}

/// Exec form of `error_code_spec`.
pub fn error_code(e: &DebugError) -> (r: u8)
    ensures
        r == error_code_spec(*e),
{
    match e {
        DebugError::InvalidPacket => 1,
        DebugError::ChecksumMismatch => 2,
        DebugError::Serialization => 3,
        DebugError::Command(c) => *c,
        DebugError::Internal => 0xff,
    }
}

/// Copies a byte vector element by element.
pub fn copy_bytes(v: &Vec<u8>) -> (r: Vec<u8>)
    ensures
        r@ == v@,
{
    let mut out: Vec<u8> = Vec::new();
    let mut i: usize = 0;
    while i < v.len()
        invariant
            i <= v@.len(),
            out@ =~= v@.subrange(0, i as int),
        decreases v@.len() - i,
    {
        out.push(v[i]);
        proof {
            assert(out@ =~= v@.subrange(0, i as int + 1));
        }
        i = i + 1;
    }
    proof {
        assert(v@.subrange(0, v@.len() as int) =~= v@);
    }
    out
}

/// Copies a vector of stop values element by element.
pub fn copy_stop_values(v: &Vec<StopValue>) -> (r: Vec<StopValue>)
    ensures
        r@ == v@,
{
    let mut out: Vec<StopValue> = Vec::new();
    let mut i: usize = 0;
    while i < v.len()
        invariant
            i <= v@.len(),
            out@ =~= v@.subrange(0, i as int),
        decreases v@.len() - i,
    {
        out.push(v[i]);
        proof {
            assert(out@ =~= v@.subrange(0, i as int + 1));
        }
        i = i + 1;
    }
    proof {
        assert(v@.subrange(0, v@.len() as int) =~= v@);
    }
    out
}

/// A copy of a stop reply, equal to it as a value of the protocol.
pub fn clone_stop_reply(s: &StopReply) -> (r: StopReply)
    ensures
        stop_view(r) == stop_view(*s),
{
    match s {
        StopReply::Signal(c) => StopReply::Signal(*c),
        StopReply::SignalWithValue(c, vals) => StopReply::SignalWithValue(
            *c,
            copy_stop_values(vals),
        ),
        StopReply::ExitStatus(c) => StopReply::ExitStatus(*c),
        StopReply::TerminateSignal(c) => StopReply::TerminateSignal(*c),
        StopReply::Output(bytes) => StopReply::Output(copy_bytes(bytes)),
    }
}

/// The control state of one session.
#[derive(Debug, Clone, Copy, PartialEq, Eq)]
pub enum SessionState {
    /// No execution outstanding; commands are taken one at a time.
    Idle,
    /// A continue is outstanding.
    Running,
    /// A step is outstanding.
    Stepping,
    /// The session is ending; the connection is to be closed.
    Terminal,
}

/// Which bridge request is outstanding, if any: the session never has more
/// than one in flight, except that an `Interrupt` overtakes an outstanding
/// `Resume`.
#[derive(Debug, Clone, Copy, PartialEq, Eq)]
pub enum Pending {
    Nothing,
    Step,
    Resume,
    Interrupt,
    ReadRegs,
    WriteRegs,
    ReadReg,
    WriteReg,
    ReadMem,
    WriteMem,
    SetBrkpt,
    RemoveBrkpt,
    Offsets,
}

/// What the surrounding loop is to do with one decision: forward a request
/// to the engine and await its reply, or answer the client at once with the
/// bridge untouched.
#[derive(Debug, Clone, PartialEq, Eq)]
pub enum Action {
    Send(VmRequest),
    Reply(DebugReply),
}

/// One debug session: control state, the outstanding bridge request, the
/// advisory breakpoint mirror, and the last stop reason.
pub struct DebugSession {
    pub state: SessionState,
    pub pending: Pending,
    pub breakpoints: BreakpointTable,
    pub last_stop: StopReply,
    pub next_bp_id: i32,
}

/// Whether an engine reply has the variant that the outstanding request
/// expects. An `Error` reply is acceptable for every request.
pub open spec fn reply_matches(p: Pending, reply: VmReply) -> bool {
    match p {
        Pending::Nothing => false,
        Pending::Step => reply is DoneStep,
        Pending::Resume => reply is Breakpoint || reply is Halted,
        Pending::Interrupt => reply is Interrupt,
        Pending::ReadRegs => reply is ReadRegs,
        Pending::WriteRegs => reply is WriteRegs,
        Pending::ReadReg => reply is ReadReg,
        Pending::WriteReg => reply is WriteReg,
        Pending::ReadMem => reply is ReadMem,
        Pending::WriteMem => reply is WriteMem,
        Pending::SetBrkpt => reply is SetBrkpt,
        Pending::RemoveBrkpt => reply is RemoveBrkpt,
        Pending::Offsets => reply is Offsets,
    }
}

impl DebugSession {
    /// Session well-formedness: the breakpoint mirror is well formed, and
    /// the control state agrees with what is outstanding: exactly the
    /// execution states have an execution request in flight.
    pub open spec fn wf(&self) -> bool {
        &&& self.breakpoints.wf()
        &&& (self.state is Running <==> (self.pending is Resume || self.pending is Interrupt))
        &&& (self.state is Stepping <==> self.pending is Step)
        &&& (self.state is Terminal ==> self.pending is Nothing)
    }

    /// A fresh session: idle, nothing outstanding, no breakpoints, and a
    /// trap as the initial stop reason.
    pub fn new() -> (r: Self)
        ensures
            r.wf(),
            r.state is Idle,
            r.pending is Nothing,
            r.breakpoints@ == Map::<usize, i32>::empty(),
            !r.breakpoints.is_many(),
            r.last_stop == StopReply::Signal(SIGTRAP),
            r.next_bp_id == 1,
    {
        DebugSession {
            state: SessionState::Idle,
            pending: Pending::Nothing,
            breakpoints: BreakpointTable::new(),
            last_stop: StopReply::Signal(SIGTRAP),
            next_bp_id: 1,
        }
    }

    /// Decides one client request, taken in the idle state (a kill is taken
    /// in any state). Single-round-trip commands send one bridge request
    /// and stay idle; a continue or step enters the matching execution
    /// state; requests the session can answer or reject alone answer at
    /// once with the bridge untouched: an out-of-range register id, a
    /// register buffer that is not exactly 96 bytes, the stop-reason and
    /// feature queries, and the unsupported load and symbol queries.
    pub fn on_request(&mut self, req: DebugRequest) -> (a: Action)
        requires
            old(self).wf(),
            old(self).state is Idle || req is Kill,
        ensures
            final(self).wf(),
            final(self).last_stop == old(self).last_stop,
            match req {
                DebugRequest::WhyHalted => (a matches Action::Reply(DebugReply::StopReply(sr))
                    && stop_view(sr) == stop_view(old(self).last_stop)) && *final(self) == *old(self),
                DebugRequest::Supported => a == Action::Reply(
                    DebugReply::Supported { packet_size: PACKET_SIZE },
                ) && *final(self) == *old(self),
                DebugRequest::Load { .. } => a == Action::Reply(
                    DebugReply::Error(error_code_spec(DebugError::InvalidPacket)),
                ) && *final(self) == *old(self),
                DebugRequest::Symbols => a == Action::Reply(
                    DebugReply::Error(error_code_spec(DebugError::InvalidPacket)),
                ) && *final(self) == *old(self),
                DebugRequest::ShowRegs => a == Action::Send(VmRequest::ReadRegs) && final(self).state is Idle && final(self).pending is ReadRegs && final(self).breakpoints
                    == old(self).breakpoints && final(self).next_bp_id == old(self).next_bp_id,
                DebugRequest::SetRegs(buf) => if buf@.len() == crate::registers::REG_NUM_BYTES {
                    a == Action::Send(VmRequest::WriteRegs(buf)) && final(self).state is Idle
                        && final(self).pending is WriteRegs && final(self).breakpoints == old(self).breakpoints && final(self).next_bp_id == old(self).next_bp_id
                } else {
                    a == Action::Reply(DebugReply::Error(error_code_spec(DebugError::Serialization)))
                        && *final(self) == *old(self)
                },
                DebugRequest::ShowReg(id) => if id <= crate::registers::NUM_REGS {
                    a == Action::Send(VmRequest::ReadReg(id)) && final(self).state is Idle && final(self).pending is ReadReg && final(self).breakpoints == old(self).breakpoints
                        && final(self).next_bp_id == old(self).next_bp_id
                } else {
                    a == Action::Reply(DebugReply::Error(error_code_spec(DebugError::InvalidPacket)))
                        && *final(self) == *old(self)
                },
                DebugRequest::SetReg(id, val) => if id <= crate::registers::NUM_REGS {
                    a == Action::Send(VmRequest::WriteReg(id, val)) && final(self).state is Idle
                        && final(self).pending is WriteReg && final(self).breakpoints == old(self).breakpoints && final(self).next_bp_id == old(self).next_bp_id
                } else {
                    a == Action::Reply(DebugReply::Error(error_code_spec(DebugError::InvalidPacket)))
                        && *final(self) == *old(self)
                },
                DebugRequest::ShowMem { addr, len } => a == Action::Send(
                    VmRequest::ReadMem(addr, len),
                ) && final(self).state is Idle && final(self).pending is ReadMem && final(self).breakpoints == old(self).breakpoints && final(self).next_bp_id == old(self).next_bp_id,
                DebugRequest::SetMem { addr, buf } => a == Action::Send(
                    VmRequest::WriteMem(addr, buf),
                ) && final(self).state is Idle && final(self).pending is WriteMem && final(self).breakpoints == old(self).breakpoints && final(self).next_bp_id == old(self).next_bp_id,
                DebugRequest::Offsets => a == Action::Send(VmRequest::Offsets) && final(self).state is Idle && final(self).pending is Offsets && final(self).breakpoints == old(self).breakpoints && final(self).next_bp_id == old(self).next_bp_id,
                DebugRequest::Continue(addr) => a == Action::Send(VmRequest::Resume(addr)) && final(self).state is Running && final(self).pending is Resume && final(self).breakpoints
                    == old(self).breakpoints && final(self).next_bp_id == old(self).next_bp_id,
                DebugRequest::Step => a == Action::Send(VmRequest::Step) && final(self).state is Stepping && final(self).pending is Step && final(self).breakpoints == old(self).breakpoints && final(self).next_bp_id == old(self).next_bp_id,
                DebugRequest::SetBreakpoint(addr) => a == Action::Send(VmRequest::SetBrkpt(addr))
                    && final(self).state is Idle && final(self).pending is SetBrkpt && final(self).breakpoints@ == old(self).breakpoints@.insert(addr, old(self).next_bp_id) && (old(self).breakpoints.is_many() ==> final(self).breakpoints.is_many()) && final(self).next_bp_id == (if old(self).next_bp_id < i32::MAX {
                    old(self).next_bp_id + 1
                } else {
                    old(self).next_bp_id as int
                }),
                DebugRequest::RemoveBreakpoint(addr) => a == Action::Send(
                    VmRequest::RemoveBrkpt(addr),
                ) && final(self).state is Idle && final(self).pending is RemoveBrkpt && final(self).breakpoints@ == old(self).breakpoints@.remove(addr) && final(self).breakpoints.is_many() == old(self).breakpoints.is_many() && final(self).next_bp_id
                    == old(self).next_bp_id,
                DebugRequest::Kill => a == Action::Send(VmRequest::Detach) && final(self).state is Terminal && final(self).pending is Nothing && final(self).breakpoints
                    == old(self).breakpoints && final(self).next_bp_id == old(self).next_bp_id,
            },
    {
        match req {
            DebugRequest::WhyHalted => Action::Reply(DebugReply::StopReply(clone_stop_reply(&self.last_stop))),
            DebugRequest::Supported => Action::Reply(
                DebugReply::Supported { packet_size: PACKET_SIZE },
            ),
            DebugRequest::Load { offset: _, len: _ } => Action::Reply(
                DebugReply::Error(error_code(&DebugError::InvalidPacket)),
            ),
            DebugRequest::Symbols => Action::Reply(
                DebugReply::Error(error_code(&DebugError::InvalidPacket)),
            ),
            DebugRequest::ShowRegs => {
                self.pending = Pending::ReadRegs;
                Action::Send(VmRequest::ReadRegs)
            },
            DebugRequest::SetRegs(buf) => {
                if buf.len() == crate::registers::REG_NUM_BYTES {
                    self.pending = Pending::WriteRegs;
                    Action::Send(VmRequest::WriteRegs(buf))
                } else {
                    Action::Reply(DebugReply::Error(error_code(&DebugError::Serialization)))
                }
            },
            DebugRequest::ShowReg(id) => {
                if id <= crate::registers::NUM_REGS {
                    self.pending = Pending::ReadReg;
                    Action::Send(VmRequest::ReadReg(id))
                } else {
                    Action::Reply(DebugReply::Error(error_code(&DebugError::InvalidPacket)))
                }
            },
            DebugRequest::SetReg(id, val) => {
                if id <= crate::registers::NUM_REGS {
                    self.pending = Pending::WriteReg;
                    Action::Send(VmRequest::WriteReg(id, val))
                } else {
                    Action::Reply(DebugReply::Error(error_code(&DebugError::InvalidPacket)))
                }
            },
            DebugRequest::ShowMem { addr, len } => {
                self.pending = Pending::ReadMem;
                Action::Send(VmRequest::ReadMem(addr, len))
            },
            DebugRequest::SetMem { addr, buf } => {
                self.pending = Pending::WriteMem;
                Action::Send(VmRequest::WriteMem(addr, buf))
            },
            DebugRequest::Offsets => {
                self.pending = Pending::Offsets;
                Action::Send(VmRequest::Offsets)
            },
            DebugRequest::Continue(addr) => {
                self.state = SessionState::Running;
                self.pending = Pending::Resume;
                Action::Send(VmRequest::Resume(addr))
            },
            DebugRequest::Step => {
                self.state = SessionState::Stepping;
                self.pending = Pending::Step;
                Action::Send(VmRequest::Step)
            },
            DebugRequest::SetBreakpoint(addr) => {
                let id = self.next_bp_id;
                self.breakpoints.set_brkpt(addr, id);
                if self.next_bp_id < i32::MAX {
                    self.next_bp_id = self.next_bp_id + 1;
                }
                self.pending = Pending::SetBrkpt;
                Action::Send(VmRequest::SetBrkpt(addr))
            },
            DebugRequest::RemoveBreakpoint(addr) => {
                self.breakpoints.remove_brkpt(addr);
                self.pending = Pending::RemoveBrkpt;
                Action::Send(VmRequest::RemoveBrkpt(addr))
            },
            DebugRequest::Kill => {
                self.state = SessionState::Terminal;
                self.pending = Pending::Nothing;
                Action::Send(VmRequest::Detach)
            },
        }
    }

    /// Decides one engine reply against the outstanding request. A matching
    /// reply yields the client's answer and returns the session to idle (or
    /// ends it, where the engine reports process exit); an `Error` reply is
    /// surfaced as a command error with the session back at idle; a reply
    /// of any other variant is an internal-consistency violation, fatal to
    /// the session.
    pub fn on_reply(&mut self, reply: VmReply) -> (r: Result<DebugReply, DebugError>)
        requires
            old(self).wf(),
            !(old(self).pending is Nothing),
        ensures
            final(self).wf(),
            final(self).breakpoints == old(self).breakpoints,
            final(self).next_bp_id == old(self).next_bp_id,
            reply is Error ==> r == Ok::<DebugReply, DebugError>(
                DebugReply::Error(reply->Error_0),
            ) && final(self).state is Idle && final(self).pending is Nothing && final(self).last_stop == old(self).last_stop,
            !(reply is Error) && !reply_matches(old(self).pending, reply) ==> r == Err::<
                DebugReply,
                DebugError,
            >(DebugError::Internal) && final(self).state is Terminal && final(self).pending is Nothing,
            old(self).pending is Step && reply is DoneStep ==> r == Ok::<DebugReply, DebugError>(
                DebugReply::StopReply(StopReply::Signal(SIGTRAP)),
            ) && final(self).state is Idle && final(self).pending is Nothing && final(self).last_stop == StopReply::Signal(SIGTRAP),
            old(self).pending is Resume && reply is Breakpoint ==> (r matches Ok(
                DebugReply::StopReply(StopReply::SignalWithValue(code, vals)),
            ) && code == SIGTRAP && vals@ == seq![StopValue::SwBreak] && final(self).state is Idle
                && final(self).pending is Nothing && stop_view(final(self).last_stop)
                == StopForm::SignalWithValue(SIGTRAP, seq![StopValue::SwBreak])),
            old(self).pending is Resume && reply is Halted ==> r == Ok::<DebugReply, DebugError>(
                DebugReply::StopReply(
                    if reply->exited {
                        StopReply::ExitStatus(reply->code)
                    } else {
                        StopReply::TerminateSignal(reply->code)
                    },
                ),
            ) && (reply->exited ==> final(self).state is Terminal) && (!reply->exited
                ==> final(self).state is Idle) && final(self).pending is Nothing && final(self).last_stop == (if reply->exited {
                StopReply::ExitStatus(reply->code)
            } else {
                StopReply::TerminateSignal(reply->code)
            }),
            old(self).pending is Interrupt && reply is Interrupt ==> r == Ok::<
                DebugReply,
                DebugError,
            >(DebugReply::StopReply(StopReply::Signal(SIGINT))) && final(self).state is Idle
                && final(self).pending is Nothing && final(self).last_stop == StopReply::Signal(
                SIGINT,
            ),
            old(self).pending is ReadRegs && reply is ReadRegs ==> r == Ok::<
                DebugReply,
                DebugError,
            >(DebugReply::ShowRegs(reply->ReadRegs_0)) && final(self).state is Idle && final(self).pending is Nothing && final(self).last_stop == old(self).last_stop,
            old(self).pending is WriteRegs && reply is WriteRegs ==> r == Ok::<
                DebugReply,
                DebugError,
            >(DebugReply::Done) && final(self).state is Idle && final(self).pending is Nothing
                && final(self).last_stop == old(self).last_stop,
            old(self).pending is ReadReg && reply is ReadReg ==> (r matches Ok(
                DebugReply::ShowRegs(bytes),
            ) && bytes@ == crate::registers::le_bytes(reply->ReadReg_0 as int, 8) && final(self).state is Idle && final(self).pending is Nothing && final(self).last_stop == old(self).last_stop),
            old(self).pending is WriteReg && reply is WriteReg ==> r == Ok::<
                DebugReply,
                DebugError,
            >(DebugReply::Done) && final(self).state is Idle && final(self).pending is Nothing
                && final(self).last_stop == old(self).last_stop,
            old(self).pending is ReadMem && reply is ReadMem ==> r == Ok::<DebugReply, DebugError>(
                DebugReply::ShowMem(reply->ReadMem_0),
            ) && final(self).state is Idle && final(self).pending is Nothing && final(self).last_stop == old(self).last_stop,
            old(self).pending is WriteMem && reply is WriteMem ==> r == Ok::<
                DebugReply,
                DebugError,
            >(DebugReply::Done) && final(self).state is Idle && final(self).pending is Nothing
                && final(self).last_stop == old(self).last_stop,
            old(self).pending is SetBrkpt && reply is SetBrkpt ==> r == Ok::<
                DebugReply,
                DebugError,
            >(DebugReply::Done) && final(self).state is Idle && final(self).pending is Nothing
                && final(self).last_stop == old(self).last_stop,
            old(self).pending is RemoveBrkpt && reply is RemoveBrkpt ==> r == Ok::<
                DebugReply,
                DebugError,
            >(DebugReply::Done) && final(self).state is Idle && final(self).pending is Nothing
                && final(self).last_stop == old(self).last_stop,
            old(self).pending is Offsets && reply is Offsets ==> r == Ok::<DebugReply, DebugError>(
                DebugReply::Offsets {
                    text: reply->text,
                    data: reply->data,
                    bss: reply->bss,
                },
            ) && final(self).state is Idle && final(self).pending is Nothing && final(self).last_stop == old(self).last_stop,
    {
        if let VmReply::Error(code) = &reply {
            self.state = SessionState::Idle;
            self.pending = Pending::Nothing;
            return Ok(DebugReply::Error(*code));
        }
        let matched: Option<DebugReply> = match (self.pending, reply) {
            (Pending::Step, VmReply::DoneStep) => {
                self.last_stop = StopReply::Signal(SIGTRAP);
                Some(DebugReply::StopReply(StopReply::Signal(SIGTRAP)))
            },
            (Pending::Resume, VmReply::Breakpoint) => {
                let mut vals: Vec<StopValue> = Vec::new();
                vals.push(StopValue::SwBreak);
                proof {
                    assert(vals@ =~= seq![StopValue::SwBreak]);
                }
                let stop = StopReply::SignalWithValue(SIGTRAP, vals);
                self.last_stop = clone_stop_reply(&stop);
                Some(DebugReply::StopReply(stop))
            },
            (Pending::Resume, VmReply::Halted { exited, code }) => {
                if exited {
                    self.last_stop = StopReply::ExitStatus(code);
                    self.state = SessionState::Terminal;
                    self.pending = Pending::Nothing;
                    return Ok(DebugReply::StopReply(StopReply::ExitStatus(code)));
                }
                self.last_stop = StopReply::TerminateSignal(code);
                Some(DebugReply::StopReply(StopReply::TerminateSignal(code)))
            },
            (Pending::Interrupt, VmReply::Interrupt) => {
                self.last_stop = StopReply::Signal(SIGINT);
                Some(DebugReply::StopReply(StopReply::Signal(SIGINT)))
            },
            (Pending::ReadRegs, VmReply::ReadRegs(bytes)) => Some(DebugReply::ShowRegs(bytes)),
            (Pending::WriteRegs, VmReply::WriteRegs) => Some(DebugReply::Done),
            (Pending::ReadReg, VmReply::ReadReg(val)) => Some(
                DebugReply::ShowRegs(crate::registers::u64_le_vec(val)),
            ),
            (Pending::WriteReg, VmReply::WriteReg) => Some(DebugReply::Done),
            (Pending::ReadMem, VmReply::ReadMem(bytes)) => Some(DebugReply::ShowMem(bytes)),
            (Pending::WriteMem, VmReply::WriteMem) => Some(DebugReply::Done),
            (Pending::SetBrkpt, VmReply::SetBrkpt) => Some(DebugReply::Done),
            (Pending::RemoveBrkpt, VmReply::RemoveBrkpt) => Some(DebugReply::Done),
            (Pending::Offsets, VmReply::Offsets { text, data, bss }) => Some(
                DebugReply::Offsets { text, data, bss },
            ),
            _ => None,
        };
        match matched {
            Some(answer) => {
                self.state = SessionState::Idle;
                self.pending = Pending::Nothing;
                Ok(answer)
            },
            None => {
                self.state = SessionState::Terminal;
                self.pending = Pending::Nothing;
                Err(DebugError::Internal)
            },
        }
    }

    /// Decides a client interrupt observed while a continue is outstanding:
    /// the engine is to be interrupted, and the session then awaits the
    /// interrupt acknowledgement instead of the continue's own stop.
    pub fn on_interrupt(&mut self) -> (a: Action)
        requires
            old(self).wf(),
            old(self).state is Running,
            old(self).pending is Resume,
        ensures
            final(self).wf(),
            a == Action::Send(VmRequest::Interrupt),
            final(self).state is Running,
            final(self).pending is Interrupt,
            final(self).breakpoints == old(self).breakpoints,
            final(self).last_stop == old(self).last_stop,
            final(self).next_bp_id == old(self).next_bp_id,
    {
        self.pending = Pending::Interrupt;
        Action::Send(VmRequest::Interrupt)
    }
}

} // verus!
