//! The protocol vocabulary: client intents, engine requests and replies,
//! stop notifications, and the error kinds of the server.

use vstd::prelude::*;

verus! {

/// Where the server listens for its single debugger connection: a TCP
/// host/port string, or the path of a local stream socket.
pub enum DebugTargetString {
    Tcp(String),
    Unix(String),
}

/// The error kinds of the server.
///
/// `InvalidPacket` and `ChecksumMismatch` are recoverable protocol errors;
/// `Command` carries an engine-reported failure code; `Serialization` rejects
/// a register buffer of the wrong length; `Internal` is fatal to the session.
#[derive(Debug, Clone, PartialEq, Eq)]
pub enum DebugError {
    InvalidPacket,
    ChecksumMismatch,
    Command(u8),
    Serialization,
    Internal,
}

/// Request from the remote debugger client to execute one command.
#[derive(Debug, Clone, PartialEq, Eq)]
pub enum DebugRequest {
    /// Show `len` bytes of memory starting at `addr`.
    ShowMem { addr: usize, len: usize },
    /// Write `buf` to memory at `addr`.
    SetMem { addr: usize, buf: Vec<u8> },
    /// Show the contents of all registers.
    ShowRegs,
    /// Set all registers from their serialized wire form.
    SetRegs(Vec<u8>),
    /// Show the contents of one register.
    ShowReg(usize),
    /// Set one register to a value.
    SetReg(usize, u64),
    /// Continue execution, optionally from a given address.
    Continue(Option<usize>),
    /// End the debugged process and the session.
    Kill,
    /// Load `len` bytes of executable data at `offset`.
    Load { offset: usize, len: Option<usize> },
    /// Report the section offsets the client should apply.
    Offsets,
    /// Report the symbols the client should use.
    Symbols,
    /// Announce the supported protocol features.
    Supported,
    /// Execute a single instruction.
    Step,
    /// Report why execution last stopped.
    WhyHalted,
    /// Place a breakpoint at an address.
    SetBreakpoint(usize),
    /// Remove the breakpoint at an address.
    RemoveBreakpoint(usize),
}

/// A stop notification: why execution is no longer running.
#[derive(Debug, Clone, PartialEq, Eq)]
pub enum StopReply {
    /// Stopped by a signal.
    Signal(u8),
    /// Stopped by a signal, with qualifying values.
    SignalWithValue(u8, Vec<StopValue>),
    /// The process exited with a status code.
    ExitStatus(u8),
    /// The process was terminated by a signal.
    TerminateSignal(u8),
    /// Console output passed through to the client.
    Output(Vec<u8>),
}

/// A value qualifying a signal stop.
#[derive(Debug, Clone, Copy, PartialEq, Eq)]
pub enum StopValue {
    Watch,
    RWatch,
    AWatch,
    SyscallEntry,
    SyscallReturn,
    SwBreak,
}

/// A stop reply as a mathematical value: its payload vector as a sequence.
pub enum StopForm {
    Signal(u8),
    SignalWithValue(u8, Seq<StopValue>),
    ExitStatus(u8),
    TerminateSignal(u8),
    Output(Seq<u8>),
}

/// The mathematical value of a stop reply.
pub open spec fn stop_view(s: StopReply) -> StopForm {
    match s {
        StopReply::Signal(c) => StopForm::Signal(c),
        StopReply::SignalWithValue(c, vals) => StopForm::SignalWithValue(c, vals@),
        StopReply::ExitStatus(c) => StopForm::ExitStatus(c),
        StopReply::TerminateSignal(c) => StopForm::TerminateSignal(c),
        StopReply::Output(bytes) => StopForm::Output(bytes@),
    }
}

/// Response toward the debugger client with the result of one command.
#[derive(Debug, Clone, PartialEq, Eq)]
pub enum DebugReply {
    Done,
    Error(u8),
    ShowMem(Vec<u8>),
    ShowRegs(Vec<u8>),
    StopReply(StopReply),
    Load(Vec<u8>),
    Offsets { text: usize, data: usize, bss: usize },
    Supported { packet_size: usize },
}

/// A request sent over the bridge to the execution engine.
#[derive(Debug, Clone, PartialEq, Eq)]
pub enum VmRequest {
    Resume(Option<usize>),
    Interrupt,
    Step,
    ReadRegs,
    WriteRegs(Vec<u8>),
    ReadReg(usize),
    WriteReg(usize, u64),
    ReadMem(usize, usize),
    WriteMem(usize, Vec<u8>),
    SetBrkpt(usize),
    RemoveBrkpt(usize),
    Offsets,
    Detach,
}

/// A reply received over the bridge from the execution engine.
#[derive(Debug, Clone, PartialEq, Eq)]
pub enum VmReply {
    DoneStep,
    Interrupt,
    /// The process stopped for good: exited with a status, or was terminated
    /// by a signal.
    Halted { exited: bool, code: u8 },
    Breakpoint,
    Error(u8),
    ReadRegs(Vec<u8>),
    ReadReg(u64),
    WriteRegs,
    WriteReg,
    ReadMem(Vec<u8>),
    WriteMem,
    SetBrkpt,
    RemoveBrkpt,
    Offsets { text: usize, data: usize, bss: usize },
    Detach,
}

} // verus!
