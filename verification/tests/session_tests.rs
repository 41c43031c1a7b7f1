use gdb_server::codec::{decode_packet, wrap_packet};
use gdb_server::parser::parse_command;
use gdb_server::protocol::{
    DebugError, DebugReply, DebugRequest, StopReply, StopValue, VmReply, VmRequest,
};
use gdb_server::session::{error_code, Action, DebugSession, Pending, SessionState};
use gdb_server::wire::{encode_reply, encode_stop_reply};

/// Scenario: a well-formed `?` packet is acknowledged and answered with a
/// stop reply describing the engine's current state.
#[test]
fn why_halted_round_trip() {
    let raw = b"$?#3f".to_vec();
    // The packet decodes cleanly, so the server acknowledges with `+`.
    let payload = decode_packet(&raw).expect("well-formed packet");
    let request = parse_command(payload).expect("known command");
    assert_eq!(request, DebugRequest::WhyHalted);

    let mut session = DebugSession::new();
    let action = session.on_request(request);
    // Answered locally: the bridge is untouched and the initial stop reason
    // is a trap.
    assert_eq!(
        action,
        Action::Reply(DebugReply::StopReply(StopReply::Signal(5)))
    );
    if let Action::Reply(reply) = action {
        assert_eq!(wrap_packet(&encode_reply(&reply)), b"$S05#b8".to_vec());
    }
}

/// Scenario: set a breakpoint at 0x1000, continue, and have the engine
/// report the breakpoint; the stop reply names the software breakpoint and
/// the table still holds the address.
#[test]
fn breakpoint_then_continue() {
    let mut session = DebugSession::new();

    let request = parse_command(b"Z0,1000,1".to_vec()).unwrap();
    assert_eq!(request, DebugRequest::SetBreakpoint(0x1000));
    let action = session.on_request(request);
    assert_eq!(action, Action::Send(VmRequest::SetBrkpt(0x1000)));
    assert_eq!(session.on_reply(VmReply::SetBrkpt), Ok(DebugReply::Done));

    let request = parse_command(b"c".to_vec()).unwrap();
    let action = session.on_request(request);
    assert_eq!(action, Action::Send(VmRequest::Resume(None)));
    assert_eq!(session.state, SessionState::Running);

    let answer = session.on_reply(VmReply::Breakpoint).unwrap();
    match &answer {
        DebugReply::StopReply(StopReply::SignalWithValue(code, vals)) => {
            assert_eq!(*code, 5);
            assert_eq!(vals.as_slice(), &[StopValue::SwBreak]);
        }
        other => panic!("unexpected reply {:?}", other),
    }
    assert_eq!(session.state, SessionState::Idle);
    assert_eq!(session.breakpoints.check_brkpt(0x1000), Some(1));
}

/// Scenario: a continue is interrupted by the client before any engine
/// reply; the engine acknowledges the interrupt, the client is told the
/// debugger stopped the program, and nothing stays pending.
#[test]
fn interrupt_during_continue() {
    let mut session = DebugSession::new();
    let action = session.on_request(DebugRequest::Continue(None));
    assert_eq!(action, Action::Send(VmRequest::Resume(None)));
    assert_eq!(session.state, SessionState::Running);

    let action = session.on_interrupt();
    assert_eq!(action, Action::Send(VmRequest::Interrupt));

    let answer = session.on_reply(VmReply::Interrupt).unwrap();
    assert_eq!(answer, DebugReply::StopReply(StopReply::Signal(2)));
    assert_eq!(session.state, SessionState::Idle);
    assert_eq!(session.pending, Pending::Nothing);
}

/// Scenario: a `G` packet with a 95-byte register image is rejected with
/// the serialization error reply, and the bridge is never touched.
#[test]
fn short_register_write_is_rejected_locally() {
    let mut session = DebugSession::new();
    let action = session.on_request(DebugRequest::SetRegs(vec![0u8; 95]));
    assert_eq!(action, Action::Reply(DebugReply::Error(3)));
    assert_eq!(session.state, SessionState::Idle);
    assert_eq!(session.pending, Pending::Nothing);

    // A full 96-byte image goes to the engine.
    let action = session.on_request(DebugRequest::SetRegs(vec![0u8; 96]));
    assert_eq!(action, Action::Send(VmRequest::WriteRegs(vec![0u8; 96])));
    assert_eq!(session.on_reply(VmReply::WriteRegs), Ok(DebugReply::Done));
}

#[test]
fn single_round_trips_return_to_idle() {
    let mut session = DebugSession::new();

    let action = session.on_request(DebugRequest::ShowMem { addr: 0x10, len: 4 });
    assert_eq!(action, Action::Send(VmRequest::ReadMem(0x10, 4)));
    assert_eq!(
        session.on_reply(VmReply::ReadMem(vec![1, 2, 3, 4])),
        Ok(DebugReply::ShowMem(vec![1, 2, 3, 4]))
    );

    let action = session.on_request(DebugRequest::ShowRegs);
    assert_eq!(action, Action::Send(VmRequest::ReadRegs));
    assert_eq!(
        session.on_reply(VmReply::ReadRegs(vec![0u8; 96])),
        Ok(DebugReply::ShowRegs(vec![0u8; 96]))
    );

    // A single register read comes back as its eight little-endian bytes.
    let action = session.on_request(DebugRequest::ShowReg(1));
    assert_eq!(action, Action::Send(VmRequest::ReadReg(1)));
    assert_eq!(
        session.on_reply(VmReply::ReadReg(0x0102)),
        Ok(DebugReply::ShowRegs(vec![2, 1, 0, 0, 0, 0, 0, 0]))
    );

    let action = session.on_request(DebugRequest::Offsets);
    assert_eq!(action, Action::Send(VmRequest::Offsets));
    assert_eq!(
        session.on_reply(VmReply::Offsets { text: 1, data: 2, bss: 3 }),
        Ok(DebugReply::Offsets { text: 1, data: 2, bss: 3 })
    );
}

#[test]
fn out_of_range_register_ids_never_reach_the_bridge() {
    let mut session = DebugSession::new();
    assert_eq!(
        session.on_request(DebugRequest::ShowReg(12)),
        Action::Reply(DebugReply::Error(1))
    );
    assert_eq!(
        session.on_request(DebugRequest::SetReg(12, 0)),
        Action::Reply(DebugReply::Error(1))
    );
    assert_eq!(session.pending, Pending::Nothing);
}

#[test]
fn supported_is_answered_locally() {
    let mut session = DebugSession::new();
    assert_eq!(
        session.on_request(DebugRequest::Supported),
        Action::Reply(DebugReply::Supported { packet_size: 4096 })
    );
}

#[test]
fn step_reports_a_trap() {
    let mut session = DebugSession::new();
    let action = session.on_request(DebugRequest::Step);
    assert_eq!(action, Action::Send(VmRequest::Step));
    assert_eq!(session.state, SessionState::Stepping);
    assert_eq!(
        session.on_reply(VmReply::DoneStep),
        Ok(DebugReply::StopReply(StopReply::Signal(5)))
    );
    assert_eq!(session.state, SessionState::Idle);
    // The stop reason is remembered for a later `?`.
    assert_eq!(
        session.on_request(DebugRequest::WhyHalted),
        Action::Reply(DebugReply::StopReply(StopReply::Signal(5)))
    );
}

#[test]
fn process_exit_ends_the_session() {
    let mut session = DebugSession::new();
    session.on_request(DebugRequest::Continue(None));
    assert_eq!(
        session.on_reply(VmReply::Halted { exited: true, code: 0 }),
        Ok(DebugReply::StopReply(StopReply::ExitStatus(0)))
    );
    assert_eq!(session.state, SessionState::Terminal);

    let mut session = DebugSession::new();
    session.on_request(DebugRequest::Continue(None));
    assert_eq!(
        session.on_reply(VmReply::Halted { exited: false, code: 9 }),
        Ok(DebugReply::StopReply(StopReply::TerminateSignal(9)))
    );
    assert_eq!(session.state, SessionState::Idle);
}

#[test]
fn engine_errors_are_command_errors() {
    let mut session = DebugSession::new();
    session.on_request(DebugRequest::ShowRegs);
    assert_eq!(
        session.on_reply(VmReply::Error(7)),
        Ok(DebugReply::Error(7))
    );
    assert_eq!(session.state, SessionState::Idle);
}

#[test]
fn mismatched_replies_are_fatal() {
    let mut session = DebugSession::new();
    session.on_request(DebugRequest::ShowRegs);
    assert_eq!(
        session.on_reply(VmReply::WriteRegs),
        Err(DebugError::Internal)
    );
    assert_eq!(session.state, SessionState::Terminal);
}

#[test]
fn kill_is_terminal() {
    let mut session = DebugSession::new();
    let action = session.on_request(DebugRequest::Kill);
    assert_eq!(action, Action::Send(VmRequest::Detach));
    assert_eq!(session.state, SessionState::Terminal);
}

#[test]
fn error_codes_name_each_error_kind() {
    assert_eq!(error_code(&DebugError::InvalidPacket), 1);
    assert_eq!(error_code(&DebugError::ChecksumMismatch), 2);
    assert_eq!(error_code(&DebugError::Serialization), 3);
    assert_eq!(error_code(&DebugError::Command(9)), 9);
    assert_eq!(error_code(&DebugError::Internal), 0xff);
}

#[test]
fn reply_encodings() {
    assert_eq!(encode_reply(&DebugReply::Done), b"OK".to_vec());
    assert_eq!(encode_reply(&DebugReply::Error(0x0a)), b"E0a".to_vec());
    assert_eq!(
        encode_reply(&DebugReply::ShowMem(vec![0xde, 0xad])),
        b"dead".to_vec()
    );
    assert_eq!(encode_stop_reply(&StopReply::Signal(5)), b"S05".to_vec());
    assert_eq!(
        encode_stop_reply(&StopReply::SignalWithValue(5, vec![StopValue::SwBreak])),
        b"T05swbreak:;".to_vec()
    );
    assert_eq!(encode_stop_reply(&StopReply::ExitStatus(0)), b"W00".to_vec());
    assert_eq!(
        encode_stop_reply(&StopReply::TerminateSignal(9)),
        b"X09".to_vec()
    );
    assert_eq!(
        encode_stop_reply(&StopReply::Output(b"hi".to_vec())),
        b"O6869".to_vec()
    );
    assert_eq!(
        encode_reply(&DebugReply::Offsets { text: 0x10, data: 0x20, bss: 0 }),
        b"Text=0000000000000010;Data=0000000000000020;Bss=0000000000000000".to_vec()
    );
    assert_eq!(
        encode_reply(&DebugReply::Supported { packet_size: 4096 }),
        b"PacketSize=0000000000001000".to_vec()
    );
}
