use ethercat_master::cyclic::al_state_transfer::AlStateTransfer;
use ethercat_master::cyclic::al_state_transfer::buffer_size;
use ethercat_master::cyclic::al_state_transfer::Error;
use ethercat_master::cyclic::al_state_transfer::max_timeout_ms;
use ethercat_master::cyclic::al_state_transfer::timed_out;
use ethercat_master::cyclic::al_state_transfer::transition_timeout_ms;
use ethercat_master::cyclic::CyclicProcess;
use ethercat_master::cyclic::EtherCatSystemTime;
use ethercat_master::cyclic::ReceivedData;
use ethercat_master::error::EcError;
use ethercat_master::interface::Command;
use ethercat_master::interface::TargetSlave;
use ethercat_master::network::NetworkDescription;
use ethercat_master::packet::CommandType;
use ethercat_master::register::AlStatusCode;
use ethercat_master::slave::AlState;

const MS: u64 = 1_000_000;

/// Asks the unit for its command and answers it with `data` and `wkc`.
fn exchange(
    unit: &mut AlStateTransfer,
    desc: &mut NetworkDescription,
    time: u64,
    data: &[u8],
    wkc: u16,
) -> (Command, Vec<u8>) {
    let (command, payload) = {
        let (command, payload) = unit.next_command(desc, EtherCatSystemTime(time)).unwrap();
        (command, payload.to_vec())
    };
    let reply = ReceivedData { command, data, wkc };
    unit.recieve_and_process(Some(reply), desc, EtherCatSystemTime(time));
    (command, payload)
}

fn status(state: u8, change_err: bool, code: u16) -> [u8; 6] {
    [state | if change_err { 0x10 } else { 0 }, 0, 0, 0, (code % 256) as u8, (code / 256) as u8]
}

#[test]
fn new_transfer_is_idle() {
    let mut desc = NetworkDescription::new();
    let mut unit = AlStateTransfer::new();
    assert_eq!(unit.wait(), None);
    assert!(unit.next_command(&mut desc, EtherCatSystemTime(0)).is_none());
}

#[test]
fn init_to_preop_single_slave() {
    let mut desc = NetworkDescription::new();
    let mut unit = AlStateTransfer::new();
    unit.start(TargetSlave::Single(0x1001), AlState::PreOperational);
    assert_eq!(unit.wait(), None);

    let (command, payload) = exchange(&mut unit, &mut desc, 0, &status(1, false, 0), 1);
    assert_eq!(command, Command::new(CommandType::FPRD, 0x1001, 0x0130));
    assert_eq!(payload, vec![0; 6]);
    assert_eq!(unit.wait(), None);

    let (command, payload) = exchange(&mut unit, &mut desc, 0, &[1, 0], 1);
    assert_eq!(command, Command::new(CommandType::FPWR, 0x1001, 0x0500));
    assert_eq!(payload, vec![1, 0]);

    let (command, payload) = exchange(&mut unit, &mut desc, 0, &[2, 0], 1);
    assert_eq!(command, Command::new(CommandType::FPWR, 0x1001, 0x0120));
    assert_eq!(payload, vec![2, 0]);
    assert_eq!(unit.wait(), None);

    let (command, _) = exchange(&mut unit, &mut desc, 1 * MS, &status(1, false, 0), 1);
    assert_eq!(command, Command::new(CommandType::FPRD, 0x1001, 0x0130));
    assert_eq!(unit.wait(), None);

    exchange(&mut unit, &mut desc, 100 * MS, &status(2, false, 0), 1);
    assert_eq!(unit.wait(), Some(Ok(AlState::PreOperational)));
    assert!(unit.next_command(&mut desc, EtherCatSystemTime(101 * MS)).is_none());
}

#[test]
fn wkc_mismatch() {
    let mut desc = NetworkDescription::new();
    let mut unit = AlStateTransfer::new();
    unit.start(TargetSlave::Single(0x1001), AlState::PreOperational);
    exchange(&mut unit, &mut desc, 0, &status(1, false, 0), 0);
    assert_eq!(unit.wait(), Some(Err(EcError::UnexpectedWKC(0))));
    assert!(unit.next_command(&mut desc, EtherCatSystemTime(0)).is_none());
}

#[test]
fn all_slaves_expect_their_count_as_wkc() {
    let mut desc = NetworkDescription::new();
    let mut unit = AlStateTransfer::new();
    unit.start(TargetSlave::All(3), AlState::Init);
    let (command, _) = exchange(&mut unit, &mut desc, 0, &status(1, false, 0), 3);
    assert_eq!(command, Command::new(CommandType::BRD, 0, 0x0130));
    assert_eq!(unit.wait(), Some(Ok(AlState::Init)));

    unit.start(TargetSlave::All(3), AlState::Init);
    exchange(&mut unit, &mut desc, 0, &status(1, false, 0), 1);
    assert_eq!(unit.wait(), Some(Err(EcError::UnexpectedWKC(1))));

    unit.start(TargetSlave::All(2), AlState::Operational);
    exchange(&mut unit, &mut desc, 0, &status(4, false, 0), 2);
    let (command, payload) = exchange(&mut unit, &mut desc, 0, &[0, 0], 2);
    assert_eq!(command, Command::new(CommandType::BWR, 0, 0x0500));
    assert_eq!(payload, vec![1, 0]);
    let (command, payload) = exchange(&mut unit, &mut desc, 0, &[0, 0], 2);
    assert_eq!(command, Command::new(CommandType::BWR, 0, 0x0120));
    assert_eq!(payload, vec![8, 0]);
}

#[test]
fn lost_reply_is_latched() {
    let mut desc = NetworkDescription::new();
    let mut unit = AlStateTransfer::new();
    unit.start(TargetSlave::Single(1), AlState::Init);
    assert!(unit.next_command(&mut desc, EtherCatSystemTime(0)).is_some());
    unit.recieve_and_process(None, &mut desc, EtherCatSystemTime(0));
    assert_eq!(unit.wait(), Some(Err(EcError::LostCommand)));
    unit.start(TargetSlave::Single(1), AlState::Init);
    assert_eq!(unit.wait(), None);
}

#[test]
fn reply_to_another_command_is_unexpected() {
    let mut desc = NetworkDescription::new();
    for wrong in [
        Command::new(CommandType::FPWR, 1, 0x0130),
        Command::new(CommandType::FPRD, 1, 0x0134),
    ] {
        let mut unit = AlStateTransfer::new();
        unit.start(TargetSlave::Single(1), AlState::Init);
        assert!(unit.next_command(&mut desc, EtherCatSystemTime(0)).is_some());
        let data = status(1, false, 0);
        let reply = ReceivedData { command: wrong, data: &data, wkc: 1 };
        unit.recieve_and_process(Some(reply), &mut desc, EtherCatSystemTime(0));
        assert_eq!(unit.wait(), Some(Err(EcError::UnexpectedCommand)));
    }
    // the address position is not compared
    let mut unit = AlStateTransfer::new();
    unit.start(TargetSlave::Single(1), AlState::Init);
    assert!(unit.next_command(&mut desc, EtherCatSystemTime(0)).is_some());
    let data = status(1, false, 0);
    let reply =
        ReceivedData { command: Command::new(CommandType::FPRD, 77, 0x0130), data: &data, wkc: 1 };
    unit.recieve_and_process(Some(reply), &mut desc, EtherCatSystemTime(0));
    assert_eq!(unit.wait(), Some(Ok(AlState::Init)));
}

#[test]
fn status_reply_that_is_too_short_is_unexpected() {
    let mut desc = NetworkDescription::new();
    let mut unit = AlStateTransfer::new();
    unit.start(TargetSlave::Single(1), AlState::Init);
    exchange(&mut unit, &mut desc, 0, &[1, 0], 1);
    assert_eq!(unit.wait(), Some(Err(EcError::UnexpectedCommand)));
}

#[test]
fn change_error_is_acknowledged_first() {
    let mut desc = NetworkDescription::new();
    let mut unit = AlStateTransfer::new();
    unit.start(TargetSlave::Single(5), AlState::Operational);
    exchange(&mut unit, &mut desc, 0, &status(4, true, 0x11), 1);
    let (command, payload) = exchange(&mut unit, &mut desc, 0, &[0, 0], 1);
    assert_eq!(command, Command::new(CommandType::FPWR, 5, 0x0120));
    assert_eq!(payload, vec![0x14, 0]);
    let (command, payload) = exchange(&mut unit, &mut desc, 0, &[0, 0], 1);
    assert_eq!(command, Command::new(CommandType::FPWR, 5, 0x0120));
    assert_eq!(payload, vec![0x04, 0]);
    let (command, _) = exchange(&mut unit, &mut desc, 0, &status(4, false, 0), 1);
    assert_eq!(command, Command::new(CommandType::FPRD, 5, 0x0130));
    let (command, _) = exchange(&mut unit, &mut desc, 0, &[0, 0], 1);
    assert_eq!(command, Command::new(CommandType::FPWR, 5, 0x0500));
}

#[test]
fn mixed_state_with_change_error_is_reset_to_init() {
    let mut desc = NetworkDescription::new();
    let mut unit = AlStateTransfer::new();
    unit.start(TargetSlave::All(2), AlState::PreOperational);
    exchange(&mut unit, &mut desc, 0, &status(3 | 4, true, 0), 2);
    let (_, payload) = exchange(&mut unit, &mut desc, 0, &[0, 0], 2);
    assert_eq!(payload, vec![0x11, 0]);
}

#[test]
fn mixed_state_without_change_error_goes_on_to_the_request() {
    let mut desc = NetworkDescription::new();
    let mut unit = AlStateTransfer::new();
    unit.start(TargetSlave::All(2), AlState::PreOperational);
    exchange(&mut unit, &mut desc, 0, &status(3 | 4, false, 0), 2);
    let (command, _) = exchange(&mut unit, &mut desc, 0, &[0, 0], 2);
    assert_eq!(command, Command::new(CommandType::BWR, 0, 0x0500));
    assert_eq!(unit.wait(), None);
}

fn poll_after_request(target: AlState, first: u8) -> (AlStateTransfer, NetworkDescription) {
    let mut desc = NetworkDescription::new();
    let mut unit = AlStateTransfer::new();
    unit.start(TargetSlave::Single(1), target);
    exchange(&mut unit, &mut desc, 0, &status(first, false, 0), 1);
    exchange(&mut unit, &mut desc, 0, &[0, 0], 1);
    exchange(&mut unit, &mut desc, 1000 * MS, &[0, 0], 1);
    (unit, desc)
}

#[test]
fn poll_reports_the_status_code_of_a_refusal() {
    let (mut unit, mut desc) = poll_after_request(AlState::SafeOperational, 2);
    exchange(&mut unit, &mut desc, 1001 * MS, &status(2, true, 0x001D), 1);
    assert_eq!(
        unit.wait(),
        Some(Err(EcError::UnitSpecific(Error::AlStatusCode((
            AlState::PreOperational,
            AlStatusCode(0x001D)
        )))))
    );
}

#[test]
fn poll_times_out_after_the_timeout_of_the_transition() {
    // Init -> PreOp: 3000 ms from the reply to the request, which came at 1000 ms.
    let (mut unit, mut desc) = poll_after_request(AlState::PreOperational, 1);
    exchange(&mut unit, &mut desc, 4000 * MS, &status(1, false, 0), 1);
    assert_eq!(unit.wait(), None);
    exchange(&mut unit, &mut desc, 4000 * MS + 1, &status(1, false, 0), 1);
    assert_eq!(unit.wait(), Some(Err(EcError::UnitSpecific(Error::TimeoutMs(3000)))));

    // Op -> SafeOp: 200 ms
    let (mut unit, mut desc) = poll_after_request(AlState::SafeOperational, 8);
    exchange(&mut unit, &mut desc, 1200 * MS, &status(8, false, 0), 1);
    assert_eq!(unit.wait(), None);
    exchange(&mut unit, &mut desc, 1201 * MS, &status(8, false, 0), 1);
    assert_eq!(unit.wait(), Some(Err(EcError::UnitSpecific(Error::TimeoutMs(200)))));

    // a clock that runs backwards never times out
    let (mut unit, mut desc) = poll_after_request(AlState::Init, 2);
    exchange(&mut unit, &mut desc, 5, &status(2, false, 0), 1);
    assert_eq!(unit.wait(), None);
}

#[test]
fn timeouts_follow_the_table() {
    let init = AlState::Init;
    let pre_op = AlState::PreOperational;
    let safe_op = AlState::SafeOperational;
    let op = AlState::Operational;
    assert_eq!(transition_timeout_ms(pre_op, safe_op), 10_000);
    assert_eq!(transition_timeout_ms(safe_op, op), 10_000);
    assert_eq!(transition_timeout_ms(init, op), 10_000);
    assert_eq!(transition_timeout_ms(init, pre_op), 3_000);
    assert_eq!(transition_timeout_ms(safe_op, pre_op), 3_000);
    assert_eq!(transition_timeout_ms(init, AlState::Bootstrap), 3_000);
    assert_eq!(transition_timeout_ms(op, init), 5_000);
    assert_eq!(transition_timeout_ms(op, safe_op), 200);
    assert_eq!(transition_timeout_ms(init, safe_op), 200);
    assert_eq!(transition_timeout_ms(init, AlState::InvalidOrMixed), 10_000);
    assert_eq!(max_timeout_ms(), 10_000);
    assert_eq!(buffer_size(), 6);
}

#[test]
fn unit_failure_becomes_a_latched_failure() {
    assert_eq!(EcError::from(Error::TimeoutMs(7)), EcError::UnitSpecific(Error::TimeoutMs(7)));
    let refused = Error::AlStatusCode((AlState::Init, AlStatusCode(0x11)));
    assert_eq!(EcError::from(refused), EcError::UnitSpecific(refused));
}

#[test]
fn timed_out_compares_nanoseconds() {
    let at = |ns: u64| EtherCatSystemTime(ns);
    assert!(!timed_out(at(0), at(200 * MS), 200));
    assert!(timed_out(at(0), at(200 * MS + 1), 200));
    assert!(!timed_out(at(10), at(10), 0));
    assert!(timed_out(at(10), at(11), 0));
    assert!(!timed_out(at(11), at(10), 0));
    assert!(timed_out(at(0), at(u64::MAX), u32::MAX));
    assert!(!timed_out(at(0), at(4_294_967_295 * MS), u32::MAX));
}

#[test]
fn next_command_is_idempotent() {
    let mut desc = NetworkDescription::new();
    let mut unit = AlStateTransfer::new();
    unit.start(TargetSlave::Single(0x1001), AlState::Operational);
    let replies: [&[u8]; 5] =
        [&status(2, true, 0), &[0, 0], &[0, 0], &status(2, false, 0), &[0, 0]];
    for (step, reply) in replies.iter().enumerate() {
        let first = {
            let (c, d) = unit.next_command(&mut desc, EtherCatSystemTime(1)).unwrap();
            (c, d.to_vec())
        };
        let second = {
            let (c, d) = unit.next_command(&mut desc, EtherCatSystemTime(2 + step as u64)).unwrap();
            (c, d.to_vec())
        };
        assert_eq!(first, second);
        let received = ReceivedData { command: first.0, data: reply, wkc: 1 };
        unit.recieve_and_process(Some(received), &mut desc, EtherCatSystemTime(3));
        assert_eq!(unit.wait(), None);
    }
}
