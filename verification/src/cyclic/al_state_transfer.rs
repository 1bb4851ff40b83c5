//! The unit that drives one slave, or all of them, to a requested AL state.

use crate::BACK_TO_INIT_TIMEOUT_DEFAULT_MS;
use crate::BACK_TO_SAFEOP_TIMEOUT_DEFAULT_MS;
use crate::cyclic::CyclicProcess;
use crate::cyclic::EtherCatSystemTime;
use crate::cyclic::ReceivedData;
use crate::cyclic::ReceivedView;
use crate::error::EcError;
use crate::interface::Command;
use crate::interface::TargetSlave;
use crate::network::NetworkDescription;
use crate::packet::le16;
use crate::packet::spec_le16;
use crate::PREOP_TIMEOUT_DEFAULT_MS;
use crate::register::AL_CONTROL_ADDRESS;
use crate::register::al_control_byte;
use crate::register::AL_CONTROL_SIZE;
use crate::register::AL_STATUS_ADDRESS;
use crate::register::AL_STATUS_SIZE;
use crate::register::AlStatusCode;
use crate::register::flag_bit4;
use crate::register::SII_ACCESS_ADDRESS;
use crate::register::SII_ACCESS_SIZE;
use crate::register::spec_al_control_byte;
use crate::register::spec_flag_bit4;
use crate::register::spec_state_nibble;
use crate::register::state_nibble;
use crate::SAFEOP_OP_TIMEOUT_DEFAULT_MS;
use crate::slave::AlState;
use crate::slave::Slave;
use vstd::prelude::*;

verus! {

/// Nanoseconds in a millisecond.
pub const NS_PER_MS: u64 = 1_000_000;

/// The longest of the transition timeouts.
pub open spec fn spec_max_timeout_ms() -> u32 {
    SAFEOP_OP_TIMEOUT_DEFAULT_MS
}

pub fn max_timeout_ms() -> (r: u32)
    ensures
        r == spec_max_timeout_ms(),
        r >= PREOP_TIMEOUT_DEFAULT_MS,
        r >= SAFEOP_OP_TIMEOUT_DEFAULT_MS,
        r >= BACK_TO_INIT_TIMEOUT_DEFAULT_MS,
        r >= BACK_TO_SAFEOP_TIMEOUT_DEFAULT_MS,
{
    let mut max: u32 = PREOP_TIMEOUT_DEFAULT_MS;
    if max < SAFEOP_OP_TIMEOUT_DEFAULT_MS {
        max = SAFEOP_OP_TIMEOUT_DEFAULT_MS;
    }
    if max < BACK_TO_INIT_TIMEOUT_DEFAULT_MS {
        max = BACK_TO_INIT_TIMEOUT_DEFAULT_MS;
    }
    if max < BACK_TO_SAFEOP_TIMEOUT_DEFAULT_MS {
        max = BACK_TO_SAFEOP_TIMEOUT_DEFAULT_MS;
    }
    max
}

/// Bytes that the largest register of a transfer takes.
pub fn buffer_size() -> (r: usize)
    ensures
        r == 6,
        r >= AL_STATUS_SIZE && r >= AL_CONTROL_SIZE && r >= SII_ACCESS_SIZE,
{
    let mut size: usize = 0;
    if size < AL_STATUS_SIZE {
        size = AL_STATUS_SIZE;
    }
    if size < AL_CONTROL_SIZE {
        size = AL_CONTROL_SIZE;
    }
    if size < SII_ACCESS_SIZE {
        size = SII_ACCESS_SIZE;
    }
    size
}

/// Why a transfer failed, beyond what is common to all units.
#[derive(Debug, Clone, Copy, PartialEq, Eq)]
pub enum Error {
    /// The slave did not reach the state within this many milliseconds.
    TimeoutMs(u32),
    /// The slave refused the change: the state it is in, and its reason.
    AlStatusCode((AlState, AlStatusCode)),
}

impl From<Error> for EcError<Error> {
    fn from(err: Error) -> (r: Self) {
        EcError::UnitSpecific(err)
    }
}

impl vstd::std_specs::convert::FromSpecImpl<Error> for EcError<Error> {
    open spec fn obeys_from_spec() -> bool {
        true
    }

    open spec fn from_spec(err: Error) -> Self {
        EcError::UnitSpecific(err)
    }
}

/// Where a transfer stands.
#[derive(Debug, Clone, Copy, PartialEq, Eq)]
pub enum State {
    Error(EcError<Error>),
    Idle,
    Read,
    ResetError(AlState),
    OffAck(AlState),
    ResetSiiOwnership,
    Request,
    Poll,
    Complete,
}

/// Timeout of the change from `current` to `target`, in milliseconds.
pub open spec fn spec_transition_timeout_ms(current: AlState, target: AlState) -> u32 {
    match (current, target) {
        (AlState::PreOperational, AlState::SafeOperational) => SAFEOP_OP_TIMEOUT_DEFAULT_MS,
        (_, AlState::Operational) => SAFEOP_OP_TIMEOUT_DEFAULT_MS,
        (_, AlState::PreOperational) => PREOP_TIMEOUT_DEFAULT_MS,
        (_, AlState::Bootstrap) => PREOP_TIMEOUT_DEFAULT_MS,
        (_, AlState::Init) => BACK_TO_INIT_TIMEOUT_DEFAULT_MS,
        (_, AlState::SafeOperational) => BACK_TO_SAFEOP_TIMEOUT_DEFAULT_MS,
        (_, AlState::InvalidOrMixed) => spec_max_timeout_ms(),
    }
}

pub fn transition_timeout_ms(current: AlState, target: AlState) -> (r: u32)
    ensures
        r == spec_transition_timeout_ms(current, target),
{
    match (current, target) {
        (AlState::PreOperational, AlState::SafeOperational) => SAFEOP_OP_TIMEOUT_DEFAULT_MS,
        (_, AlState::Operational) => SAFEOP_OP_TIMEOUT_DEFAULT_MS,
        (_, AlState::PreOperational) => PREOP_TIMEOUT_DEFAULT_MS,
        (_, AlState::Bootstrap) => PREOP_TIMEOUT_DEFAULT_MS,
        (_, AlState::Init) => BACK_TO_INIT_TIMEOUT_DEFAULT_MS,
        (_, AlState::SafeOperational) => BACK_TO_SAFEOP_TIMEOUT_DEFAULT_MS,
        (_, AlState::InvalidOrMixed) => max_timeout_ms(),
    }
}

/// The working counter that a reply must carry.
pub open spec fn spec_expected_wkc(target: TargetSlave) -> u16 {
    match target {
        TargetSlave::Single(_) => 1,
        TargetSlave::All(num_slaves) => num_slaves,
    }
}

/// Whether more than `timeout_ms` milliseconds lie between `start` and `now`.
pub open spec fn spec_timed_out(
    start: EtherCatSystemTime,
    now: EtherCatSystemTime,
    timeout_ms: u32,
) -> bool {
    start.0 < now.0 && timeout_ms * NS_PER_MS < now.0 - start.0
}

pub fn timed_out(start: EtherCatSystemTime, now: EtherCatSystemTime, timeout_ms: u32) -> (r: bool)
    ensures
        r == spec_timed_out(start, now, timeout_ms),
{
    start.0 < now.0 && (timeout_ms as u64) * NS_PER_MS < now.0 - start.0
}

/// Drives one slave, or all of them, to a requested AL state.
#[derive(Debug)]
pub struct AlStateTransfer {
    timer_start: EtherCatSystemTime,
    state: State,
    slave_address: TargetSlave,
    target_al: AlState,
    command: Command,
    buffer: [u8; 6],
    current_al_state: AlState,
    timeout_ms: u32,
}

/// What a transfer holds, but for its scratch buffer.
pub struct AlStateTransferView {
    /// System time of the reply to the state request.
    pub timer_start: EtherCatSystemTime,
    pub state: State,
    pub slave_address: TargetSlave,
    /// The state asked for.
    pub target_al: AlState,
    /// The command emitted last.
    pub command: Command,
    /// The state read last.
    pub current_al_state: AlState,
    pub timeout_ms: u32,
}

impl AlStateTransferView {
    /// What `wait` reports: the state reached, the failure, or nothing yet.
    pub open spec fn spec_wait(self) -> Option<Result<AlState, EcError<Error>>> {
        match self.state {
            State::Complete => Some(Ok(self.current_al_state)),
            State::Error(err) => Some(Err(err)),
            _ => None,
        }
    }

    /// The command that is sent in the current state with its payload.
    pub open spec fn spec_emission(self) -> Option<(Command, Seq<u8>)> {
        match self.state {
            State::Idle => None,
            State::Error(_) => None,
            State::Complete => None,
            State::Read => Some(
                (
                    Command::spec_target_read(self.slave_address, AL_STATUS_ADDRESS),
                    seq![0u8, 0u8, 0u8, 0u8, 0u8, 0u8],
                ),
            ),
            State::Poll => Some(
                (
                    Command::spec_target_read(self.slave_address, AL_STATUS_ADDRESS),
                    seq![0u8, 0u8, 0u8, 0u8, 0u8, 0u8],
                ),
            ),
            State::ResetError(al) => Some(
                (
                    Command::spec_target_write(self.slave_address, AL_CONTROL_ADDRESS),
                    seq![spec_al_control_byte(al.spec_code(), true), 0u8],
                ),
            ),
            State::OffAck(al) => Some(
                (
                    Command::spec_target_write(self.slave_address, AL_CONTROL_ADDRESS),
                    seq![spec_al_control_byte(al.spec_code(), false), 0u8],
                ),
            ),
            State::ResetSiiOwnership => Some(
                (
                    Command::spec_target_write(self.slave_address, SII_ACCESS_ADDRESS),
                    seq![1u8, 0u8],
                ),
            ),
            State::Request => Some(
                (
                    Command::spec_target_write(self.slave_address, AL_CONTROL_ADDRESS),
                    seq![spec_al_control_byte(self.target_al.spec_code(), false), 0u8],
                ),
            ),
        }
    }

    /// The transfer after it has emitted: it remembers the command, and on a
    /// state request the timeout of the transition.
    pub open spec fn spec_after_emission(self) -> AlStateTransferView {
        match self.spec_emission() {
            None => self,
            Some((command, _)) => AlStateTransferView {
                command,
                timeout_ms: if self.state == State::Request {
                    spec_transition_timeout_ms(self.current_al_state, self.target_al)
                } else {
                    self.timeout_ms
                },
                ..self
            },
        }
    }

    /// The state after a check of the reply's command and working counter: a
    /// reply to another command, or one too short for the register read, is
    /// an unexpected command; a wrong working counter is reported before
    /// that.
    pub open spec fn spec_checked_state(self, recv: ReceivedView) -> State {
        if recv.wkc != spec_expected_wkc(self.slave_address) {
            State::Error(EcError::UnexpectedWKC(recv.wkc))
        } else if !(recv.command.c_type == self.command.c_type && recv.command.ado
            == self.command.ado) {
            State::Error(EcError::UnexpectedCommand)
        } else if (self.state == State::Read || self.state == State::Poll) && recv.data.len()
            < AL_STATUS_SIZE {
            State::Error(EcError::UnexpectedCommand)
        } else {
            self.state
        }
    }

    /// The transfer after a reply, or after the loss of one.
    pub open spec fn spec_after_reply(
        self,
        recv_data: Option<ReceivedView>,
        sys_time: EtherCatSystemTime,
    ) -> AlStateTransferView {
        match recv_data {
            None => AlStateTransferView { state: State::Error(EcError::LostCommand), ..self },
            Some(recv) => {
                let al_state = AlState::spec_from_code(spec_state_nibble(recv.data[0]));
                let change_err = spec_flag_bit4(recv.data[0]);
                match self.spec_checked_state(recv) {
                    State::Idle => self,
                    State::Complete => self,
                    State::Error(e) => AlStateTransferView { state: State::Error(e), ..self },
                    State::Read => AlStateTransferView {
                        current_al_state: al_state,
                        state: if al_state == self.target_al {
                            State::Complete
                        } else if change_err {
                            State::ResetError(
                                if al_state == AlState::InvalidOrMixed {
                                    AlState::Init
                                } else {
                                    al_state
                                },
                            )
                        } else {
                            State::ResetSiiOwnership
                        },
                        ..self
                    },
                    State::ResetError(al) => AlStateTransferView {
                        state: State::OffAck(al),
                        ..self
                    },
                    State::OffAck(_) => AlStateTransferView { state: State::Read, ..self },
                    State::ResetSiiOwnership => AlStateTransferView {
                        state: State::Request,
                        ..self
                    },
                    State::Request => AlStateTransferView {
                        timer_start: sys_time,
                        state: State::Poll,
                        ..self
                    },
                    State::Poll => AlStateTransferView {
                        current_al_state: al_state,
                        state: if al_state == self.target_al {
                            State::Complete
                        } else if change_err {
                            State::Error(
                                EcError::UnitSpecific(
                                    Error::AlStatusCode(
                                        (
                                            al_state,
                                            AlStatusCode(spec_le16(recv.data[4], recv.data[5])),
                                        ),
                                    ),
                                ),
                            )
                        } else if spec_timed_out(self.timer_start, sys_time, self.timeout_ms) {
                            State::Error(EcError::UnitSpecific(Error::TimeoutMs(self.timeout_ms)))
                        } else {
                            State::Poll
                        },
                        ..self
                    },
                }
            },
        }
    }
}

impl AlStateTransfer {
    pub fn new() -> (r: Self)
        ensures
            r@ == (AlStateTransferView {
                timer_start: EtherCatSystemTime(0),
                state: State::Idle,
                slave_address: TargetSlave::All(0),
                target_al: AlState::Init,
                command: Command { c_type: crate::packet::CommandType::NOP, adp: 0, ado: 0 },
                current_al_state: AlState::Init,
                timeout_ms: 0,
            }),
    {
        Self {
            timer_start: EtherCatSystemTime(0),
            state: State::Idle,
            slave_address: TargetSlave::default(),
            target_al: AlState::Init,
            command: Command::default(),
            buffer: [0, 0, 0, 0, 0, 0],
            current_al_state: AlState::Init,
            timeout_ms: 0,
        }
    }

    /// Begins the transfer of `slave_address` to `target_al_state`, whatever
    /// the unit was doing.
    pub fn start(&mut self, slave_address: TargetSlave, target_al_state: AlState)
        ensures
            final(self)@ == (AlStateTransferView {
                slave_address,
                target_al: target_al_state,
                state: State::Read,
                command: Command { c_type: crate::packet::CommandType::NOP, adp: 0, ado: 0 },
                ..old(self)@
            }),
    {
        self.slave_address = slave_address;
        self.target_al = target_al_state;
        self.state = State::Read;
        self.buffer = [0, 0, 0, 0, 0, 0];
        self.command = Command::default();
    }

    /// The state that the slave reached, the failure of the transfer, or
    /// `None` while it is under way.
    pub fn wait(&mut self) -> (r: Option<Result<AlState, EcError<Error>>>)
        ensures
            r == old(self)@.spec_wait(),
            final(self)@ == old(self)@,
    {
        match &self.state {
            State::Complete => Some(Ok(self.current_al_state)),
            State::Error(err) => Some(Err(*err)),
            _ => None,
        }
    }
}

impl CyclicProcess for AlStateTransfer {
    type V = AlStateTransferView;

    closed spec fn view(&self) -> AlStateTransferView {
        AlStateTransferView {
            timer_start: self.timer_start,
            state: self.state,
            slave_address: self.slave_address,
            target_al: self.target_al,
            command: self.command,
            current_al_state: self.current_al_state,
            timeout_ms: self.timeout_ms,
        }
    }

    open spec fn wf(&self) -> bool {
        true
    }

    open spec fn spec_next_command(
        unit: AlStateTransferView,
        slaves: Seq<Slave>,
        sys_time: EtherCatSystemTime,
    ) -> (AlStateTransferView, Seq<Slave>, Option<(Command, Seq<u8>)>) {
        (unit.spec_after_emission(), slaves, unit.spec_emission())
    }

    open spec fn spec_recieve_and_process(
        unit: AlStateTransferView,
        recv_data: Option<ReceivedView>,
        slaves: Seq<Slave>,
        sys_time: EtherCatSystemTime,
    ) -> (AlStateTransferView, Seq<Slave>) {
        (unit.spec_after_reply(recv_data, sys_time), slaves)
    }

    fn next_command(
        &mut self,
        desc: &mut NetworkDescription,
        sys_time: EtherCatSystemTime,
    ) -> (r: Option<(Command, &[u8])>) {
        match self.state {
            State::Idle => None,
            State::Error(_) => None,
            State::Complete => None,
            State::Read => {
                self.command = Command::target_read(self.slave_address, AL_STATUS_ADDRESS);
                self.buffer = [0, 0, 0, 0, 0, 0];
                let data = vstd::slice::slice_subrange(self.buffer.as_slice(), 0, AL_STATUS_SIZE);
                assert(data@ =~= seq![0u8, 0u8, 0u8, 0u8, 0u8, 0u8]);
                Some((self.command, data))
            },
            State::Poll => {
                self.command = Command::target_read(self.slave_address, AL_STATUS_ADDRESS);
                self.buffer = [0, 0, 0, 0, 0, 0];
                let data = vstd::slice::slice_subrange(self.buffer.as_slice(), 0, AL_STATUS_SIZE);
                assert(data@ =~= seq![0u8, 0u8, 0u8, 0u8, 0u8, 0u8]);
                Some((self.command, data))
            },
            State::ResetError(current_al_state) => {
                self.command = Command::target_write(self.slave_address, AL_CONTROL_ADDRESS);
                self.buffer = [al_control_byte(current_al_state.code(), true), 0, 0, 0, 0, 0];
                let data = vstd::slice::slice_subrange(self.buffer.as_slice(), 0, AL_CONTROL_SIZE);
                assert(data@ =~= seq![
                    spec_al_control_byte(current_al_state.spec_code(), true),
                    0u8,
                ]);
                Some((self.command, data))
            },
            State::OffAck(current_al_state) => {
                self.command = Command::target_write(self.slave_address, AL_CONTROL_ADDRESS);
                self.buffer = [al_control_byte(current_al_state.code(), false), 0, 0, 0, 0, 0];
                let data = vstd::slice::slice_subrange(self.buffer.as_slice(), 0, AL_CONTROL_SIZE);
                assert(data@ =~= seq![
                    spec_al_control_byte(current_al_state.spec_code(), false),
                    0u8,
                ]);
                Some((self.command, data))
            },
            State::ResetSiiOwnership => {
                self.buffer = [1, 0, 0, 0, 0, 0];
                self.command = Command::target_write(self.slave_address, SII_ACCESS_ADDRESS);
                let data = vstd::slice::slice_subrange(self.buffer.as_slice(), 0, SII_ACCESS_SIZE);
                assert(data@ =~= seq![1u8, 0u8]);
                Some((self.command, data))
            },
            State::Request => {
                let target_al = self.target_al;
                self.buffer = [al_control_byte(target_al.code(), false), 0, 0, 0, 0, 0];
                self.command = Command::target_write(self.slave_address, AL_CONTROL_ADDRESS);
                self.timeout_ms = transition_timeout_ms(self.current_al_state, target_al);
                let data = vstd::slice::slice_subrange(self.buffer.as_slice(), 0, AL_CONTROL_SIZE);
                assert(data@ =~= seq![spec_al_control_byte(target_al.spec_code(), false), 0u8]);
                Some((self.command, data))
            },
        }
    }

    fn recieve_and_process(
        &mut self,
        recv_data: Option<ReceivedData>,
        desc: &mut NetworkDescription,
        sys_time: EtherCatSystemTime,
    ) {
        let data = if let Some(recv_data) = recv_data {
            let ReceivedData { command, data, wkc } = recv_data;
            if (matches!(self.state, State::Read) || matches!(self.state, State::Poll))
                && data.len() < AL_STATUS_SIZE {
                self.state = State::Error(EcError::UnexpectedCommand);
            }
            if !(command.c_type == self.command.c_type && command.ado == self.command.ado) {
                self.state = State::Error(EcError::UnexpectedCommand);
            }
            match self.slave_address {
                TargetSlave::Single(_) => {
                    if wkc != 1 {
                        self.state = State::Error(EcError::UnexpectedWKC(wkc));
                    }
                },
                TargetSlave::All(num_slaves) => {
                    if wkc != num_slaves {
                        self.state = State::Error(EcError::UnexpectedWKC(wkc));
                    }
                },
            }
            data
        } else {
            self.state = State::Error(EcError::LostCommand);
            return ;
        };

        match self.state {
            State::Idle => {},
            State::Error(_) => {},
            State::Complete => {},
            State::Read => {
                let al_state = AlState::from(state_nibble(data[0]));
                self.current_al_state = al_state;
                if al_state == self.target_al {
                    self.state = State::Complete;
                } else if flag_bit4(data[0]) {
                    let non_mixed_al_state = match al_state {
                        AlState::InvalidOrMixed => AlState::Init,
                        _ => al_state,
                    };
                    self.state = State::ResetError(non_mixed_al_state);
                } else {
                    self.state = State::ResetSiiOwnership;
                }
            },
            State::ResetError(al_state) => self.state = State::OffAck(al_state),
            State::OffAck(_) => self.state = State::Read,
            State::ResetSiiOwnership => self.state = State::Request,
            State::Request => {
                self.timer_start = sys_time;
                self.state = State::Poll;
            },
            State::Poll => {
                let al_state = AlState::from(state_nibble(data[0]));
                self.current_al_state = al_state;
                if self.target_al == al_state {
                    self.state = State::Complete;
                } else if flag_bit4(data[0]) {
                    let al_status_code = AlStatusCode(le16(data[4], data[5]));
                    self.state = State::Error(
                        EcError::UnitSpecific(Error::AlStatusCode((al_state, al_status_code))),
                    );
                } else if timed_out(self.timer_start, sys_time, self.timeout_ms) {
                    self.state = State::Error(
                        EcError::UnitSpecific(Error::TimeoutMs(self.timeout_ms)),
                    );
                }
            },
        }
    }
}

/// Asking a transfer again for its command, with no reply in between, gives
/// the same command and payload, at any time, and changes nothing more.
pub proof fn lemma_next_command_idempotent(
    unit: AlStateTransferView,
    slaves: Seq<Slave>,
    first_time: EtherCatSystemTime,
    second_time: EtherCatSystemTime,
)
    ensures
        ({
            let first = AlStateTransfer::spec_next_command(unit, slaves, first_time);
            let second = AlStateTransfer::spec_next_command(first.0, first.1, second_time);
            second == first
        }),
{
}

/// A transfer that has failed or finished stays as it is and emits nothing,
/// until it is started again.
pub proof fn lemma_terminal_states_emit_nothing(unit: AlStateTransferView)
    requires
        unit.spec_wait() is Some,
    ensures
        unit.spec_emission() is None,
        unit.spec_after_emission() == unit,
{
}

} // verus!
