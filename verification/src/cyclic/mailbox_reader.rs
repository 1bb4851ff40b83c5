//! The unit that reads a slave's send mailbox.

use crate::cyclic::al_state_transfer::spec_timed_out;
use crate::cyclic::al_state_transfer::timed_out;
use crate::cyclic::CyclicProcess;
use crate::cyclic::EtherCatSystemTime;
use crate::cyclic::ReceivedData;
use crate::cyclic::ReceivedView;
use crate::error::EcError;
use crate::ethercat_frame::copy_bytes;
use crate::ethercat_frame::write_payload;
use crate::interface::Command;
use crate::interface::SlaveAddress;
use crate::MAILBOX_RESPONSE_RETRY_TIMEOUT_DEFAULT_MS;
use crate::network::NetworkDescription;
use crate::network::spec_find_slave;
use crate::packet::CommandType;
use crate::packet::spec_payload;
use crate::register::mailbox_full;
use crate::register::SM1_STATUS_ADDRESS;
use crate::register::sm_enabled;
use crate::register::SM_STATUS_SIZE;
use crate::register::spec_mailbox_full;
use crate::register::spec_sm_enabled;
use crate::slave::Slave;
use crate::slave::SyncManager;
use vstd::prelude::*;

verus! {

/// Why a mailbox transfer failed, beyond what is common to all units.
#[derive(Debug, Clone, Copy, PartialEq, Eq, Structural)]
pub enum Error {
    /// The mailbox did not change within this many milliseconds.
    TimeoutMs(u32),
    /// The network holds no such slave.
    NoSlave,
    /// The slave has no mailbox sync manager for this direction.
    MailboxNotAvailable,
    /// The sync manager of the mailbox is switched off.
    MailboxDisable,
    /// The mailbox holds nothing to read.
    MailboxEmpty,
    /// The mailbox still holds what was written before.
    MailboxFull,
    /// The buffer is smaller than the mailbox, or than what was received.
    BufferSmall,
}

/// Where a mailbox read stands.
#[derive(Debug, Clone, Copy, PartialEq, Eq)]
pub enum State {
    Error(EcError<Error>),
    Idle,
    Complete,
    CheckMailboxFull,
    Read,
}

/// Reads the mailbox that a slave fills, sync manager 1, once it is full.
#[derive(Debug)]
pub struct MailboxReader<'a> {
    timer_start: EtherCatSystemTime,
    armed: bool,
    command: Command,
    slave_address: SlaveAddress,
    buffer: &'a mut [u8],
    status: [u8; 2],
    wait_full: bool,
    state: State,
    sm_start: u16,
    sm_size: u16,
}

/// What a mailbox reader holds, but for the scratch bytes of its status
/// read.
#[verifier::ext_equal]
pub struct MailboxReaderView {
    /// System time of the first status reply that found the mailbox empty.
    pub timer_start: EtherCatSystemTime,
    /// Whether `timer_start` is set.
    pub armed: bool,
    /// The command emitted last.
    pub command: Command,
    pub slave_address: SlaveAddress,
    /// The receive buffer.
    pub buffer: Seq<u8>,
    /// Whether an empty mailbox is waited for rather than reported.
    pub wait_full: bool,
    pub state: State,
    /// Start address of the mailbox in the slave's memory.
    pub sm_start: u16,
    /// Size of the mailbox in bytes.
    pub sm_size: u16,
}

impl MailboxReaderView {
    /// What `wait` reports.
    pub open spec fn spec_wait(self) -> Option<Result<(), EcError<Error>>> {
        match self.state {
            State::Complete => Some(Ok(())),
            State::Error(err) => Some(Err(err)),
            _ => None,
        }
    }

    /// The reader after `start`.
    pub open spec fn spec_start(self, slave_address: SlaveAddress, wait_full: bool) -> MailboxReaderView {
        MailboxReaderView {
            slave_address,
            wait_full,
            armed: false,
            state: State::CheckMailboxFull,
            command: Command { c_type: CommandType::NOP, adp: 0, ado: 0 },
            ..self
        }
    }

    /// The reader with the failure `err` latched.
    pub open spec fn spec_failed(self, err: Error) -> MailboxReaderView {
        MailboxReaderView { state: State::Error(EcError::UnitSpecific(err)), ..self }
    }

    /// The reader after `next_command`, and what the call emits.
    ///
    /// Before the status read the slave is looked up: a missing slave, a
    /// slave without a mailbox in sync manager 1, and a mailbox larger than
    /// the buffer are failures. The status read asks for the two status
    /// bytes of sync manager 1. The mailbox read asks for the whole mailbox,
    /// with a payload of zeros that stands at the front of the buffer.
    pub open spec fn spec_next(self, slaves: Seq<Slave>) -> (
        MailboxReaderView,
        Option<(Command, Seq<u8>)>,
    ) {
        match self.state {
            State::Idle => (self, None),
            State::Error(_) => (self, None),
            State::Complete => (self, None),
            State::CheckMailboxFull => match spec_find_slave(slaves, self.slave_address) {
                None => (self.spec_failed(Error::NoSlave), None),
                Some(i) => match slaves[i].info.sm1 {
                    Some(SyncManager::MailboxTx(sm)) => if sm.size > self.buffer.len() {
                        (self.spec_failed(Error::BufferSmall), None)
                    } else {
                        let command = Command::spec_new_read(
                            self.slave_address,
                            SM1_STATUS_ADDRESS,
                        );
                        (
                            MailboxReaderView {
                                command,
                                sm_start: sm.start_address,
                                sm_size: sm.size,
                                ..self
                            },
                            Some((command, seq![0u8, 0u8])),
                        )
                    },
                    _ => (self.spec_failed(Error::MailboxNotAvailable), None),
                },
            },
            State::Read => {
                let command = Command::spec_new_read(self.slave_address, self.sm_start);
                let zeros = spec_payload(Seq::empty(), self.sm_size as nat);
                (
                    MailboxReaderView {
                        command,
                        buffer: zeros + self.buffer.skip(self.sm_size as int),
                        ..self
                    },
                    Some((command, zeros)),
                )
            },
        }
    }

    /// The state after a check of the reply's command and working counter.
    pub open spec fn spec_checked_state(self, recv: ReceivedView) -> State {
        if recv.wkc != 1 {
            State::Error(EcError::UnexpectedWKC(recv.wkc))
        } else if !(recv.command.c_type == self.command.c_type && recv.command.ado
            == self.command.ado) {
            State::Error(EcError::UnexpectedCommand)
        } else if self.state == State::CheckMailboxFull && recv.data.len() < SM_STATUS_SIZE {
            State::Error(EcError::UnexpectedCommand)
        } else {
            self.state
        }
    }

    /// The reader after a reply, or after the loss of one.
    ///
    /// A status reply with the mailbox full leads to the read. With the
    /// mailbox empty the reader fails with `MailboxEmpty`, or, where it
    /// waits, asks again until the response timeout has passed since the
    /// first such reply. The reply to the read is copied to the front of
    /// the buffer and ends the transfer.
    pub open spec fn spec_after_reply(
        self,
        recv_data: Option<ReceivedView>,
        sys_time: EtherCatSystemTime,
    ) -> MailboxReaderView {
        match recv_data {
            None => MailboxReaderView { state: State::Error(EcError::LostCommand), ..self },
            Some(recv) => match self.spec_checked_state(recv) {
                State::Idle => self,
                State::Complete => self,
                State::Error(e) => MailboxReaderView { state: State::Error(e), ..self },
                State::CheckMailboxFull => if !spec_sm_enabled(recv.data[1]) {
                    self.spec_failed(Error::MailboxDisable)
                } else if spec_mailbox_full(recv.data[0]) {
                    MailboxReaderView { state: State::Read, ..self }
                } else if !self.wait_full {
                    self.spec_failed(Error::MailboxEmpty)
                } else if !self.armed {
                    MailboxReaderView { armed: true, timer_start: sys_time, ..self }
                } else if spec_timed_out(
                    self.timer_start,
                    sys_time,
                    MAILBOX_RESPONSE_RETRY_TIMEOUT_DEFAULT_MS,
                ) {
                    self.spec_failed(Error::TimeoutMs(MAILBOX_RESPONSE_RETRY_TIMEOUT_DEFAULT_MS))
                } else {
                    self
                },
                State::Read => if recv.data.len() > self.buffer.len() {
                    self.spec_failed(Error::BufferSmall)
                } else {
                    MailboxReaderView {
                        state: State::Complete,
                        buffer: recv.data + self.buffer.skip(recv.data.len() as int),
                        ..self
                    }
                },
            },
        }
    }
}

impl<'a> MailboxReader<'a> {
    /// A reader that receives into `buffer`.
    pub fn new(buffer: &'a mut [u8]) -> (r: Self)
        ensures
            r.wf(),
            r@ == (MailboxReaderView {
                timer_start: EtherCatSystemTime(0),
                armed: false,
                command: Command { c_type: CommandType::NOP, adp: 0, ado: 0 },
                slave_address: SlaveAddress::SlaveNumber(0),
                buffer: old(buffer)@,
                wait_full: false,
                state: State::Idle,
                sm_start: 0,
                sm_size: 0,
            }),
    {
        Self {
            timer_start: EtherCatSystemTime(0),
            armed: false,
            command: Command::default(),
            slave_address: SlaveAddress::default(),
            buffer,
            status: [0, 0],
            wait_full: false,
            state: State::Idle,
            sm_start: 0,
            sm_size: 0,
        }
    }

    /// Begins a read of the mailbox of `slave_address`. With `wait_full` the
    /// reader waits for the mailbox to fill; without, an empty mailbox is
    /// the failure `MailboxEmpty`.
    pub fn start(&mut self, slave_address: SlaveAddress, wait_full: bool)
        requires
            old(self).wf(),
        ensures
            final(self).wf(),
            final(self)@ == old(self)@.spec_start(slave_address, wait_full),
    {
        self.slave_address = slave_address;
        self.wait_full = wait_full;
        self.armed = false;
        self.state = State::CheckMailboxFull;
        self.command = Command::default();
    }

    /// `Some(Ok(()))` once the mailbox was read, the failure of the read, or
    /// `None` while it is under way.
    pub fn wait(&self) -> (r: Option<Result<(), EcError<Error>>>)
        ensures
            r == self@.spec_wait(),
    {
        match &self.state {
            State::Complete => Some(Ok(())),
            State::Error(err) => Some(Err(*err)),
            _ => None,
        }
    }

    /// The receive buffer.
    pub fn buffer(&self) -> (r: &[u8])
        ensures
            r@ == self@.buffer,
    {
        self.buffer
    }
}

impl<'a> CyclicProcess for MailboxReader<'a> {
    type V = MailboxReaderView;

    closed spec fn view(&self) -> MailboxReaderView {
        MailboxReaderView {
            timer_start: self.timer_start,
            armed: self.armed,
            command: self.command,
            slave_address: self.slave_address,
            buffer: self.buffer@,
            wait_full: self.wait_full,
            state: self.state,
            sm_start: self.sm_start,
            sm_size: self.sm_size,
        }
    }

    open spec fn wf(&self) -> bool {
        self@.sm_size <= self@.buffer.len()
    }

    open spec fn spec_next_command(
        unit: MailboxReaderView,
        slaves: Seq<Slave>,
        sys_time: EtherCatSystemTime,
    ) -> (MailboxReaderView, Seq<Slave>, Option<(Command, Seq<u8>)>) {
        (unit.spec_next(slaves).0, slaves, unit.spec_next(slaves).1)
    }

    open spec fn spec_recieve_and_process(
        unit: MailboxReaderView,
        recv_data: Option<ReceivedView>,
        slaves: Seq<Slave>,
        sys_time: EtherCatSystemTime,
    ) -> (MailboxReaderView, Seq<Slave>) {
        (unit.spec_after_reply(recv_data, sys_time), slaves)
    }

    fn next_command(
        &mut self,
        desc: &mut NetworkDescription,
        sys_time: EtherCatSystemTime,
    ) -> (r: Option<(Command, &[u8])>) {
        match self.state {
            State::Idle => None,
            State::Error(_) => None,
            State::Complete => None,
            State::CheckMailboxFull => {
                match desc.slave(self.slave_address) {
                    None => {
                        self.state = State::Error(EcError::UnitSpecific(Error::NoSlave));
                        None
                    },
                    Some(slave) => {
                        match slave.info.sm1 {
                            Some(SyncManager::MailboxTx(sm)) => {
                                if sm.size as usize > self.buffer.len() {
                                    self.state = State::Error(
                                        EcError::UnitSpecific(Error::BufferSmall),
                                    );
                                    None
                                } else {
                                    self.sm_start = sm.start_address;
                                    self.sm_size = sm.size;
                                    self.command = Command::new_read(
                                        self.slave_address,
                                        SM1_STATUS_ADDRESS,
                                    );
                                    self.status = [0, 0];
                                    let data = self.status.as_slice();
                                    assert(data@ =~= seq![0u8, 0u8]);
                                    Some((self.command, data))
                                }
                            },
                            _ => {
                                self.state = State::Error(
                                    EcError::UnitSpecific(Error::MailboxNotAvailable),
                                );
                                None
                            },
                        }
                    },
                }
            },
            State::Read => {
                self.command = Command::new_read(self.slave_address, self.sm_start);
                let size = self.sm_size as usize;
                let empty: [u8; 0] = [];
                write_payload(self.buffer, 0, size, empty.as_slice());
                proof {
                    assert(spec_payload(empty@, size as nat) =~= spec_payload(
                        Seq::empty(),
                        size as nat,
                    ));
                    assert(self.buffer@ =~= spec_payload(Seq::empty(), size as nat) + old(
                        self,
                    )@.buffer.skip(size as int));
                }
                let data = vstd::slice::slice_subrange(&*self.buffer, 0, size);
                assert(data@ =~= spec_payload(Seq::empty(), size as nat));
                Some((self.command, data))
            },
        }
    }

    fn recieve_and_process(
        &mut self,
        recv_data: Option<ReceivedData>,
        desc: &mut NetworkDescription,
        sys_time: EtherCatSystemTime,
    ) {
        let data = if let Some(recv_data) = recv_data {
            let ReceivedData { command, data, wkc } = recv_data;
            if matches!(self.state, State::CheckMailboxFull) && data.len() < SM_STATUS_SIZE {
                self.state = State::Error(EcError::UnexpectedCommand);
            }
            if !(command.c_type == self.command.c_type && command.ado == self.command.ado) {
                self.state = State::Error(EcError::UnexpectedCommand);
            }
            if wkc != 1 {
                self.state = State::Error(EcError::UnexpectedWKC(wkc));
            }
            data
        } else {
            self.state = State::Error(EcError::LostCommand);
            return ;
        };
        match self.state {
            State::Idle => {},
            State::Error(_) => {},
            State::Complete => {},
            State::CheckMailboxFull => {
                if !sm_enabled(data[1]) {
                    self.state = State::Error(EcError::UnitSpecific(Error::MailboxDisable));
                } else if mailbox_full(data[0]) {
                    self.state = State::Read;
                } else if !self.wait_full {
                    self.state = State::Error(EcError::UnitSpecific(Error::MailboxEmpty));
                } else if !self.armed {
                    self.armed = true;
                    self.timer_start = sys_time;
                } else if timed_out(
                    self.timer_start,
                    sys_time,
                    MAILBOX_RESPONSE_RETRY_TIMEOUT_DEFAULT_MS,
                ) {
                    self.state = State::Error(
                        EcError::UnitSpecific(
                            Error::TimeoutMs(MAILBOX_RESPONSE_RETRY_TIMEOUT_DEFAULT_MS),
                        ),
                    );
                }
            },
            State::Read => {
                if data.len() > self.buffer.len() {
                    self.state = State::Error(EcError::UnitSpecific(Error::BufferSmall));
                } else {
                    copy_bytes(self.buffer, 0, data, 0, data.len());
                    proof {
                        assert(data@.subrange(0, data@.len() as int) =~= data@);
                        assert(self.buffer@ =~= data@ + old(self)@.buffer.skip(
                            data@.len() as int,
                        ));
                    }
                    self.state = State::Complete;
                }
            },
        }
    }
}

/// Asking a reader again for its command, with no reply in between, gives
/// the same command and payload and changes nothing more.
pub proof fn lemma_next_command_idempotent(
    unit: MailboxReaderView,
    slaves: Seq<Slave>,
    first_time: EtherCatSystemTime,
    second_time: EtherCatSystemTime,
)
    requires
        unit.sm_size <= unit.buffer.len(),
    ensures
        ({
            let first = MailboxReader::spec_next_command(unit, slaves, first_time);
            let second = MailboxReader::spec_next_command(first.0, first.1, second_time);
            second == first
        }),
{
    let first = unit.spec_next(slaves);
    let second = first.0.spec_next(slaves);
    if unit.state == State::Read {
        let zeros = spec_payload(Seq::empty(), unit.sm_size as nat);
        assert(first.0.buffer.skip(unit.sm_size as int) =~= unit.buffer.skip(unit.sm_size as int));
        assert(second.0.buffer =~= first.0.buffer);
    }
}

} // verus!
