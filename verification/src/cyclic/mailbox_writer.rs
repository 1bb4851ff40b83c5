//! The unit that writes a slave's receive mailbox.

use crate::cyclic::al_state_transfer::spec_timed_out;
use crate::cyclic::al_state_transfer::timed_out;
use crate::cyclic::CyclicProcess;
use crate::cyclic::EtherCatSystemTime;
use crate::cyclic::mailbox_reader::Error;
use crate::cyclic::ReceivedData;
use crate::cyclic::ReceivedView;
use crate::error::EcError;
use crate::ethercat_frame::copy_bytes;
use crate::interface::Command;
use crate::interface::SlaveAddress;
use crate::MAILBOX_REQUEST_RETRY_TIMEOUT_DEFAULT_MS;
use crate::network::NetworkDescription;
use crate::network::spec_find_slave;
use crate::packet::CommandType;
use crate::packet::MailboxHeader;
use crate::register::mailbox_full;
use crate::register::SM0_STATUS_ADDRESS;
use crate::register::sm_enabled;
use crate::register::SM_STATUS_SIZE;
use crate::register::spec_mailbox_full;
use crate::register::spec_sm_enabled;
use crate::slave::Slave;
use crate::slave::SyncManager;
use vstd::prelude::*;

verus! {

/// Where a mailbox write stands.
#[derive(Debug, Clone, Copy, PartialEq, Eq)]
pub enum State {
    Error(EcError<Error>),
    Idle,
    Complete,
    CheckMailboxEmpty,
    Write,
}

/// Writes the mailbox that a slave reads, sync manager 0, once it is empty.
#[derive(Debug)]
pub struct MailboxWriter<'a> {
    timer_start: EtherCatSystemTime,
    armed: bool,
    command: Command,
    slave_address: SlaveAddress,
    buffer: &'a mut [u8],
    status: [u8; 2],
    wait_empty: bool,
    state: State,
    sm_start: u16,
    sm_size: u16,
}

/// What a mailbox writer holds, but for the scratch bytes of its status
/// read.
#[verifier::ext_equal]
pub struct MailboxWriterView {
    /// System time of the first status reply that found the mailbox full.
    pub timer_start: EtherCatSystemTime,
    /// Whether `timer_start` is set.
    pub armed: bool,
    /// The command emitted last.
    pub command: Command,
    pub slave_address: SlaveAddress,
    /// The send buffer: the mailbox header, then the message.
    pub buffer: Seq<u8>,
    /// Whether a full mailbox is waited for rather than reported.
    pub wait_empty: bool,
    pub state: State,
    /// Start address of the mailbox in the slave's memory.
    pub sm_start: u16,
    /// Size of the mailbox in bytes.
    pub sm_size: u16,
}

/// The bytes `data` written over `buffer` at `off`, where they fit.
pub open spec fn spec_overwrite(buffer: Seq<u8>, off: int, data: Seq<u8>) -> Seq<u8>
    recommends
        0 <= off,
        off + data.len() <= buffer.len(),
{
    buffer.subrange(0, off) + data + buffer.subrange(off + data.len(), buffer.len() as int)
}

impl MailboxWriterView {
    /// What `wait` reports.
    pub open spec fn spec_wait(self) -> Option<Result<(), EcError<Error>>> {
        match self.state {
            State::Complete => Some(Ok(())),
            State::Error(err) => Some(Err(err)),
            _ => None,
        }
    }

    /// The writer after `start`.
    pub open spec fn spec_start(self, slave_address: SlaveAddress, wait_empty: bool) -> MailboxWriterView {
        MailboxWriterView {
            slave_address,
            wait_empty,
            armed: false,
            state: State::CheckMailboxEmpty,
            command: Command { c_type: CommandType::NOP, adp: 0, ado: 0 },
            ..self
        }
    }

    /// Whether `data` fits the buffer at `off`.
    pub open spec fn spec_fits(self, off: int, data: Seq<u8>) -> bool {
        0 <= off && off + data.len() <= self.buffer.len()
    }

    /// The writer after `fill`.
    pub open spec fn spec_fill(self, off: int, data: Seq<u8>) -> MailboxWriterView {
        if self.spec_fits(off, data) {
            MailboxWriterView { buffer: spec_overwrite(self.buffer, off, data), ..self }
        } else {
            self
        }
    }

    /// The writer with the failure `err` latched.
    pub open spec fn spec_failed(self, err: Error) -> MailboxWriterView {
        MailboxWriterView { state: State::Error(EcError::UnitSpecific(err)), ..self }
    }

    /// The writer after `next_command`, and what the call emits.
    ///
    /// Before the status read the slave is looked up: a missing slave, a
    /// slave without a mailbox in sync manager 0, and a mailbox larger than
    /// the buffer are failures. The status read asks for the two status
    /// bytes of sync manager 0. The write sends the front of the buffer, as
    /// many bytes as the mailbox has.
    pub open spec fn spec_next(self, slaves: Seq<Slave>) -> (
        MailboxWriterView,
        Option<(Command, Seq<u8>)>,
    ) {
        match self.state {
            State::Idle => (self, None),
            State::Error(_) => (self, None),
            State::Complete => (self, None),
            State::CheckMailboxEmpty => match spec_find_slave(slaves, self.slave_address) {
                None => (self.spec_failed(Error::NoSlave), None),
                Some(i) => match slaves[i].info.sm0 {
                    Some(SyncManager::MailboxRx(sm)) => if sm.size > self.buffer.len() {
                        (self.spec_failed(Error::BufferSmall), None)
                    } else {
                        let command = Command::spec_new_read(
                            self.slave_address,
                            SM0_STATUS_ADDRESS,
                        );
                        (
                            MailboxWriterView {
                                command,
                                sm_start: sm.start_address,
                                sm_size: sm.size,
                                ..self
                            },
                            Some((command, seq![0u8, 0u8])),
                        )
                    },
                    _ => (self.spec_failed(Error::MailboxNotAvailable), None),
                },
            },
            State::Write => {
                let command = Command::spec_new_write(self.slave_address, self.sm_start);
                (
                    MailboxWriterView { command, ..self },
                    Some((command, self.buffer.subrange(0, self.sm_size as int))),
                )
            },
        }
    }

    /// The state after a check of the reply's command and working counter.
    pub open spec fn spec_checked_state(self, recv: ReceivedView) -> State {
        if recv.wkc != 1 {
            State::Error(EcError::UnexpectedWKC(recv.wkc))
        } else if !(recv.command.c_type == self.command.c_type && recv.command.ado
            == self.command.ado) {
            State::Error(EcError::UnexpectedCommand)
        } else if self.state == State::CheckMailboxEmpty && recv.data.len() < SM_STATUS_SIZE {
            State::Error(EcError::UnexpectedCommand)
        } else {
            self.state
        }
    }

    /// The writer after a reply, or after the loss of one.
    ///
    /// A status reply with the mailbox empty leads to the write. With the
    /// mailbox full the writer fails with `MailboxFull`, or, where it waits,
    /// asks again until the request timeout has passed since the first such
    /// reply. The reply to the write ends the transfer.
    pub open spec fn spec_after_reply(
        self,
        recv_data: Option<ReceivedView>,
        sys_time: EtherCatSystemTime,
    ) -> MailboxWriterView {
        match recv_data {
            None => MailboxWriterView { state: State::Error(EcError::LostCommand), ..self },
            Some(recv) => match self.spec_checked_state(recv) {
                State::Idle => self,
                State::Complete => self,
                State::Error(e) => MailboxWriterView { state: State::Error(e), ..self },
                State::CheckMailboxEmpty => if !spec_sm_enabled(recv.data[1]) {
                    self.spec_failed(Error::MailboxDisable)
                } else if !spec_mailbox_full(recv.data[0]) {
                    MailboxWriterView { state: State::Write, ..self }
                } else if !self.wait_empty {
                    self.spec_failed(Error::MailboxFull)
                } else if !self.armed {
                    MailboxWriterView { armed: true, timer_start: sys_time, ..self }
                } else if spec_timed_out(
                    self.timer_start,
                    sys_time,
                    MAILBOX_REQUEST_RETRY_TIMEOUT_DEFAULT_MS,
                ) {
                    self.spec_failed(Error::TimeoutMs(MAILBOX_REQUEST_RETRY_TIMEOUT_DEFAULT_MS))
                } else {
                    self
                },
                State::Write => MailboxWriterView { state: State::Complete, ..self },
            },
        }
    }
}

impl<'a> MailboxWriter<'a> {
    /// A writer that sends from `buffer`.
    pub fn new(buffer: &'a mut [u8]) -> (r: Self)
        ensures
            r.wf(),
            r@ == (MailboxWriterView {
                timer_start: EtherCatSystemTime(0),
                armed: false,
                command: Command { c_type: CommandType::NOP, adp: 0, ado: 0 },
                slave_address: SlaveAddress::SlaveNumber(0),
                buffer: old(buffer)@,
                wait_empty: false,
                state: State::Idle,
                sm_start: 0,
                sm_size: 0,
            }),
    {
        Self {
            timer_start: EtherCatSystemTime(0),
            armed: false,
            command: Command::default(),
            slave_address: SlaveAddress::default(),
            buffer,
            status: [0, 0],
            wait_empty: false,
            state: State::Idle,
            sm_start: 0,
            sm_size: 0,
        }
    }

    /// Writes `data` into the send buffer at `off`. Gives `false`, and
    /// changes nothing, where it does not fit there.
    pub fn fill(&mut self, off: usize, data: &[u8]) -> (r: bool)
        requires
            old(self).wf(),
        ensures
            final(self).wf(),
            r == old(self)@.spec_fits(off as int, data@),
            final(self)@ == old(self)@.spec_fill(off as int, data@),
    {
        let size = self.buffer.len();
        if off > size || data.len() > size - off {
            return false;
        }
        copy_bytes(self.buffer, off, data, 0, data.len());
        proof {
            assert(data@.subrange(0, data@.len() as int) =~= data@);
        }
        true
    }

    /// Writes `header` to the front of the send buffer. Gives `false`, and
    /// changes nothing, where the buffer is shorter than a header.
    pub fn set_header(&mut self, header: MailboxHeader) -> (r: bool)
        requires
            old(self).wf(),
        ensures
            final(self).wf(),
            r == old(self)@.spec_fits(0, header.spec_bytes()),
            final(self)@ == old(self)@.spec_fill(0, header.spec_bytes()),
    {
        let bytes = header.to_bytes();
        self.fill(0, bytes.as_slice())
    }

    /// Begins the write of the send buffer to the mailbox of
    /// `slave_address`. With `wait_empty` the writer waits for the mailbox
    /// to empty; without, a full mailbox is the failure `MailboxFull`.
    pub fn start(&mut self, slave_address: SlaveAddress, wait_empty: bool)
        requires
            old(self).wf(),
        ensures
            final(self).wf(),
            final(self)@ == old(self)@.spec_start(slave_address, wait_empty),
    {
        self.slave_address = slave_address;
        self.wait_empty = wait_empty;
        self.armed = false;
        self.state = State::CheckMailboxEmpty;
        self.command = Command::default();
    }

    /// `Some(Ok(()))` once the mailbox was written, the failure of the
    /// write, or `None` while it is under way.
    pub fn wait(&self) -> (r: Option<Result<(), EcError<Error>>>)
        ensures
            r == self@.spec_wait(),
    {
        match &self.state {
            State::Complete => Some(Ok(())),
            State::Error(err) => Some(Err(*err)),
            _ => None,
        }
    }

    /// The send buffer.
    pub fn buffer(&self) -> (r: &[u8])
        ensures
            r@ == self@.buffer,
    {
        self.buffer
    }
}

impl<'a> CyclicProcess for MailboxWriter<'a> {
    type V = MailboxWriterView;

    closed spec fn view(&self) -> MailboxWriterView {
        MailboxWriterView {
            timer_start: self.timer_start,
            armed: self.armed,
            command: self.command,
            slave_address: self.slave_address,
            buffer: self.buffer@,
            wait_empty: self.wait_empty,
            state: self.state,
            sm_start: self.sm_start,
            sm_size: self.sm_size,
        }
    }

    open spec fn wf(&self) -> bool {
        self@.sm_size <= self@.buffer.len()
    }

    open spec fn spec_next_command(
        unit: MailboxWriterView,
        slaves: Seq<Slave>,
        sys_time: EtherCatSystemTime,
    ) -> (MailboxWriterView, Seq<Slave>, Option<(Command, Seq<u8>)>) {
        (unit.spec_next(slaves).0, slaves, unit.spec_next(slaves).1)
    }

    open spec fn spec_recieve_and_process(
        unit: MailboxWriterView,
        recv_data: Option<ReceivedView>,
        slaves: Seq<Slave>,
        sys_time: EtherCatSystemTime,
    ) -> (MailboxWriterView, Seq<Slave>) {
        (unit.spec_after_reply(recv_data, sys_time), slaves)
    }

    fn next_command(
        &mut self,
        desc: &mut NetworkDescription,
        sys_time: EtherCatSystemTime,
    ) -> (r: Option<(Command, &[u8])>) {
        match self.state {
            State::Idle => None,
            State::Error(_) => None,
            State::Complete => None,
            State::CheckMailboxEmpty => {
                match desc.slave(self.slave_address) {
                    None => {
                        self.state = State::Error(EcError::UnitSpecific(Error::NoSlave));
                        None
                    },
                    Some(slave) => {
                        match slave.info.sm0 {
                            Some(SyncManager::MailboxRx(sm)) => {
                                if sm.size as usize > self.buffer.len() {
                                    self.state = State::Error(
                                        EcError::UnitSpecific(Error::BufferSmall),
                                    );
                                    None
                                } else {
                                    self.sm_start = sm.start_address;
                                    self.sm_size = sm.size;
                                    self.command = Command::new_read(
                                        self.slave_address,
                                        SM0_STATUS_ADDRESS,
                                    );
                                    self.status = [0, 0];
                                    let data = self.status.as_slice();
                                    assert(data@ =~= seq![0u8, 0u8]);
                                    Some((self.command, data))
                                }
                            },
                            _ => {
                                self.state = State::Error(
                                    EcError::UnitSpecific(Error::MailboxNotAvailable),
                                );
                                None
                            },
                        }
                    },
                }
            },
            State::Write => {
                self.command = Command::new_write(self.slave_address, self.sm_start);
                let size = self.sm_size as usize;
                let data = vstd::slice::slice_subrange(&*self.buffer, 0, size);
                Some((self.command, data))
            },
        }
    }

    fn recieve_and_process(
        &mut self,
        recv_data: Option<ReceivedData>,
        desc: &mut NetworkDescription,
        sys_time: EtherCatSystemTime,
    ) {
        let data = if let Some(recv_data) = recv_data {
            let ReceivedData { command, data, wkc } = recv_data;
            if matches!(self.state, State::CheckMailboxEmpty) && data.len() < SM_STATUS_SIZE {
                self.state = State::Error(EcError::UnexpectedCommand);
            }
            if !(command.c_type == self.command.c_type && command.ado == self.command.ado) {
                self.state = State::Error(EcError::UnexpectedCommand);
            }
            if wkc != 1 {
                self.state = State::Error(EcError::UnexpectedWKC(wkc));
            }
            data
        } else {
            self.state = State::Error(EcError::LostCommand);
            return ;
        };
        match self.state {
            State::Idle => {},
            State::Error(_) => {},
            State::Complete => {},
            State::CheckMailboxEmpty => {
                if !sm_enabled(data[1]) {
                    self.state = State::Error(EcError::UnitSpecific(Error::MailboxDisable));
                } else if !mailbox_full(data[0]) {
                    self.state = State::Write;
                } else if !self.wait_empty {
                    self.state = State::Error(EcError::UnitSpecific(Error::MailboxFull));
                } else if !self.armed {
                    self.armed = true;
                    self.timer_start = sys_time;
                } else if timed_out(
                    self.timer_start,
                    sys_time,
                    MAILBOX_REQUEST_RETRY_TIMEOUT_DEFAULT_MS,
                ) {
                    self.state = State::Error(
                        EcError::UnitSpecific(
                            Error::TimeoutMs(MAILBOX_REQUEST_RETRY_TIMEOUT_DEFAULT_MS),
                        ),
                    );
                }
            },
            State::Write => {
                self.state = State::Complete;
            },
        }
    }
}

/// Asking a writer again for its command, with no reply in between, gives
/// the same command and payload and changes nothing more.
pub proof fn lemma_next_command_idempotent(
    unit: MailboxWriterView,
    slaves: Seq<Slave>,
    first_time: EtherCatSystemTime,
    second_time: EtherCatSystemTime,
)
    ensures
        ({
            let first = MailboxWriter::spec_next_command(unit, slaves, first_time);
            let second = MailboxWriter::spec_next_command(first.0, first.1, second_time);
            second == first
        }),
{
}

} // verus!
