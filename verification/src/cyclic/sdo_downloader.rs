//! The unit that writes one object of a slave's dictionary: an SDO download
//! over the CoE mailbox.

use crate::cyclic::CyclicProcess;
use crate::cyclic::EtherCatSystemTime;
use crate::cyclic::mailbox_reader;
use crate::cyclic::mailbox_reader::MailboxReader;
use crate::cyclic::mailbox_reader::MailboxReaderView;
use crate::cyclic::mailbox_writer::MailboxWriter;
use crate::cyclic::mailbox_writer::MailboxWriterView;
use crate::cyclic::ReceivedData;
use crate::cyclic::ReceivedView;
use crate::error::EcError;
use crate::interface::Command;
use crate::interface::SlaveAddress;
use crate::network::NetworkDescription;
use crate::network::spec_find_slave;
use crate::packet::AbortCode;
use crate::packet::le32;
use crate::packet::MailboxHeader;
use crate::packet::MailboxType;
use crate::packet::sdo_command_specifier;
use crate::packet::sdo_download_header;
use crate::packet::spec_le32;
use crate::packet::spec_sdo_command_specifier;
use crate::packet::spec_sdo_download_header;
use crate::slave::Slave;
use crate::slave::spec_next_mailbox_count;
use vstd::prelude::*;

verus! {

/// Offset of the CoE header in a mailbox message.
pub const COE_OFFSET: usize = 6;

/// Offset of the SDO header in a mailbox message.
pub const SDO_OFFSET: usize = 8;

/// Offset of what follows the SDO header in a mailbox message: the size of
/// a download, the data of a response, or the abort code.
pub const SDO_DATA_OFFSET: usize = 12;

/// Offset of the data of a download in a mailbox message.
pub const DOWNLOAD_DATA_OFFSET: usize = 16;

/// Why a download failed, beyond what is common to all units.
#[derive(Debug, Clone, Copy, PartialEq, Eq, Structural)]
pub enum Error {
    /// The mailbox transfer failed.
    Mailbox(mailbox_reader::Error),
    /// The slave's mailbox held a message before the request was written.
    MailboxAlreadyExisted,
    /// The slave refused the download.
    AbortCode(AbortCode),
    /// The response is no answer to a download.
    UnexpectedResponse,
}

impl From<mailbox_reader::Error> for Error {
    fn from(err: mailbox_reader::Error) -> (r: Self) {
        Error::Mailbox(err)
    }
}

impl vstd::std_specs::convert::FromSpecImpl<mailbox_reader::Error> for Error {
    open spec fn obeys_from_spec() -> bool {
        true
    }

    open spec fn from_spec(err: mailbox_reader::Error) -> Self {
        Error::Mailbox(err)
    }
}

/// Where a download stands. The flag of the last two states says whether
/// the mailbox transfer of the state is still to be started.
#[derive(Debug, Clone, Copy, PartialEq, Eq)]
pub enum State {
    Error(EcError<Error>),
    Idle,
    Complete,
    CheckMailboxEmpty,
    WriteDownloadRequest(bool),
    ReadDownloadResponse(bool),
}

impl Default for State {
    fn default() -> (r: Self)
        ensures
            r == State::Idle,
    {
        State::Idle
    }
}

/// The failure of a mailbox transfer as a failure of the download.
pub open spec fn spec_lift(err: EcError<mailbox_reader::Error>) -> EcError<Error> {
    match err {
        EcError::UnexpectedCommand => EcError::UnexpectedCommand,
        EcError::UnexpectedWKC(wkc) => EcError::UnexpectedWKC(wkc),
        EcError::LostCommand => EcError::LostCommand,
        EcError::UnitSpecific(e) => EcError::UnitSpecific(Error::Mailbox(e)),
    }
}

pub fn lift(err: EcError<mailbox_reader::Error>) -> (r: EcError<Error>)
    ensures
        r == spec_lift(err),
{
    match err {
        EcError::UnexpectedCommand => EcError::UnexpectedCommand,
        EcError::UnexpectedWKC(wkc) => EcError::UnexpectedWKC(wkc),
        EcError::LostCommand => EcError::LostCommand,
        EcError::UnitSpecific(e) => EcError::UnitSpecific(Error::Mailbox(e)),
    }
}

pub fn state_after_asking(
    state: State,
    transfer: Option<Result<(), EcError<mailbox_reader::Error>>>,
) -> (r: State)
    ensures
        r == spec_state_after_asking(state, transfer),
{
    match transfer {
        Some(Err(err)) => State::Error(lift(err)),
        _ => state,
    }
}

/// What the response in a mailbox message says of the download: command
/// specifier 3 is its completion, 4 its refusal with the abort code in the
/// four bytes behind the SDO header, anything else no answer to it. A
/// message too short to hold what is read is no answer either.
pub open spec fn spec_response_state(message: Seq<u8>) -> State {
    if message.len() <= SDO_OFFSET {
        State::Error(EcError::UnitSpecific(Error::UnexpectedResponse))
    } else if spec_sdo_command_specifier(message[SDO_OFFSET as int]) == 4 {
        if message.len() < SDO_DATA_OFFSET + 4 {
            State::Error(EcError::UnitSpecific(Error::UnexpectedResponse))
        } else {
            State::Error(
                EcError::UnitSpecific(
                    Error::AbortCode(
                        AbortCode(spec_le32(message[12], message[13], message[14], message[15])),
                    ),
                ),
            )
        }
    } else if spec_sdo_command_specifier(message[SDO_OFFSET as int]) == 3 {
        State::Complete
    } else {
        State::Error(EcError::UnitSpecific(Error::UnexpectedResponse))
    }
}

pub fn response_state(message: &[u8]) -> (r: State)
    ensures
        r == spec_response_state(message@),
{
    if message.len() <= SDO_OFFSET {
        return State::Error(EcError::UnitSpecific(Error::UnexpectedResponse));
    }
    let specifier = sdo_command_specifier(message[SDO_OFFSET]);
    if specifier == 4 {
        if message.len() < SDO_DATA_OFFSET + 4 {
            State::Error(EcError::UnitSpecific(Error::UnexpectedResponse))
        } else {
            State::Error(
                EcError::UnitSpecific(
                    Error::AbortCode(
                        AbortCode(le32(message[12], message[13], message[14], message[15])),
                    ),
                ),
            )
        }
    } else if specifier == 3 {
        State::Complete
    } else {
        State::Error(EcError::UnitSpecific(Error::UnexpectedResponse))
    }
}

/// Writes one object of a slave's dictionary through its CoE mailbox.
#[derive(Debug)]
pub struct SdoDownloader<'a> {
    slave_address: SlaveAddress,
    state: State,
    reader: MailboxReader<'a>,
    writer: MailboxWriter<'a>,
    mailbox_count: u8,
    mb_length: usize,
}

/// What a downloader holds.
#[verifier::ext_equal]
pub struct SdoDownloaderView {
    pub slave_address: SlaveAddress,
    pub state: State,
    pub reader: MailboxReaderView,
    pub writer: MailboxWriterView,
    /// The mailbox counter of the request written last.
    pub mailbox_count: u8,
    /// Bytes of the request behind its mailbox header.
    pub mb_length: nat,
}

/// The mailbox header of a download request of `length` bytes with the
/// counter `count`: to the slave itself, CoE, lowest priority.
pub open spec fn spec_request_header(length: nat, count: u8) -> MailboxHeader {
    MailboxHeader {
        length: length as u16,
        address: 0,
        channel: 0,
        priority: 0,
        mailbox_type: MailboxType::CoE.spec_code(),
        count,
    }
}

/// The state of a download after its mailbox transfer was asked for a
/// command: a transfer that has failed instead of emitting one fails the
/// download.
pub open spec fn spec_state_after_asking(
    state: State,
    transfer: Option<Result<(), EcError<mailbox_reader::Error>>>,
) -> State {
    match transfer {
        Some(Err(err)) => State::Error(spec_lift(err)),
        _ => state,
    }
}

impl SdoDownloaderView {
    /// What `wait` reports.
    pub open spec fn spec_wait(self) -> Option<Result<(), EcError<Error>>> {
        match self.state {
            State::Complete => Some(Ok(())),
            State::Error(err) => Some(Err(err)),
            _ => None,
        }
    }

    /// Whether a request with `data` can be composed: it finds room in the
    /// send buffer behind the mailbox header, and its length can be stated
    /// in the header.
    pub open spec fn spec_request_fits(self, data: Seq<u8>) -> bool {
        data.len() + 10 <= 0xFFFF && DOWNLOAD_DATA_OFFSET + data.len() <= self.writer.buffer.len()
    }

    /// The downloader after `start`. The request is composed in the send
    /// buffer behind the room for the mailbox header: CoE header, SDO
    /// header, size, data. Where it does not fit, the downloader fails with
    /// `BufferSmall`; else the check for an empty mailbox begins.
    pub open spec fn spec_start(
        self,
        slave_address: SlaveAddress,
        index: u16,
        sub_index: u8,
        data: Seq<u8>,
    ) -> SdoDownloaderView {
        if !self.spec_request_fits(data) {
            SdoDownloaderView {
                state: State::Error(
                    EcError::UnitSpecific(Error::Mailbox(mailbox_reader::Error::BufferSmall)),
                ),
                ..self
            }
        } else {
            SdoDownloaderView {
                slave_address,
                state: State::CheckMailboxEmpty,
                reader: self.reader.spec_start(slave_address, false),
                writer: self.writer.spec_fill(
                    COE_OFFSET as int,
                    spec_sdo_download_header(index, sub_index, data.len() as u32),
                ).spec_fill(DOWNLOAD_DATA_OFFSET as int, data),
                mb_length: data.len() + 10,
                ..self
            }
        }
    }

    /// The downloader and the slaves after `next_command`, and what the
    /// call emits.
    ///
    /// While the mailbox is checked and while the response is read, the
    /// reader's command is emitted; the read of the response is started
    /// first where it has not been. While the request is written, the
    /// writer's command is emitted; where the write has not been started,
    /// the slave is looked up first, its mailbox counter advances, the
    /// mailbox header with the new counter goes to the front of the send
    /// buffer, and the write is started. What is done on entry to a state
    /// is done once: the state's flag is cleared with it, so that a second
    /// call without a reply in between finds the transfer started and
    /// counts nothing anew. A missing slave is a failure, and so is a
    /// mailbox transfer that fails where it was to emit.
    pub open spec fn spec_next(self, slaves: Seq<Slave>) -> (
        SdoDownloaderView,
        Seq<Slave>,
        Option<(Command, Seq<u8>)>,
    ) {
        match self.state {
            State::Idle => (self, slaves, None),
            State::Error(_) => (self, slaves, None),
            State::Complete => (self, slaves, None),
            State::CheckMailboxEmpty => {
                let next = self.reader.spec_next(slaves);
                (
                    SdoDownloaderView {
                        reader: next.0,
                        state: spec_state_after_asking(self.state, next.0.spec_wait()),
                        ..self
                    },
                    slaves,
                    next.1,
                )
            },
            State::WriteDownloadRequest(is_first) => if is_first {
                match spec_find_slave(slaves, self.slave_address) {
                    None => (
                        SdoDownloaderView {
                            state: State::Error(
                                EcError::UnitSpecific(
                                    Error::Mailbox(mailbox_reader::Error::NoSlave),
                                ),
                            ),
                            ..self
                        },
                        slaves,
                        None,
                    ),
                    Some(i) => {
                        let count = spec_next_mailbox_count(slaves[i].mailbox_count);
                        let counted = slaves.update(
                            i,
                            Slave { mailbox_count: count, ..slaves[i] },
                        );
                        let writer = self.writer.spec_fill(
                            0,
                            spec_request_header(self.mb_length, count).spec_bytes(),
                        ).spec_start(self.slave_address, true);
                        let next = writer.spec_next(counted);
                        (
                            SdoDownloaderView {
                                writer: next.0,
                                mailbox_count: count,
                                state: spec_state_after_asking(
                                    State::WriteDownloadRequest(false),
                                    next.0.spec_wait(),
                                ),
                                ..self
                            },
                            counted,
                            next.1,
                        )
                    },
                }
            } else {
                let next = self.writer.spec_next(slaves);
                (
                    SdoDownloaderView {
                        writer: next.0,
                        state: spec_state_after_asking(self.state, next.0.spec_wait()),
                        ..self
                    },
                    slaves,
                    next.1,
                )
            },
            State::ReadDownloadResponse(is_first) => {
                let reader = if is_first {
                    self.reader.spec_start(self.slave_address, true)
                } else {
                    self.reader
                };
                let next = reader.spec_next(slaves);
                (
                    SdoDownloaderView {
                        reader: next.0,
                        state: spec_state_after_asking(
                            State::ReadDownloadResponse(false),
                            next.0.spec_wait(),
                        ),
                        ..self
                    },
                    slaves,
                    next.1,
                )
            },
        }
    }

    /// The downloader after a reply, or after the loss of one: the mailbox
    /// transfer of the state takes it, and its outcome decides how the
    /// download goes on.
    pub open spec fn spec_after_reply(
        self,
        recv_data: Option<ReceivedView>,
        sys_time: EtherCatSystemTime,
    ) -> SdoDownloaderView {
        match self.state {
            State::Idle => self,
            State::Error(_) => self,
            State::Complete => self,
            State::CheckMailboxEmpty => {
                let reader = self.reader.spec_after_reply(recv_data, sys_time);
                SdoDownloaderView {
                    reader,
                    state: match reader.spec_wait() {
                        Some(Ok(_)) => State::Error(
                            EcError::UnitSpecific(Error::MailboxAlreadyExisted),
                        ),
                        Some(Err(EcError::UnitSpecific(mailbox_reader::Error::MailboxEmpty))) => State::WriteDownloadRequest(
                            true,
                        ),
                        Some(Err(other)) => State::Error(spec_lift(other)),
                        None => State::CheckMailboxEmpty,
                    },
                    ..self
                }
            },
            State::WriteDownloadRequest(_) => {
                let writer = self.writer.spec_after_reply(recv_data, sys_time);
                SdoDownloaderView {
                    writer,
                    state: match writer.spec_wait() {
                        Some(Ok(_)) => State::ReadDownloadResponse(true),
                        Some(Err(other)) => State::Error(spec_lift(other)),
                        None => State::WriteDownloadRequest(false),
                    },
                    ..self
                }
            },
            State::ReadDownloadResponse(_) => {
                let reader = self.reader.spec_after_reply(recv_data, sys_time);
                SdoDownloaderView {
                    reader,
                    state: match reader.spec_wait() {
                        Some(Ok(_)) => spec_response_state(reader.buffer),
                        Some(Err(other)) => State::Error(spec_lift(other)),
                        None => State::ReadDownloadResponse(false),
                    },
                    ..self
                }
            },
        }
    }
}

impl<'a> SdoDownloader<'a> {
    /// A downloader that composes requests in `send_buf` and receives
    /// responses in `recv_buf`.
    pub fn new(send_buf: &'a mut [u8], recv_buf: &'a mut [u8]) -> (r: Self)
        ensures
            r.wf(),
            r@ == (SdoDownloaderView {
                slave_address: SlaveAddress::SlaveNumber(0),
                state: State::Idle,
                reader: MailboxReaderView {
                    timer_start: EtherCatSystemTime(0),
                    armed: false,
                    command: Command { c_type: crate::packet::CommandType::NOP, adp: 0, ado: 0 },
                    slave_address: SlaveAddress::SlaveNumber(0),
                    buffer: old(recv_buf)@,
                    wait_full: false,
                    state: mailbox_reader::State::Idle,
                    sm_start: 0,
                    sm_size: 0,
                },
                writer: MailboxWriterView {
                    timer_start: EtherCatSystemTime(0),
                    armed: false,
                    command: Command { c_type: crate::packet::CommandType::NOP, adp: 0, ado: 0 },
                    slave_address: SlaveAddress::SlaveNumber(0),
                    buffer: old(send_buf)@,
                    wait_empty: false,
                    state: crate::cyclic::mailbox_writer::State::Idle,
                    sm_start: 0,
                    sm_size: 0,
                },
                mailbox_count: 0,
                mb_length: 0,
            }),
    {
        let reader = MailboxReader::new(recv_buf);
        let writer = MailboxWriter::new(send_buf);
        Self {
            slave_address: SlaveAddress::default(),
            state: State::Idle,
            reader,
            writer,
            mailbox_count: 0,
            mb_length: 0,
        }
    }

    /// The reader of the downloader's mailbox transfers.
    pub fn mailbox_reader(&self) -> (r: &MailboxReader<'a>)
        ensures
            r@ == self@.reader,
    {
        &self.reader
    }

    /// Begins the download of `data` to the object `index`:`sub_index` of
    /// the slave at `slave_address`, whatever the unit was doing.
    pub fn start(&mut self, slave_address: SlaveAddress, index: u16, sub_index: u8, data: &[u8])
        requires
            old(self).wf(),
        ensures
            final(self).wf(),
            final(self)@ == old(self)@.spec_start(slave_address, index, sub_index, data@),
    {
        let data_len = data.len();
        if data_len > 0xFFFF - 10 || self.writer.buffer().len() < DOWNLOAD_DATA_OFFSET
            || self.writer.buffer().len() - DOWNLOAD_DATA_OFFSET < data_len {
            self.state = State::Error(
                EcError::UnitSpecific(Error::Mailbox(mailbox_reader::Error::BufferSmall)),
            );
            return ;
        }
        let sdo_header = sdo_download_header(index, sub_index, data_len as u32);
        let header_fits = self.writer.fill(COE_OFFSET, sdo_header.as_slice());
        let data_fits = self.writer.fill(DOWNLOAD_DATA_OFFSET, data);
        assert(header_fits && data_fits);
        self.mb_length = data_len + 10;
        self.slave_address = slave_address;
        self.reader.start(slave_address, false);
        self.state = State::CheckMailboxEmpty;
    }

    /// `Some(Ok(()))` once the slave has confirmed the download, the
    /// failure of the download, or `None` while it is under way.
    pub fn wait(&mut self) -> (r: Option<Result<(), EcError<Error>>>)
        requires
            old(self).wf(),
        ensures
            final(self).wf(),
            r == old(self)@.spec_wait(),
            final(self)@ == old(self)@,
    {
        match &self.state {
            State::Complete => Some(Ok(())),
            State::Error(err) => Some(Err(*err)),
            _ => None,
        }
    }
}

impl<'a> CyclicProcess for SdoDownloader<'a> {
    type V = SdoDownloaderView;

    closed spec fn view(&self) -> SdoDownloaderView {
        SdoDownloaderView {
            slave_address: self.slave_address,
            state: self.state,
            reader: self.reader@,
            writer: self.writer@,
            mailbox_count: self.mailbox_count,
            mb_length: self.mb_length as nat,
        }
    }

    open spec fn wf(&self) -> bool {
        &&& self@.reader.sm_size <= self@.reader.buffer.len()
        &&& self@.writer.sm_size <= self@.writer.buffer.len()
        &&& self@.mb_length <= 0xFFFF
    }

    open spec fn spec_next_command(
        unit: SdoDownloaderView,
        slaves: Seq<Slave>,
        sys_time: EtherCatSystemTime,
    ) -> (SdoDownloaderView, Seq<Slave>, Option<(Command, Seq<u8>)>) {
        unit.spec_next(slaves)
    }

    open spec fn spec_recieve_and_process(
        unit: SdoDownloaderView,
        recv_data: Option<ReceivedView>,
        slaves: Seq<Slave>,
        sys_time: EtherCatSystemTime,
    ) -> (SdoDownloaderView, Seq<Slave>) {
        (unit.spec_after_reply(recv_data, sys_time), slaves)
    }

    fn next_command(
        &mut self,
        desc: &mut NetworkDescription,
        sys_time: EtherCatSystemTime,
    ) -> (r: Option<(Command, &[u8])>) {
        match self.state {
            State::Idle => None,
            State::Error(_) => None,
            State::Complete => None,
            State::CheckMailboxEmpty => {
                // The command borrows the reader, so the reader is asked
                // once for whether it emits, and once more for the command.
                let ghost reader = self.reader@;
                let ghost slaves = desc@;
                if self.reader.next_command(desc, sys_time).is_none() {
                    self.state = state_after_asking(self.state, self.reader.wait());
                    return None;
                }
                proof {
                    mailbox_reader::lemma_next_command_idempotent(
                        reader,
                        slaves,
                        sys_time,
                        sys_time,
                    );
                }
                self.reader.next_command(desc, sys_time)
            },
            State::WriteDownloadRequest(is_first) => {
                if is_first {
                    let count = match desc.slave_mut(self.slave_address) {
                        Some(slave) => {
                            slave.increment_mb_count();
                            Some(slave.mailbox_count)
                        },
                        None => None,
                    };
                    match count {
                        Some(count) => {
                            self.mailbox_count = count;
                            let mut mb_header = MailboxHeader::new();
                            mb_header.set_address(0);
                            mb_header.set_count(self.mailbox_count);
                            mb_header.set_mailbox_type(MailboxType::CoE.code());
                            mb_header.set_length(self.mb_length as u16);
                            mb_header.set_prioriry(0);
                            assert(mb_header == spec_request_header(
                                self.mb_length as nat,
                                count,
                            ));
                            let _ = self.writer.set_header(mb_header);
                            self.writer.start(self.slave_address, true);
                            self.state = State::WriteDownloadRequest(false);
                        },
                        None => {
                            self.state = State::Error(
                                EcError::UnitSpecific(
                                    Error::Mailbox(mailbox_reader::Error::NoSlave),
                                ),
                            );
                            return None;
                        },
                    }
                }
                let ghost writer = self.writer@;
                let ghost slaves = desc@;
                if self.writer.next_command(desc, sys_time).is_none() {
                    self.state = state_after_asking(self.state, self.writer.wait());
                    return None;
                }
                proof {
                    crate::cyclic::mailbox_writer::lemma_next_command_idempotent(
                        writer,
                        slaves,
                        sys_time,
                        sys_time,
                    );
                }
                self.writer.next_command(desc, sys_time)
            },
            State::ReadDownloadResponse(is_first) => {
                if is_first {
                    self.reader.start(self.slave_address, true);
                    self.state = State::ReadDownloadResponse(false);
                }
                let ghost reader = self.reader@;
                let ghost slaves = desc@;
                if self.reader.next_command(desc, sys_time).is_none() {
                    self.state = state_after_asking(self.state, self.reader.wait());
                    return None;
                }
                proof {
                    mailbox_reader::lemma_next_command_idempotent(
                        reader,
                        slaves,
                        sys_time,
                        sys_time,
                    );
                }
                self.reader.next_command(desc, sys_time)
            },
        }
    }

    fn recieve_and_process(
        &mut self,
        recv_data: Option<ReceivedData>,
        desc: &mut NetworkDescription,
        sys_time: EtherCatSystemTime,
    ) {
        match self.state {
            State::Idle => {},
            State::Error(_) => {},
            State::Complete => {},
            State::CheckMailboxEmpty => {
                self.reader.recieve_and_process(recv_data, desc, sys_time);
                match self.reader.wait() {
                    Some(Ok(_)) => {
                        self.state = State::Error(
                            EcError::UnitSpecific(Error::MailboxAlreadyExisted),
                        );
                    },
                    Some(Err(EcError::UnitSpecific(mailbox_reader::Error::MailboxEmpty))) => {
                        self.state = State::WriteDownloadRequest(true);
                    },
                    Some(Err(other)) => {
                        self.state = State::Error(lift(other));
                    },
                    None => {},
                }
            },
            State::WriteDownloadRequest(_) => {
                self.writer.recieve_and_process(recv_data, desc, sys_time);
                match self.writer.wait() {
                    Some(Ok(_)) => {
                        self.state = State::ReadDownloadResponse(true);
                    },
                    Some(Err(other)) => {
                        self.state = State::Error(lift(other));
                    },
                    None => {
                        self.state = State::WriteDownloadRequest(false);
                    },
                }
            },
            State::ReadDownloadResponse(_) => {
                self.reader.recieve_and_process(recv_data, desc, sys_time);
                match self.reader.wait() {
                    Some(Ok(_)) => {
                        self.state = response_state(self.reader.buffer());
                    },
                    Some(Err(other)) => {
                        self.state = State::Error(lift(other));
                    },
                    None => {
                        self.state = State::ReadDownloadResponse(false);
                    },
                }
            },
        }
    }
}

/// Asking a downloader again for its command, with no reply in between,
/// gives the same command and payload and changes nothing more: neither the
/// downloader nor the slaves, whose mailbox counters stay as the first call
/// left them.
pub proof fn lemma_next_command_idempotent(
    unit: SdoDownloaderView,
    slaves: Seq<Slave>,
    first_time: EtherCatSystemTime,
    second_time: EtherCatSystemTime,
)
    requires
        unit.reader.sm_size <= unit.reader.buffer.len(),
    ensures
        ({
            let first = SdoDownloader::spec_next_command(unit, slaves, first_time);
            let second = SdoDownloader::spec_next_command(first.0, first.1, second_time);
            second == first
        }),
{
    let first = unit.spec_next(slaves);
    match unit.state {
        State::CheckMailboxEmpty => {
            mailbox_reader::lemma_next_command_idempotent(
                unit.reader,
                slaves,
                first_time,
                second_time,
            );
        },
        State::ReadDownloadResponse(is_first) => {
            let reader = if is_first {
                unit.reader.spec_start(unit.slave_address, true)
            } else {
                unit.reader
            };
            mailbox_reader::lemma_next_command_idempotent(
                reader,
                slaves,
                first_time,
                second_time,
            );
        },
        State::WriteDownloadRequest(is_first) => {
            if is_first {
                match spec_find_slave(slaves, unit.slave_address) {
                    Some(i) => {
                        let count = spec_next_mailbox_count(slaves[i].mailbox_count);
                        let counted = slaves.update(
                            i,
                            Slave { mailbox_count: count, ..slaves[i] },
                        );
                        let writer = unit.writer.spec_fill(
                            0,
                            spec_request_header(unit.mb_length, count).spec_bytes(),
                        ).spec_start(unit.slave_address, true);
                        crate::cyclic::mailbox_writer::lemma_next_command_idempotent(
                            writer,
                            counted,
                            first_time,
                            second_time,
                        );
                    },
                    None => {},
                }
            } else {
                crate::cyclic::mailbox_writer::lemma_next_command_idempotent(
                    unit.writer,
                    slaves,
                    first_time,
                    second_time,
                );
            }
        },
        _ => {},
    }
}

/// The call of `next_command` that starts the write of a request advances
/// the mailbox counter of the slave to the next value of the ring 1 to 7,
/// never to zero, leaves the other slaves as they are, and puts the new
/// counter into the mailbox header of the request. It advances the counter
/// once: the write counts as started after it, and a call that follows
/// leaves the slaves as they are.
pub proof fn lemma_request_counts(unit: SdoDownloaderView, slaves: Seq<Slave>)
    requires
        unit.state == State::WriteDownloadRequest(true),
        spec_find_slave(slaves, unit.slave_address) is Some,
    ensures
        ({
            let i = spec_find_slave(slaves, unit.slave_address).unwrap();
            let next = unit.spec_next(slaves);
            &&& next.1 == slaves.update(
                i,
                Slave { mailbox_count: spec_next_mailbox_count(slaves[i].mailbox_count), ..slaves[i] },
            )
            &&& next.0.mailbox_count == spec_next_mailbox_count(slaves[i].mailbox_count)
            &&& 1 <= next.0.mailbox_count <= 7
            &&& unit.writer.buffer.len() >= 6 ==> MailboxHeader::spec_from_bytes(
                next.0.writer.buffer,
            ).count == next.0.mailbox_count
            &&& next.0.state != State::WriteDownloadRequest(true)
            &&& next.0.spec_next(next.1).1 == next.1
        }),
{
    let i = spec_find_slave(slaves, unit.slave_address).unwrap();
    crate::network::lemma_find_slave(slaves, unit.slave_address);
    let count = spec_next_mailbox_count(slaves[i].mailbox_count);
    let header = spec_request_header(unit.mb_length, count);
    let counted = slaves.update(i, Slave { mailbox_count: count, ..slaves[i] });
    crate::cyclic::mailbox_writer::lemma_next_command_idempotent(
        unit.writer.spec_fill(0, header.spec_bytes()).spec_start(unit.slave_address, true),
        counted,
        EtherCatSystemTime(0),
        EtherCatSystemTime(0),
    );
    if unit.writer.buffer.len() >= 6 {
        let filled = unit.writer.spec_fill(0, header.spec_bytes());
        assert(filled.buffer[5] == header.spec_bytes()[5]);
        let next = unit.spec_next(slaves);
        assert(next.0.writer.buffer == filled.buffer);
    }
}

} // verus!
