//! The interface: owner of the staging buffer, which takes PDUs from the
//! units, packs them into frames for the device, and takes the PDUs of the
//! frames that the device received.

use crate::error::CommonError;
use crate::ethercat_frame::append_pdu;
use crate::ethercat_frame::copy_bytes;
use crate::ethercat_frame::EtherCATPDU;
use crate::ethercat_frame::frame_well_formed;
use crate::ethercat_frame::lemma_frames_respect_mtu;
use crate::ethercat_frame::lemma_parse_size;
use crate::ethercat_frame::lemma_pdus_size_bounds_each;
use crate::ethercat_frame::parse_pdus;
use crate::ethercat_frame::read_pdu;
use crate::ethercat_frame::spec_chunk_len;
use crate::ethercat_frame::spec_fitting;
use crate::ethercat_frame::spec_frame_bytes;
use crate::ethercat_frame::spec_frame_in;
use crate::ethercat_frame::spec_frame_limit;
use crate::ethercat_frame::spec_frame_pdu_length;
use crate::ethercat_frame::spec_frame_pdus;
use crate::ethercat_frame::spec_frame_source;
use crate::ethercat_frame::spec_frame_well_formed;
use crate::ethercat_frame::spec_frames;
use crate::ethercat_frame::spec_pdu_models;
use crate::ethercat_frame::spec_pdu_size;
use crate::ethercat_frame::spec_pdus_fit;
use crate::ethercat_frame::spec_pdus_size;
use crate::ethercat_frame::spec_sent_pdu;
use crate::ethercat_frame::spec_sent_pdus;
use crate::ethercat_frame::write_frame_headers;
use crate::ethercat_frame::write_pdu;
use crate::packet::CommandType;
use crate::packet::lemma_parse_append;
use crate::packet::lemma_pdu_round_trip;
use crate::packet::lemma_single_pdu_valid;
use crate::packet::MAX_FRAME_LENGTH;
use crate::packet::PduModel;
use crate::packet::spec_first_pdu;
use crate::packet::spec_parse_pdus;
use crate::packet::spec_payload;
use crate::packet::spec_pdu_bytes;
use crate::packet::spec_pdu_head_ok;
use crate::packet::spec_pdu_length;
use crate::packet::spec_pdus_valid;
use vstd::prelude::*;

verus! {

/// How one slave is addressed.
#[derive(Debug, Clone, Copy, PartialEq, Eq, Structural)]
pub enum SlaveAddress {
    /// By the station address that was configured for it.
    StationAddress(u16),
    /// By its position on the line, counted from 0.
    SlaveNumber(u16),
}

impl Default for SlaveAddress {
    fn default() -> (r: Self)
        ensures
            r == SlaveAddress::SlaveNumber(0),
    {
        SlaveAddress::SlaveNumber(0)
    }
}

/// Which slaves a unit speaks to.
#[derive(Debug, Clone, Copy, PartialEq, Eq, Structural)]
pub enum TargetSlave {
    /// One slave, by station address; each reply is expected to have been
    /// handled by exactly one slave.
    Single(u16),
    /// Every slave; the value is the number of slaves expected to handle
    /// each command.
    All(u16),
}

impl Default for TargetSlave {
    fn default() -> (r: Self)
        ensures
            r == TargetSlave::All(0),
    {
        TargetSlave::All(0)
    }
}

/// The auto increment address of the slave at position `slave_number`.
pub open spec fn spec_ap_adp(slave_number: u16) -> u16 {
    if slave_number == 0 {
        0
    } else {
        (0x10000 - slave_number) as u16
    }
}

pub fn get_ap_adp(slave_number: u16) -> (r: u16)
    ensures
        r == spec_ap_adp(slave_number),
{
    if slave_number == 0 {
        0
    } else {
        0xFFFF - (slave_number - 1)
    }
}

/// An EtherCAT command without its payload.
#[derive(Debug, Clone, Copy, PartialEq, Eq, Structural)]
pub struct Command {
    pub c_type: CommandType,
    pub adp: u16,
    pub ado: u16,
}

impl Command {
    /// The read of register `ado` of one slave.
    pub open spec fn spec_new_read(slave_address: SlaveAddress, ado: u16) -> Command {
        match slave_address {
            SlaveAddress::StationAddress(adr) => Command {
                c_type: CommandType::FPRD,
                adp: adr,
                ado,
            },
            SlaveAddress::SlaveNumber(n) => Command {
                c_type: CommandType::APRD,
                adp: spec_ap_adp(n),
                ado,
            },
        }
    }

    /// The write of register `ado` of one slave.
    pub open spec fn spec_new_write(slave_address: SlaveAddress, ado: u16) -> Command {
        match slave_address {
            SlaveAddress::StationAddress(adr) => Command {
                c_type: CommandType::FPWR,
                adp: adr,
                ado,
            },
            SlaveAddress::SlaveNumber(n) => Command {
                c_type: CommandType::APWR,
                adp: spec_ap_adp(n),
                ado,
            },
        }
    }

    /// The read of register `ado` that `target` calls for: addressed for one
    /// slave, broadcast for all.
    pub open spec fn spec_target_read(target: TargetSlave, ado: u16) -> Command {
        match target {
            TargetSlave::Single(adr) => Command::spec_new_read(
                SlaveAddress::StationAddress(adr),
                ado,
            ),
            TargetSlave::All(_) => Command { c_type: CommandType::BRD, adp: 0, ado },
        }
    }

    /// The write of register `ado` that `target` calls for: addressed for one
    /// slave, broadcast for all.
    pub open spec fn spec_target_write(target: TargetSlave, ado: u16) -> Command {
        match target {
            TargetSlave::Single(adr) => Command::spec_new_write(
                SlaveAddress::StationAddress(adr),
                ado,
            ),
            TargetSlave::All(_) => Command { c_type: CommandType::BWR, adp: 0, ado },
        }
    }

    pub fn new(c_type: CommandType, adp: u16, ado: u16) -> (r: Command)
        ensures
            r == (Command { c_type, adp, ado }),
    {
        Command { c_type, adp, ado }
    }

    pub fn new_read(slave_address: SlaveAddress, ado: u16) -> (r: Command)
        ensures
            r == Command::spec_new_read(slave_address, ado),
    {
        match slave_address {
            SlaveAddress::StationAddress(adr) => Command::new(CommandType::FPRD, adr, ado),
            SlaveAddress::SlaveNumber(n) => Command::new(CommandType::APRD, get_ap_adp(n), ado),
        }
    }

    pub fn new_write(slave_address: SlaveAddress, ado: u16) -> (r: Command)
        ensures
            r == Command::spec_new_write(slave_address, ado),
    {
        match slave_address {
            SlaveAddress::StationAddress(adr) => Command::new(CommandType::FPWR, adr, ado),
            SlaveAddress::SlaveNumber(n) => Command::new(CommandType::APWR, get_ap_adp(n), ado),
        }
    }

    pub fn target_read(target: TargetSlave, ado: u16) -> (r: Command)
        ensures
            r == Command::spec_target_read(target, ado),
    {
        match target {
            TargetSlave::Single(adr) => Command::new_read(SlaveAddress::StationAddress(adr), ado),
            TargetSlave::All(_) => Command::new(CommandType::BRD, 0, ado),
        }
    }

    pub fn target_write(target: TargetSlave, ado: u16) -> (r: Command)
        ensures
            r == Command::spec_target_write(target, ado),
    {
        match target {
            TargetSlave::Single(adr) => Command::new_write(SlaveAddress::StationAddress(adr), ado),
            TargetSlave::All(_) => Command::new(CommandType::BWR, 0, ado),
        }
    }
}

impl Default for Command {
    fn default() -> (r: Self)
        ensures
            r == (Command { c_type: CommandType::NOP, adp: 0, ado: 0 }),
    {
        Command { c_type: CommandType::NOP, adp: 0, ado: 0 }
    }
}

/// Owner of the staging buffer: takes PDUs from the units, packs them into
/// frames, and takes the PDUs of the frames that come back.
#[derive(Debug)]
pub struct EtherCATInterface<'a> {
    buffer: &'a mut [u8],
    data_size: usize,
    buffer_size: usize,
    should_recv_frames: usize,
    mtu: usize,
    source_mac: [u8; 6],
}

/// What an interface holds.
#[verifier::ext_equal]
pub struct InterfaceView {
    /// The PDUs in the staging buffer, in the order in which they came.
    pub pdus: Seq<PduModel>,
    /// Bytes of the staging buffer that the PDUs take.
    pub data_size: nat,
    /// Bytes of the staging buffer.
    pub buffer_size: nat,
    /// Largest frame that the device sends, Ethernet header included.
    pub mtu: nat,
    /// Frames that were sent and have not come back.
    pub expected_frames: nat,
    /// Address of the master.
    pub source_mac: Seq<u8>,
}

impl View for EtherCATInterface<'_> {
    type V = InterfaceView;

    closed spec fn view(&self) -> InterfaceView {
        InterfaceView {
            pdus: spec_parse_pdus(self.staged()),
            data_size: self.data_size as nat,
            buffer_size: self.buffer_size as nat,
            mtu: self.mtu as nat,
            expected_frames: self.should_recv_frames as nat,
            source_mac: self.source_mac@,
        }
    }
}

/// The bytes of `s` from `off` hold the PDUs of `pdus` from `j`, whole.
spec fn spec_staged_at(s: Seq<u8>, off: int, pdus: Seq<PduModel>, j: int) -> bool {
    &&& 0 <= off <= s.len()
    &&& 0 <= j <= pdus.len()
    &&& spec_pdus_valid(s.skip(off))
    &&& spec_parse_pdus(s.skip(off)) == pdus.skip(j)
}

/// Where PDUs stand from `off` and `off` is not the end, the first of them
/// is whole and is the PDU `j`, and the others follow behind it.
proof fn lemma_staged_step(s: Seq<u8>, off: int, pdus: Seq<PduModel>, j: int)
    requires
        spec_staged_at(s, off, pdus, j),
        off < s.len(),
    ensures
        spec_pdu_head_ok(s.skip(off)),
        j < pdus.len(),
        spec_first_pdu(s.skip(off)) == pdus[j],
        spec_pdu_length(s.skip(off)) == pdus[j].data.len(),
        spec_staged_at(s, off + 12 + spec_pdu_length(s.skip(off)), pdus, j + 1),
{
    let t = s.skip(off);
    let total = 12 + spec_pdu_length(t) as int;
    assert(t.len() > 0);
    assert(spec_parse_pdus(t) =~= seq![spec_first_pdu(t)] + spec_parse_pdus(t.skip(total)));
    assert(pdus.skip(j).len() >= 1);
    assert(pdus.skip(j)[0] == spec_first_pdu(t));
    assert(t.skip(total) =~= s.skip(off + total));
    assert(spec_parse_pdus(t).skip(1) =~= spec_parse_pdus(t.skip(total)));
    assert(pdus.skip(j).skip(1) =~= pdus.skip(j + 1));
}

/// Where PDUs stand from the end of the bytes, none is left.
proof fn lemma_staged_end(s: Seq<u8>, pdus: Seq<PduModel>, j: int)
    requires
        spec_staged_at(s, s.len() as int, pdus, j),
    ensures
        j == pdus.len(),
{
    assert(s.skip(s.len() as int).len() == 0);
    assert(spec_parse_pdus(s.skip(s.len() as int)) =~= Seq::<PduModel>::empty());
    assert(pdus.skip(j).len() == 0);
}

/// What a list of frames holds.
pub open spec fn spec_frames_view(frames: Seq<Vec<u8>>) -> Seq<Seq<u8>> {
    Seq::new(frames.len(), |i: int| frames[i]@)
}

/// Microseconds that a register access waits for its reply.
pub const REGISTER_TIMEOUT_US: u32 = 1000;

/// Whether a PDU carries the working counter `expected`.
pub fn check_wkc(pdu: &EtherCATPDU<'_>, expected: u16) -> (r: Result<(), CommonError>)
    ensures
        pdu.wkc == expected ==> r is Ok,
        pdu.wkc != expected ==> r == Err::<(), CommonError>(CommonError::UnexpectedWKC(pdu.wkc)),
{
    if pdu.wkc == expected {
        Ok(())
    } else {
        Err(CommonError::UnexpectedWKC(pdu.wkc))
    }
}

/// How a receive phase ended.
#[derive(Debug, Clone, Copy, PartialEq, Eq, Structural)]
pub enum RxRes {
    /// Every frame that was sent came back.
    Complete,
    /// The device refused to receive.
    DeviceError,
    /// The timer fired first.
    Timeout,
    /// The timer failed.
    TimerError,
}

/// What the countdown timer says when asked.
#[derive(Debug, Clone, Copy, PartialEq, Eq, Structural)]
pub enum TimerState {
    /// The time is up.
    Ready,
    /// The time is not up yet.
    WouldBlock,
    /// The timer failed.
    Error,
}

impl InterfaceView {
    /// Whether a PDU with a payload of `data_size` bytes can be added: the
    /// staging buffer has room for header, payload and working counter, and
    /// a frame of the MTU can hold it with all its headers.
    pub open spec fn spec_can_add(self, data_size: nat) -> bool {
        self.data_size + 12 + data_size <= self.buffer_size && data_size + 28 <= self.mtu
    }

    /// The interface after the PDU of `command` with the index `index` and
    /// the payload `data` was added.
    pub open spec fn spec_add_command(self, index: u8, command: Command, data: Seq<u8>) -> InterfaceView {
        InterfaceView {
            pdus: self.pdus.push(PduModel { index, command, data, wkc: 0 }),
            data_size: (self.data_size + 12 + data.len()) as nat,
            ..self
        }
    }

    /// Payload bytes that `remaing_capacity` reports.
    pub open spec fn spec_remaining_capacity(self) -> nat {
        if self.buffer_size - self.data_size >= 4 {
            (self.buffer_size - self.data_size - 4) as nat
        } else {
            0
        }
    }

    /// Whether the interface takes the PDUs of `frame`: a frame is awaited,
    /// this one is a well-formed EtherCAT frame no longer than the MTU, it
    /// is not one of the master's own, and its PDUs find room in the
    /// staging buffer.
    pub open spec fn spec_accepts(self, frame: Seq<u8>) -> bool {
        &&& self.expected_frames > 0
        &&& frame.len() <= self.mtu
        &&& spec_frame_well_formed(frame)
        &&& spec_frame_source(frame) != self.source_mac
        &&& self.data_size + spec_frame_pdu_length(frame) <= self.buffer_size
    }

    /// The interface after it has taken the PDUs of `frame`.
    pub open spec fn spec_after_frame(self, frame: Seq<u8>) -> InterfaceView {
        InterfaceView {
            pdus: self.pdus + spec_frame_pdus(frame),
            data_size: (self.data_size + spec_frame_pdu_length(frame)) as nat,
            expected_frames: (self.expected_frames - 1) as nat,
            ..self
        }
    }

    /// What one round of the receive loop decides, after the device was
    /// asked for a frame and the timer for the time: the end of the phase,
    /// or `None` for another round. A device that refuses ends the phase;
    /// so does the return of the last frame; with frames still outstanding
    /// the timer decides.
    pub open spec fn spec_receive_step(self, recv_granted: bool, timer: TimerState) -> Option<
        RxRes,
    > {
        if !recv_granted {
            Some(RxRes::DeviceError)
        } else if self.expected_frames == 0 {
            Some(RxRes::Complete)
        } else {
            match timer {
                TimerState::Ready => Some(RxRes::Timeout),
                TimerState::Error => Some(RxRes::TimerError),
                TimerState::WouldBlock => None,
            }
        }
    }
}

/// The result of a poll, from whether every frame could be sent and from how
/// the receive phase ended.
pub open spec fn spec_poll_result(transmitted: bool, received: RxRes) -> Result<(), CommonError> {
    if !transmitted {
        Err(CommonError::DeviceErrorTx)
    } else {
        match received {
            RxRes::Complete => Ok(()),
            RxRes::DeviceError => Err(CommonError::DeviceErrorRx),
            RxRes::Timeout => Err(CommonError::ReceiveTimeout),
            RxRes::TimerError => Err(CommonError::TimerError),
        }
    }
}

pub fn poll_result(transmitted: bool, received: RxRes) -> (r: Result<(), CommonError>)
    ensures
        r == spec_poll_result(transmitted, received),
{
    if !transmitted {
        return Err(CommonError::DeviceErrorTx);
    }
    match received {
        RxRes::Complete => Ok(()),
        RxRes::DeviceError => Err(CommonError::DeviceErrorRx),
        RxRes::Timeout => Err(CommonError::ReceiveTimeout),
        RxRes::TimerError => Err(CommonError::TimerError),
    }
}

impl<'a> EtherCATInterface<'a> {
    /// The bytes of the staging buffer that hold PDUs.
    pub closed spec fn staged(&self) -> Seq<u8> {
        self.buffer@.subrange(0, self.data_size as int)
    }

    /// What holds of every interface between two calls.
    pub closed spec fn wf(&self) -> bool {
        &&& self.buffer_size == self.buffer@.len()
        &&& self.data_size <= self.buffer_size
        &&& self.mtu <= MAX_FRAME_LENGTH
        &&& spec_pdus_valid(self.staged())
        &&& spec_pdus_fit(spec_parse_pdus(self.staged()), self.mtu as nat)
    }

    /// What `wf` says of the view: the PDUs take exactly the bytes counted,
    /// the staging buffer holds them, and each of them fits a frame.
    pub proof fn lemma_wf(&self)
        requires
            self.wf(),
        ensures
            self@.data_size == spec_pdus_size(self@.pdus),
            self@.data_size <= self@.buffer_size,
            self@.buffer_size <= usize::MAX,
            self@.mtu <= MAX_FRAME_LENGTH,
            self@.source_mac.len() == 6,
            spec_pdus_fit(self@.pdus, self@.mtu),
    {
        lemma_parse_size(self.staged());
    }

    /// An interface over `buffer` for a device that sends frames of up to
    /// `mtu` bytes, Ethernet header included, from the address `source_mac`.
    /// An MTU beyond what the length field of one EtherCAT frame can state
    /// counts as that limit.
    pub fn new(buffer: &'a mut [u8], mtu: usize, source_mac: [u8; 6]) -> (r: Self)
        ensures
            r.wf(),
            r@ == (InterfaceView {
                pdus: Seq::empty(),
                data_size: 0,
                buffer_size: old(buffer)@.len(),
                mtu: if mtu <= MAX_FRAME_LENGTH {
                    mtu as nat
                } else {
                    MAX_FRAME_LENGTH as nat
                },
                expected_frames: 0,
                source_mac: source_mac@,
            }),
    {
        let buffer_size = buffer.len();
        let r = Self {
            buffer,
            data_size: 0,
            buffer_size,
            should_recv_frames: 0,
            mtu: if mtu <= MAX_FRAME_LENGTH {
                mtu
            } else {
                MAX_FRAME_LENGTH
            },
            source_mac,
        };
        assert(r.staged() =~= Seq::<u8>::empty());
        assert(spec_parse_pdus(r.staged()) =~= Seq::<PduModel>::empty());
        r
    }

    /// Largest frame that the interface builds.
    pub fn max_transmission_unit(&self) -> (r: usize)
        ensures
            r == self@.mtu,
    {
        self.mtu
    }

    /// Bytes of the staging buffer that PDUs take.
    pub fn data_size(&self) -> (r: usize)
        ensures
            r == self@.data_size,
    {
        self.data_size
    }

    /// Payload bytes that a unit may ask for: the free bytes of the staging
    /// buffer less an EtherCAT header and a working counter, and zero where
    /// less than that is free.
    ///
    /// No payload that `add_command` takes is longer than this. A payload
    /// that is shorter by the eight bytes that a PDU header has more than an
    /// EtherCAT header is taken where the MTU allows it.
    pub fn remaing_capacity(&self) -> (r: usize)
        requires
            self.wf(),
        ensures
            r == self@.spec_remaining_capacity(),
            forall|n: nat| #[trigger] self@.spec_can_add(n) ==> n <= r,
            forall|n: nat| n + 8 <= r && n + 28 <= self@.mtu ==> #[trigger] self@.spec_can_add(n),
    {
        let free = self.buffer_size - self.data_size;
        if free >= 4 {
            free - 4
        } else {
            0
        }
    }

    /// Adds the PDU of `command` with the index `pdu_index` behind those in
    /// the staging buffer. Its payload has `data_size` bytes: those of
    /// `data` from the front, zero beyond them. Its working counter is zero.
    ///
    /// Fails with `BufferExhausted`, and changes nothing, where the staging
    /// buffer has no room for the PDU or the MTU does not allow the payload.
    #[verifier::rlimit(50)]
    pub fn add_command(
        &mut self,
        pdu_index: u8,
        command: Command,
        data_size: usize,
        data: &[u8],
    ) -> (r: Result<(), CommonError>)
        requires
            old(self).wf(),
        ensures
            final(self).wf(),
            old(self)@.spec_can_add(data_size as nat) ==> r is Ok && final(self)@ == old(
                self,
            )@.spec_add_command(pdu_index, command, spec_payload(data@, data_size as nat)),
            !old(self)@.spec_can_add(data_size as nat) ==> r == Err::<(), CommonError>(
                CommonError::BufferExhausted,
            ) && final(self)@ == old(self)@,
    {
        if data_size > self.buffer_size - self.data_size || self.buffer_size - self.data_size
            - data_size < 12 {
            return Err(CommonError::BufferExhausted);
        }
        if self.mtu < 28 || data_size > self.mtu - 28 {
            return Err(CommonError::BufferExhausted);
        }
        let ghost model = PduModel {
            index: pdu_index,
            command,
            data: spec_payload(data@, data_size as nat),
            wkc: 0,
        };
        let ghost before = self.staged();
        write_pdu(self.buffer, self.data_size, pdu_index, command, data_size, data, false);
        self.data_size = self.data_size + 12 + data_size;
        proof {
            let bytes = spec_pdu_bytes(model, false);
            lemma_pdu_round_trip(model, false);
            lemma_single_pdu_valid(model, false);
            assert(self.staged() =~= before + bytes);
            lemma_parse_append(before, bytes);
            assert(spec_parse_pdus(before) + seq![model] =~= spec_parse_pdus(before).push(model));
            assert(spec_pdus_fit(spec_parse_pdus(self.staged()), self.mtu as nat));
        }
        Ok(())
    }

    /// Hands out the PDUs of the staging buffer, in the order in which they
    /// came, and empties the buffer.
    pub fn consume_command(&mut self) -> (r: Vec<EtherCATPDU<'_>>)
        requires
            old(self).wf(),
        ensures
            final(self).wf(),
            spec_pdu_models(r@) == old(self)@.pdus,
            final(self)@ == (InterfaceView { pdus: Seq::empty(), data_size: 0, ..old(self)@ }),
    {
        let end = self.data_size;
        self.data_size = 0;
        proof {
            assert(self.staged() =~= Seq::<u8>::empty());
            assert(spec_parse_pdus(self.staged()) =~= Seq::<PduModel>::empty());
        }
        parse_pdus(self.buffer, 0, end)
    }

    /// The PDUs of the staging buffer, in the order in which they came. The
    /// buffer keeps them.
    pub fn peek_command(&self) -> (r: Vec<EtherCATPDU<'_>>)
        requires
            self.wf(),
        ensures
            spec_pdu_models(r@) == self@.pdus,
    {
        parse_pdus(self.buffer, 0, self.data_size)
    }

    /// Stages the read of `size` bytes at `register_address` of one slave,
    /// under the PDU index 255. The reply is taken with `register_reply`
    /// once a poll has brought it.
    pub fn read_register(
        &mut self,
        slave_address: SlaveAddress,
        register_address: u16,
        size: usize,
    ) -> (r: Result<(), CommonError>)
        requires
            old(self).wf(),
        ensures
            final(self).wf(),
            old(self)@.spec_can_add(size as nat) ==> r is Ok && final(self)@ == old(
                self,
            )@.spec_add_command(
                255,
                Command::spec_new_read(slave_address, register_address),
                spec_payload(Seq::empty(), size as nat),
            ),
            !old(self)@.spec_can_add(size as nat) ==> r == Err::<(), CommonError>(
                CommonError::BufferExhausted,
            ) && final(self)@ == old(self)@,
    {
        let empty: [u8; 0] = [];
        assert(spec_payload(empty@, size as nat) =~= spec_payload(Seq::empty(), size as nat));
        self.add_command(
            u8::MAX,
            Command::new_read(slave_address, register_address),
            size,
            empty.as_slice(),
        )
    }

    /// Stages the write of `size` bytes to `register_address` of one slave,
    /// under the PDU index 255: the bytes of `data` from the front, zero
    /// beyond them. The reply is taken with `register_reply` once a poll
    /// has brought it.
    pub fn write_register(
        &mut self,
        slave_address: SlaveAddress,
        register_address: u16,
        size: usize,
        data: &[u8],
    ) -> (r: Result<(), CommonError>)
        requires
            old(self).wf(),
        ensures
            final(self).wf(),
            old(self)@.spec_can_add(size as nat) ==> r is Ok && final(self)@ == old(
                self,
            )@.spec_add_command(
                255,
                Command::spec_new_write(slave_address, register_address),
                spec_payload(data@, size as nat),
            ),
            !old(self)@.spec_can_add(size as nat) ==> r == Err::<(), CommonError>(
                CommonError::BufferExhausted,
            ) && final(self)@ == old(self)@,
    {
        self.add_command(
            u8::MAX,
            Command::new_write(slave_address, register_address),
            size,
            data,
        )
    }

    /// Takes the reply to a register access: the last PDU of the staging
    /// buffer, which is emptied. Fails with `PacketDropped` where the buffer
    /// holds no PDU, and with `UnexpectedWKC` where the reply was not
    /// handled by exactly one slave.
    pub fn register_reply(&mut self) -> (r: Result<EtherCATPDU<'_>, CommonError>)
        requires
            old(self).wf(),
        ensures
            final(self).wf(),
            final(self)@ == (InterfaceView { pdus: Seq::empty(), data_size: 0, ..old(self)@ }),
            old(self)@.pdus.len() == 0 ==> (r matches Err(e) && e == CommonError::PacketDropped),
            old(self)@.pdus.len() > 0 && old(self)@.pdus.last().wkc != 1 ==> (r matches Err(e)
                && e == CommonError::UnexpectedWKC(old(self)@.pdus.last().wkc)),
            old(self)@.pdus.len() > 0 && old(self)@.pdus.last().wkc == 1 ==> (r matches Ok(pdu)
                && pdu@ == old(self)@.pdus.last()),
    {
        let pdus = self.consume_command();
        let n = pdus.len();
        if n == 0 {
            return Err(CommonError::PacketDropped);
        }
        let pdu = pdus[n - 1];
        assert(spec_pdu_models(pdus@)[n - 1] == pdu@);
        match check_wkc(&pdu, 1) {
            Err(err) => Err(err),
            Ok(_) => Ok(pdu),
        }
    }

    /// Drops what the staging buffer holds. Before a receive phase this
    /// makes the PDUs of the frames that come back collect from its start.
    pub fn clear(&mut self)
        requires
            old(self).wf(),
        ensures
            final(self).wf(),
            final(self)@ == (InterfaceView { pdus: Seq::empty(), data_size: 0, ..old(self)@ }),
    {
        self.data_size = 0;
        proof {
            assert(self.staged() =~= Seq::<u8>::empty());
            assert(spec_parse_pdus(self.staged()) =~= Seq::<PduModel>::empty());
        }
    }

    /// Notes that one more frame went out and is expected back.
    pub fn frame_sent(&mut self)
        requires
            old(self).wf(),
        ensures
            final(self).wf(),
            final(self)@ == (InterfaceView {
                expected_frames: if old(self)@.expected_frames < usize::MAX {
                    (old(self)@.expected_frames + 1) as nat
                } else {
                    old(self)@.expected_frames
                },
                ..old(self)@
            }),
    {
        if self.should_recv_frames < usize::MAX {
            self.should_recv_frames = self.should_recv_frames + 1;
        }
    }

    /// Whether a frame that was sent has not come back.
    pub fn awaiting_frames(&self) -> (r: bool)
        ensures
            r == (self@.expected_frames > 0),
    {
        self.should_recv_frames > 0
    }

    /// What one round of the receive loop decides.
    pub fn receive_step(&self, recv_granted: bool, timer: TimerState) -> (r: Option<RxRes>)
        ensures
            r == self@.spec_receive_step(recv_granted, timer),
    {
        if !recv_granted {
            return Some(RxRes::DeviceError);
        }
        if self.should_recv_frames == 0 {
            return Some(RxRes::Complete);
        }
        match timer {
            TimerState::Ready => Some(RxRes::Timeout),
            TimerState::Error => Some(RxRes::TimerError),
            TimerState::WouldBlock => None,
        }
    }

    /// Whether the source address of `frame` is the master's own.
    fn from_self(&self, frame: &[u8]) -> (r: bool)
        requires
            frame@.len() >= 16,
        ensures
            r == (spec_frame_source(frame@) == self.source_mac@),
    {
        let r = frame[6] == self.source_mac[0] && frame[7] == self.source_mac[1] && frame[8]
            == self.source_mac[2] && frame[9] == self.source_mac[3] && frame[10]
            == self.source_mac[4] && frame[11] == self.source_mac[5];
        proof {
            let src = spec_frame_source(frame@);
            assert(src.len() == 6);
            if r {
                assert(src =~= self.source_mac@);
            } else {
                assert(src[0] == frame@[6] && src[1] == frame@[7] && src[2] == frame@[8] && src[3]
                    == frame@[9] && src[4] == frame@[10] && src[5] == frame@[11]);
            }
        }
        r
    }

    /// Takes a frame that the device received. Where the interface accepts
    /// it, its PDUs go behind those in the staging buffer, byte for byte, and
    /// one frame less is expected; any other frame changes nothing.
    #[verifier::rlimit(50)]
    pub fn receive_frame(&mut self, frame: &[u8]) -> (accepted: bool)
        requires
            old(self).wf(),
        ensures
            final(self).wf(),
            accepted == old(self)@.spec_accepts(frame@),
            accepted ==> final(self)@ == old(self)@.spec_after_frame(frame@),
            !accepted ==> final(self)@ == old(self)@,
    {
        if self.should_recv_frames == 0 || frame.len() > self.mtu {
            return false;
        }
        if !frame_well_formed(frame) {
            return false;
        }
        let len: usize = frame[14] as usize + 256 * ((frame[15] % 8) as usize);
        if self.from_self(frame) {
            return false;
        }
        if self.buffer_size - self.data_size < len {
            return false;
        }
        let ghost before = self.staged();
        let ghost region = frame@.subrange(16, 16 + len);
        copy_bytes(self.buffer, self.data_size, frame, 16, len);
        self.data_size = self.data_size + len;
        self.should_recv_frames = self.should_recv_frames - 1;
        proof {
            assert(self.staged() =~= before + region);
            lemma_parse_append(before, region);
            lemma_parse_size(region);
            lemma_pdus_size_bounds_each(spec_parse_pdus(region));
            let joined = spec_parse_pdus(before) + spec_parse_pdus(region);
            assert forall|i: int| 0 <= i < joined.len() implies 16 + spec_pdu_size(
                #[trigger] joined[i],
            ) <= self.mtu by {
                if i >= spec_parse_pdus(before).len() {
                    assert(joined[i] == spec_parse_pdus(region)[i - spec_parse_pdus(before).len()]);
                } else {
                    assert(joined[i] == spec_parse_pdus(before)[i]);
                }
            }
        }
        true
    }
}

impl<'a> EtherCATInterface<'a> {
    /// PDU bytes that one frame may hold.
    fn frame_limit(&self) -> (r: usize)
        ensures
            r == spec_frame_limit(self.mtu as nat),
    {
        if self.mtu >= 16 {
            self.mtu - 16
        } else {
            0
        }
    }

    /// Finds where the frame that starts with the PDU at `off` ends: the
    /// offset behind its last PDU, and the number of its PDUs.
    #[verifier::rlimit(50)]
    fn chunk_end(&self, off: usize, Ghost(j): Ghost<int>) -> (r: (usize, usize))
        requires
            self.wf(),
            off < self.data_size,
            spec_staged_at(self.staged(), off as int, self@.pdus, j),
        ensures
            r.1 == spec_chunk_len(self@.pdus.skip(j), spec_frame_limit(self.mtu as nat)),
            1 <= r.1 <= self@.pdus.len() - j,
            off < r.0 <= self.data_size,
            r.0 - off == spec_pdus_size(self@.pdus.skip(j).take(r.1 as int)),
            spec_staged_at(self.staged(), r.0 as int, self@.pdus, j + r.1),
    {
        let limit = self.frame_limit();
        let ghost pdus = self@.pdus;
        let ghost rest = pdus.skip(j);
        let ghost s = self.staged();
        let mut cur: usize = off;
        let mut count: usize = 0;
        let mut go = true;
        proof {
            assert(rest.take(0) =~= Seq::<PduModel>::empty());
            assert(pdus.skip(j + 0) =~= rest);
        }
        while go && cur < self.data_size
            invariant
                self.wf(),
                pdus == self@.pdus,
                rest == pdus.skip(j),
                s == self.staged(),
                limit == spec_frame_limit(self.mtu as nat),
                off <= cur <= self.data_size,
                count <= cur - off,
                s.len() == self.data_size,
                0 <= j,
                j + count <= pdus.len(),
                spec_staged_at(s, cur as int, pdus, j + count),
                cur - off == spec_pdus_size(rest.take(count as int)),
                go ==> spec_fitting(rest, 0, limit as nat) == count + spec_fitting(
                    pdus.skip(j + count),
                    (cur - off) as nat,
                    limit as nat,
                ),
                !go ==> spec_fitting(rest, 0, limit as nat) == count,
            decreases self.data_size - cur + if go { 1int } else { 0int },
        {
            proof {
                lemma_staged_step(s, cur as int, pdus, j + count);
                assert(self.buffer@.subrange(cur as int, self.data_size as int) =~= s.skip(
                    cur as int,
                ));
            }
            match read_pdu(self.buffer, cur, self.data_size) {
                Some((_, next)) => {
                    if next - off <= limit {
                        proof {
                            let tail = pdus.skip(j + count);
                            assert(tail[0] == pdus[j + count]);
                            assert(tail.skip(1) =~= pdus.skip(j + count + 1));
                            lemma_take_one_more(rest, count as int);
                        }
                        cur = next;
                        count = count + 1;
                    } else {
                        proof {
                            let tail = pdus.skip(j + count);
                            assert(tail[0] == pdus[j + count]);
                        }
                        go = false;
                    }
                },
                None => {
                    go = false;
                },
            }
        }
        proof {
            if go {
                lemma_staged_end(s, pdus, j + count);
                assert(pdus.skip(j + count).len() == 0);
            }
        }
        if count == 0 {
            proof {
                lemma_staged_step(s, off as int, pdus, j);
                assert(self.buffer@.subrange(off as int, self.data_size as int) =~= s.skip(
                    off as int,
                ));
                lemma_take_one_more(rest, 0);
                assert(rest[0] == pdus[j]);
            }
            match read_pdu(self.buffer, off, self.data_size) {
                Some((_, next)) => (next, 1),
                None => (self.data_size, 1),
            }
        } else {
            (cur, count)
        }
    }

    /// Builds the frame of the `count` PDUs that stand from `off` to `end`.
    #[verifier::rlimit(50)]
    fn build_frame(&self, off: usize, end: usize, count: usize, Ghost(j): Ghost<int>) -> (r: Vec<
        u8,
    >)
        requires
            self.wf(),
            off <= end <= self.data_size,
            1 <= count,
            0 <= j,
            j + count <= self@.pdus.len(),
            end - off == spec_pdus_size(self@.pdus.skip(j).take(count as int)),
            end - off <= 2047,
            spec_staged_at(self.staged(), off as int, self@.pdus, j),
        ensures
            r@ == spec_frame_bytes(self@.source_mac, self@.pdus.skip(j).take(count as int)),
    {
        let ghost pdus = self@.pdus;
        let ghost chunk = pdus.skip(j).take(count as int);
        let ghost s = self.staged();
        let region_len = end - off;
        let mut out: Vec<u8> = vec![0u8; 16 + region_len];
        write_frame_headers(out.as_mut_slice(), self.source_mac);
        let mut cur: usize = off;
        let mut size: usize = 16;
        let mut last: usize = 0;
        let mut i: usize = 0;
        proof {
            lemma_parse_size(s);
            assert(pdus.skip(j + 0) =~= pdus.skip(j));
            assert(chunk.take(0) =~= Seq::<PduModel>::empty());
            assert(spec_sent_pdus(chunk.take(0)) =~= Seq::<PduModel>::empty());
        }
        while i < count
            invariant
                self.wf(),
                pdus == self@.pdus,
                chunk == pdus.skip(j).take(count as int),
                s == self.staged(),
                s.len() == self.data_size,
                0 <= j,
                j + count <= pdus.len(),
                i <= count,
                off <= cur <= self.data_size,
                region_len == spec_pdus_size(chunk),
                region_len <= 2047,
                out@.len() == 16 + region_len,
                spec_staged_at(s, cur as int, pdus, j + i),
                i < count ==> cur < self.data_size,
                spec_frame_in(
                    out@,
                    size as int,
                    last as int,
                    self.source_mac@,
                    spec_sent_pdus(chunk.take(i as int)),
                ),
            decreases count - i,
        {
            proof {
                lemma_staged_step(s, cur as int, pdus, j + i);
                assert(self.buffer@.subrange(cur as int, self.data_size as int) =~= s.skip(
                    cur as int,
                ));
                assert(chunk[i as int] == pdus[j + i]);
                lemma_take_one_more(chunk, i as int);
                crate::ethercat_frame::lemma_pdus_size_split(chunk, i + 1);
                crate::ethercat_frame::lemma_sent_size(chunk.take(i as int));
            }
            match read_pdu(self.buffer, cur, self.data_size) {
                Some((pdu, next)) => {
                    append_pdu(
                        out.as_mut_slice(),
                        size,
                        last,
                        pdu.index,
                        pdu.command,
                        pdu.data,
                        Ghost(self.source_mac@),
                        Ghost(spec_sent_pdus(chunk.take(i as int))),
                    );
                    proof {
                        assert(spec_sent_pdus(chunk.take(i as int)).push(
                            spec_sent_pdu(chunk[i as int]),
                        ) =~= spec_sent_pdus(chunk.take(i + 1)));
                        if i + 1 < count {
                            lemma_staged_next_exists(s, next as int, pdus, j + i + 1);
                        }
                    }
                    last = size;
                    size = size + 12 + pdu.data.len();
                    cur = next;
                },
                None => {},
            }
            i = i + 1;
        }
        proof {
            assert(chunk.take(count as int) =~= chunk);
            crate::ethercat_frame::lemma_sent_size(chunk);
            crate::ethercat_frame::lemma_sent_frame(self.source_mac@, chunk);
            assert(out@.subrange(0, 16 + region_len) =~= out@);
        }
        out
    }

    /// Packs the PDUs of the staging buffer into frames, in their order:
    /// each frame is filled while the next PDU still fits the MTU, and takes
    /// one PDU in any case. The staging buffer stays as it is.
    ///
    /// No frame is longer than the MTU, and no PDU is split.
    #[verifier::rlimit(50)]
    pub fn transmit(&self) -> (frames: Vec<Vec<u8>>)
        requires
            self.wf(),
        ensures
            spec_frames_view(frames@) == spec_frames(self@.source_mac, self@.pdus, self@.mtu),
            forall|k: int| 0 <= k < frames@.len() ==> (#[trigger] frames@[k])@.len() <= self@.mtu,
            crate::ethercat_frame::spec_frames_pdus(spec_frames_view(frames@))
                == crate::ethercat_frame::spec_sent_pdus(self@.pdus),
            frames@.len() <= self@.pdus.len(),
    {
        let ghost pdus = self@.pdus;
        let ghost s = self.staged();
        let ghost mac = self.source_mac@;
        let ghost mtu = self.mtu as nat;
        let mut frames: Vec<Vec<u8>> = Vec::new();
        let mut off: usize = 0;
        let ghost mut j: int = 0;
        proof {
            assert(s.skip(0) =~= s);
            assert(pdus.skip(0) =~= pdus);
            assert(spec_frames_view(frames@) =~= Seq::<Seq<u8>>::empty());
            self.lemma_wf();
        }
        while off < self.data_size
            invariant
                self.wf(),
                pdus == self@.pdus,
                s == self.staged(),
                mac == self.source_mac@,
                mtu == self.mtu,
                s.len() == self.data_size,
                off <= self.data_size,
                spec_staged_at(s, off as int, pdus, j),
                spec_pdus_fit(pdus, mtu),
                mtu <= MAX_FRAME_LENGTH,
                spec_frames_view(frames@) + spec_frames(mac, pdus.skip(j), mtu) == spec_frames(
                    mac,
                    pdus,
                    mtu,
                ),
            decreases self.data_size - off,
        {
            let (end, count) = self.chunk_end(off, Ghost(j));
            proof {
                let rest = pdus.skip(j);
                let chunk = rest.take(count as int);
                crate::ethercat_frame::lemma_fitting_bounds(rest, 0, spec_frame_limit(mtu));
                if spec_fitting(rest, 0, spec_frame_limit(mtu)) == 0 {
                    assert(chunk[0] == pdus[j]);
                    assert(chunk.skip(1) =~= Seq::<PduModel>::empty());
                    assert(spec_pdus_size(chunk) == spec_pdu_size(pdus[j]) + spec_pdus_size(
                        chunk.skip(1),
                    ));
                }
                assert(end - off <= 2047);
            }
            let frame = self.build_frame(off, end, count, Ghost(j));
            let ghost before = frames@;
            frames.push(frame);
            proof {
                let rest = pdus.skip(j);
                assert(rest.skip(count as int) =~= pdus.skip(j + count));
                assert(spec_frames_view(frames@) =~= spec_frames_view(before) + seq![frame@]);
                assert(spec_frames(mac, rest, mtu) =~= seq![
                    spec_frame_bytes(mac, rest.take(count as int)),
                ] + spec_frames(mac, pdus.skip(j + count), mtu));
                assert(spec_frames_view(frames@) + spec_frames(mac, pdus.skip(j + count), mtu)
                    =~= spec_frames_view(before) + spec_frames(mac, rest, mtu));
                j = j + count;
            }
            off = end;
        }
        proof {
            lemma_staged_end(s, pdus, j);
            assert(pdus.skip(j).len() == 0);
            assert(spec_frames(mac, pdus.skip(j), mtu) =~= Seq::<Seq<u8>>::empty());
            assert(spec_frames_view(frames@) =~= spec_frames(mac, pdus, mtu));
            lemma_frames_respect_mtu(mac, pdus, mtu);
            assert forall|k: int| 0 <= k < frames@.len() implies (#[trigger] frames@[k])@.len()
                <= mtu by {
                assert(spec_frames_view(frames@)[k] == frames@[k]@);
                assert(spec_frames(mac, pdus, mtu)[k].len() <= mtu);
            }
            assert(spec_frames_view(frames@).len() == frames@.len());
        }
        frames
    }
}

/// The first `k + 1` PDUs of a run take what the first `k` take and the next
/// one.
proof fn lemma_take_one_more(pdus: Seq<PduModel>, k: int)
    requires
        0 <= k < pdus.len(),
    ensures
        spec_pdus_size(pdus.take(k + 1)) == spec_pdus_size(pdus.take(k)) + spec_pdu_size(pdus[k]),
{
    crate::ethercat_frame::lemma_pdus_size_split(pdus.take(k + 1), k);
    assert(pdus.take(k + 1).take(k) =~= pdus.take(k));
    let last = pdus.take(k + 1).skip(k);
    assert(last =~= seq![pdus[k]]);
    assert(last.skip(1) =~= Seq::<PduModel>::empty());
    assert(spec_pdus_size(last) == spec_pdu_size(last[0]) + spec_pdus_size(last.skip(1)));
}

/// Where PDUs are left from `off`, `off` is not the end of the bytes.
proof fn lemma_staged_next_exists(s: Seq<u8>, off: int, pdus: Seq<PduModel>, j: int)
    requires
        spec_staged_at(s, off, pdus, j),
        j < pdus.len(),
    ensures
        off < s.len(),
{
    if off == s.len() {
        lemma_staged_end(s, pdus, j);
    }
}

impl InterfaceView {
    /// The interface after the PDUs `pdus` were added in their order, each
    /// under its index, with its command and its payload, as far as each
    /// found room; a PDU that finds none is left out.
    pub open spec fn spec_add_all(self, pdus: Seq<PduModel>) -> InterfaceView
        decreases pdus.len(),
    {
        if pdus.len() == 0 {
            self
        } else if self.spec_can_add(pdus[0].data.len()) {
            self.spec_add_command(pdus[0].index, pdus[0].command, pdus[0].data).spec_add_all(
                pdus.skip(1),
            )
        } else {
            self.spec_add_all(pdus.skip(1))
        }
    }

    /// Whether each of the PDUs `pdus` finds room when its turn comes.
    pub open spec fn spec_all_fit(self, pdus: Seq<PduModel>) -> bool
        decreases pdus.len(),
    {
        if pdus.len() == 0 {
            true
        } else {
            self.spec_can_add(pdus[0].data.len()) && self.spec_add_command(
                pdus[0].index,
                pdus[0].command,
                pdus[0].data,
            ).spec_all_fit(pdus.skip(1))
        }
    }
}

/// Commands that are added one after the other, each finding room, stand in
/// the interface behind those that were there, in the order in which they
/// were added, each with its index, command and payload and with a working
/// counter of zero. `consume_command` on an interface that was empty hands
/// out exactly them.
pub proof fn lemma_added_commands(v: InterfaceView, pdus: Seq<PduModel>)
    requires
        v.spec_all_fit(pdus),
    ensures
        v.spec_add_all(pdus).pdus == v.pdus + crate::ethercat_frame::spec_sent_pdus(pdus),
        v.spec_add_all(pdus).data_size == v.data_size + spec_pdus_size(pdus),
        v.spec_add_all(pdus).buffer_size == v.buffer_size,
    decreases pdus.len(),
{
    if pdus.len() == 0 {
        assert(v.pdus + crate::ethercat_frame::spec_sent_pdus(pdus) =~= v.pdus);
    } else {
        let next = v.spec_add_command(pdus[0].index, pdus[0].command, pdus[0].data);
        lemma_added_commands(next, pdus.skip(1));
        assert(next.pdus + crate::ethercat_frame::spec_sent_pdus(pdus.skip(1)) =~= v.pdus
            + crate::ethercat_frame::spec_sent_pdus(pdus));
    }
}

} // verus!
