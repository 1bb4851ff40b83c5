//! Wire formats: command types, PDUs as byte strings, and the headers of
//! mailbox, CoE and SDO messages.

use crate::interface::Command;
use vstd::prelude::*;

verus! {

pub const ETHERNET_HEADER_LENGTH: usize = 14;

pub const ETHERCAT_HEADER_LENGTH: usize = 2;

pub const ETHERCATPDU_HEADER_LENGTH: usize = 10;

pub const WKC_LENGTH: usize = 2;

/// EtherType of EtherCAT.
pub const ETHERCAT_TYPE: u16 = 0x88A4;

/// Largest payload that the 11-bit length field of a PDU can state.
pub const MAX_PDU_DATA_LENGTH: usize = 2047;

/// Largest frame whose PDUs the 11-bit length field of the EtherCAT header
/// can state.
pub const MAX_FRAME_LENGTH: usize = 2063;

/// The kinds of EtherCAT command.
#[derive(Debug, Clone, Copy, PartialEq, Eq, Structural)]
pub enum CommandType {
    /// No operation.
    NOP,
    /// Auto increment physical read.
    APRD,
    /// Auto increment physical write.
    APWR,
    /// Configured address physical read.
    FPRD,
    /// Configured address physical write.
    FPWR,
    /// Broadcast read.
    BRD,
    /// Broadcast write.
    BWR,
    /// Logical memory read.
    LRD,
    /// Logical memory write.
    LWR,
    /// Logical memory read write.
    LRW,
    /// Auto increment physical read multiple write.
    ARMW,
    /// Configured address physical read multiple write.
    FRMW,
    /// Any other command byte.
    Invalid,
}

impl CommandType {
    /// The command byte on the wire.
    pub open spec fn spec_code(self) -> u8 {
        match self {
            CommandType::NOP => 0x00,
            CommandType::APRD => 0x01,
            CommandType::APWR => 0x02,
            CommandType::FPRD => 0x04,
            CommandType::FPWR => 0x05,
            CommandType::BRD => 0x07,
            CommandType::BWR => 0x08,
            CommandType::LRD => 0x0A,
            CommandType::LWR => 0x0B,
            CommandType::LRW => 0x0C,
            CommandType::ARMW => 0x0D,
            CommandType::FRMW => 0x0E,
            CommandType::Invalid => 0xFF,
        }
    }

    /// The kind that a command byte stands for.
    pub open spec fn spec_new(v: u8) -> CommandType {
        if v == 0x00 {
            CommandType::NOP
        } else if v == 0x01 {
            CommandType::APRD
        } else if v == 0x02 {
            CommandType::APWR
        } else if v == 0x04 {
            CommandType::FPRD
        } else if v == 0x05 {
            CommandType::FPWR
        } else if v == 0x07 {
            CommandType::BRD
        } else if v == 0x08 {
            CommandType::BWR
        } else if v == 0x0A {
            CommandType::LRD
        } else if v == 0x0B {
            CommandType::LWR
        } else if v == 0x0C {
            CommandType::LRW
        } else if v == 0x0D {
            CommandType::ARMW
        } else if v == 0x0E {
            CommandType::FRMW
        } else {
            CommandType::Invalid
        }
    }

    pub fn code(self) -> (r: u8)
        ensures
            r == self.spec_code(),
    {
        match self {
            CommandType::NOP => 0x00,
            CommandType::APRD => 0x01,
            CommandType::APWR => 0x02,
            CommandType::FPRD => 0x04,
            CommandType::FPWR => 0x05,
            CommandType::BRD => 0x07,
            CommandType::BWR => 0x08,
            CommandType::LRD => 0x0A,
            CommandType::LWR => 0x0B,
            CommandType::LRW => 0x0C,
            CommandType::ARMW => 0x0D,
            CommandType::FRMW => 0x0E,
            CommandType::Invalid => 0xFF,
        }
    }

    pub fn new(v: u8) -> (r: CommandType)
        ensures
            r == CommandType::spec_new(v),
    {
        if v == 0x00 {
            CommandType::NOP
        } else if v == 0x01 {
            CommandType::APRD
        } else if v == 0x02 {
            CommandType::APWR
        } else if v == 0x04 {
            CommandType::FPRD
        } else if v == 0x05 {
            CommandType::FPWR
        } else if v == 0x07 {
            CommandType::BRD
        } else if v == 0x08 {
            CommandType::BWR
        } else if v == 0x0A {
            CommandType::LRD
        } else if v == 0x0B {
            CommandType::LWR
        } else if v == 0x0C {
            CommandType::LRW
        } else if v == 0x0D {
            CommandType::ARMW
        } else if v == 0x0E {
            CommandType::FRMW
        } else {
            CommandType::Invalid
        }
    }

    /// Decoding the byte of a kind gives the kind back.
    pub proof fn lemma_code_round_trip(c: CommandType)
        ensures
            CommandType::spec_new(c.spec_code()) == c,
    {
    }
}

/// Low byte of a 16-bit word.
pub open spec fn spec_lo(v: u16) -> u8 {
    (v % 256) as u8
}

/// High byte of a 16-bit word.
pub open spec fn spec_hi(v: u16) -> u8 {
    (v / 256) as u8
}

/// The 16-bit word whose little-endian bytes are `lo`, `hi`.
pub open spec fn spec_le16(lo: u8, hi: u8) -> u16 {
    (lo + 256 * hi) as u16
}

/// The 32-bit word whose little-endian bytes are `b0` to `b3`.
pub open spec fn spec_le32(b0: u8, b1: u8, b2: u8, b3: u8) -> u32 {
    (b0 + 256 * b1 + 65536 * b2 + 16777216 * b3) as u32
}

pub fn lo(v: u16) -> (r: u8)
    ensures
        r == spec_lo(v),
{
    (v % 256) as u8
}

pub fn hi(v: u16) -> (r: u8)
    ensures
        r == spec_hi(v),
{
    (v / 256) as u8
}

pub fn le16(lo: u8, hi: u8) -> (r: u16)
    ensures
        r == spec_le16(lo, hi),
{
    lo as u16 + 256 * (hi as u16)
}

pub fn le32(b0: u8, b1: u8, b2: u8, b3: u8) -> (r: u32)
    ensures
        r == spec_le32(b0, b1, b2, b3),
{
    b0 as u32 + 256 * (b1 as u32) + 65536 * (b2 as u32) + 16777216 * (b3 as u32)
}

/// Splitting a word into its bytes and joining them gives the word back.
pub proof fn lemma_le16_round_trip(v: u16)
    ensures
        spec_le16(spec_lo(v), spec_hi(v)) == v,
{
}

/// One PDU as the interface's callers see it.
#[verifier::ext_equal]
pub struct PduModel {
    pub index: u8,
    pub command: Command,
    pub data: Seq<u8>,
    pub wkc: u16,
}

/// The payload of `len` bytes that `data` fills from the front; what `data`
/// does not reach is zero.
pub open spec fn spec_payload(data: Seq<u8>, len: nat) -> Seq<u8> {
    Seq::new(len, |i: int| if i < data.len() { data[i] } else { 0u8 })
}

/// Second byte of the length word: the high bits of the length, and the
/// more-follows flag in bit 7.
pub open spec fn spec_length_hi(len: nat, more: bool) -> u8 {
    (len / 256 + if more { 128nat } else { 0nat }) as u8
}

/// The ten header bytes of a PDU: command type, index, ADP, ADO, the length
/// word and the interrupt word.
pub open spec fn spec_pdu_header(index: u8, command: Command, len: nat, more: bool) -> Seq<u8>
    recommends
        len <= MAX_PDU_DATA_LENGTH,
{
    seq![
        command.c_type.spec_code(),
        index,
        spec_lo(command.adp),
        spec_hi(command.adp),
        spec_lo(command.ado),
        spec_hi(command.ado),
        (len % 256) as u8,
        spec_length_hi(len, more),
        0u8,
        0u8,
    ]
}

/// A PDU on the wire: header, payload, working counter.
pub open spec fn spec_pdu_bytes(p: PduModel, more: bool) -> Seq<u8>
    recommends
        p.data.len() <= MAX_PDU_DATA_LENGTH,
{
    spec_pdu_header(p.index, p.command, p.data.len(), more) + p.data + seq![
        spec_lo(p.wkc),
        spec_hi(p.wkc),
    ]
}

/// Payload length that the header at the front of `s` states.
pub open spec fn spec_pdu_length(s: Seq<u8>) -> nat
    recommends
        s.len() >= ETHERCATPDU_HEADER_LENGTH,
{
    (s[6] + 256 * (s[7] % 8)) as nat
}

/// Whether the header at the front of `s` has its more-follows flag set.
pub open spec fn spec_pdu_more(s: Seq<u8>) -> bool
    recommends
        s.len() >= ETHERCATPDU_HEADER_LENGTH,
{
    s[7] >= 128
}

/// Whether `s` starts with a whole PDU.
pub open spec fn spec_pdu_head_ok(s: Seq<u8>) -> bool {
    s.len() >= 12 && 12 + spec_pdu_length(s) <= s.len()
}

/// The PDU at the front of `s`.
pub open spec fn spec_first_pdu(s: Seq<u8>) -> PduModel
    recommends
        spec_pdu_head_ok(s),
{
    let len = spec_pdu_length(s) as int;
    PduModel {
        index: s[1],
        command: Command {
            c_type: CommandType::spec_new(s[0]),
            adp: spec_le16(s[2], s[3]),
            ado: spec_le16(s[4], s[5]),
        },
        data: s.subrange(10, 10 + len),
        wkc: spec_le16(s[10 + len], s[11 + len]),
    }
}

/// Whether `s` is made of whole PDUs and nothing else.
pub open spec fn spec_pdus_valid(s: Seq<u8>) -> bool
    decreases s.len(),
{
    if s.len() == 0 {
        true
    } else {
        spec_pdu_head_ok(s) && spec_pdus_valid(s.skip(12 + spec_pdu_length(s) as int))
    }
}

/// The PDUs that `s` holds from its front, as far as whole ones follow each
/// other.
pub open spec fn spec_parse_pdus(s: Seq<u8>) -> Seq<PduModel>
    decreases s.len(),
{
    if !spec_pdu_head_ok(s) {
        Seq::empty()
    } else {
        seq![spec_first_pdu(s)] + spec_parse_pdus(s.skip(12 + spec_pdu_length(s) as int))
    }
}

/// The wire form of a run of PDUs without more-follows flags.
pub open spec fn spec_serialize_pdus(pdus: Seq<PduModel>) -> Seq<u8>
    decreases pdus.len(),
{
    if pdus.len() == 0 {
        Seq::empty()
    } else {
        spec_pdu_bytes(pdus[0], false) + spec_serialize_pdus(pdus.skip(1))
    }
}

/// Whether every PDU of the run has a payload that its length field can state.
pub open spec fn spec_pdus_encodable(pdus: Seq<PduModel>) -> bool {
    forall|i: int| 0 <= i < pdus.len() ==> (#[trigger] pdus[i]).data.len() <= MAX_PDU_DATA_LENGTH
}

/// The bytes of one PDU read back as that PDU, whatever the more-follows
/// flag.
pub proof fn lemma_pdu_round_trip(p: PduModel, more: bool)
    requires
        p.data.len() <= MAX_PDU_DATA_LENGTH,
    ensures
        spec_pdu_bytes(p, more).len() == 12 + p.data.len(),
        spec_pdu_head_ok(spec_pdu_bytes(p, more)),
        spec_pdu_length(spec_pdu_bytes(p, more)) == p.data.len(),
        spec_pdu_more(spec_pdu_bytes(p, more)) == more,
        spec_first_pdu(spec_pdu_bytes(p, more)) == p,
{
    let s = spec_pdu_bytes(p, more);
    let len = p.data.len();
    let h = spec_pdu_header(p.index, p.command, len, more);
    assert(h.len() == 10);
    assert(s.len() == 12 + len);
    assert(forall|i: int| 0 <= i < 10 ==> s[i] == h[i]);
    assert(s[6] == (len % 256) as u8);
    assert(s[7] == spec_length_hi(len, more));
    assert(len / 256 < 8);
    assert(s[7] % 8 == len / 256);
    assert(spec_pdu_length(s) == len);
    assert(s.subrange(10, 10 + len as int) =~= p.data);
    assert(s[10 + len as int] == spec_lo(p.wkc));
    assert(s[11 + len as int] == spec_hi(p.wkc));
    CommandType::lemma_code_round_trip(p.command.c_type);
    lemma_le16_round_trip(p.command.adp);
    lemma_le16_round_trip(p.command.ado);
    lemma_le16_round_trip(p.wkc);
    assert(s[0] == p.command.c_type.spec_code());
    assert(s[1] == p.index);
    assert(s[2] == spec_lo(p.command.adp));
    assert(s[3] == spec_hi(p.command.adp));
    assert(s[4] == spec_lo(p.command.ado));
    assert(s[5] == spec_hi(p.command.ado));
}

/// Whole PDUs followed by more bytes parse as those PDUs, then as whatever
/// the rest holds.
pub proof fn lemma_parse_append(a: Seq<u8>, b: Seq<u8>)
    requires
        spec_pdus_valid(a),
    ensures
        spec_parse_pdus(a + b) == spec_parse_pdus(a) + spec_parse_pdus(b),
        spec_pdus_valid(a + b) == spec_pdus_valid(b),
    decreases a.len(),
{
    if a.len() == 0 {
        assert(a + b =~= b);
        assert(spec_parse_pdus(a) =~= Seq::<PduModel>::empty());
        assert(spec_parse_pdus(a) + spec_parse_pdus(b) =~= spec_parse_pdus(b));
    } else {
        let t = 12 + spec_pdu_length(a) as int;
        let ab = a + b;
        assert(ab[6] == a[6] && ab[7] == a[7]);
        assert(spec_pdu_length(ab) == spec_pdu_length(a));
        assert(spec_pdu_head_ok(ab));
        assert(ab.skip(t) =~= a.skip(t) + b);
        lemma_parse_append(a.skip(t), b);
        assert(ab.subrange(10, t - 2) =~= a.subrange(10, t - 2));
        assert(spec_first_pdu(ab) == spec_first_pdu(a));
        assert(spec_parse_pdus(ab) =~= spec_parse_pdus(a) + spec_parse_pdus(b));
    }
}

/// A run of encodable PDUs, written to the wire and read back, is the run
/// itself: same count, same order, same index, command, payload and working
/// counter.
pub proof fn lemma_pdus_round_trip(pdus: Seq<PduModel>)
    requires
        spec_pdus_encodable(pdus),
    ensures
        spec_pdus_valid(spec_serialize_pdus(pdus)),
        spec_parse_pdus(spec_serialize_pdus(pdus)) == pdus,
    decreases pdus.len(),
{
    if pdus.len() == 0 {
        assert(spec_parse_pdus(spec_serialize_pdus(pdus)) =~= pdus);
    } else {
        let first = spec_pdu_bytes(pdus[0], false);
        let rest = spec_serialize_pdus(pdus.skip(1));
        lemma_pdu_round_trip(pdus[0], false);
        assert(spec_pdus_encodable(pdus.skip(1)));
        lemma_pdus_round_trip(pdus.skip(1));
        lemma_single_pdu_valid(pdus[0], false);
        lemma_parse_append(first, rest);
        assert(spec_parse_pdus(first + rest) =~= seq![pdus[0]] + pdus.skip(1));
        assert(seq![pdus[0]] + pdus.skip(1) =~= pdus);
    }
}

/// The bytes of one PDU are a valid run that holds exactly that PDU.
pub proof fn lemma_single_pdu_valid(p: PduModel, more: bool)
    requires
        p.data.len() <= MAX_PDU_DATA_LENGTH,
    ensures
        spec_pdus_valid(spec_pdu_bytes(p, more)),
        spec_parse_pdus(spec_pdu_bytes(p, more)) == seq![p],
{
    let s = spec_pdu_bytes(p, more);
    lemma_pdu_round_trip(p, more);
    let t = 12 + spec_pdu_length(s) as int;
    assert(s.skip(t).len() == 0);
    assert(spec_pdus_valid(s.skip(t)));
    assert(spec_parse_pdus(s.skip(t)) =~= Seq::<PduModel>::empty());
    assert(spec_parse_pdus(s) =~= seq![p]);
}

pub const MAILBOX_HEADER_LENGTH: usize = 6;

pub const COE_HEADER_LENGTH: usize = 2;

pub const SDO_HEADER_LENGTH: usize = 4;

pub const SDO_DOWNLOAD_NORMAL_HEADER_LENGTH: usize = 4;

/// The protocols that a mailbox carries.
#[derive(Debug, Clone, Copy, PartialEq, Eq, Structural)]
pub enum MailboxType {
    Error,
    AoE,
    EoE,
    CoE,
    FoE,
    SoE,
    VoE,
}

impl MailboxType {
    /// The protocol's number in the mailbox header.
    pub open spec fn spec_code(self) -> u8 {
        match self {
            MailboxType::Error => 0,
            MailboxType::AoE => 1,
            MailboxType::EoE => 2,
            MailboxType::CoE => 3,
            MailboxType::FoE => 4,
            MailboxType::SoE => 5,
            MailboxType::VoE => 15,
        }
    }

    pub fn code(self) -> (r: u8)
        ensures
            r == self.spec_code(),
            r < 16,
    {
        match self {
            MailboxType::Error => 0,
            MailboxType::AoE => 1,
            MailboxType::EoE => 2,
            MailboxType::CoE => 3,
            MailboxType::FoE => 4,
            MailboxType::SoE => 5,
            MailboxType::VoE => 15,
        }
    }
}

/// The service of a CoE message.
#[derive(Debug, Clone, Copy, PartialEq, Eq, Structural)]
pub enum CoeServiceType {
    Emergency,
    SdoReq,
    SdoRes,
    TxPdo,
    RxPdo,
    TxPdoRemoteReq,
    RxPdoRemoteReq,
    SdoInfo,
}

impl CoeServiceType {
    /// The service's number in the CoE header.
    pub open spec fn spec_code(self) -> u8 {
        match self {
            CoeServiceType::Emergency => 1,
            CoeServiceType::SdoReq => 2,
            CoeServiceType::SdoRes => 3,
            CoeServiceType::TxPdo => 4,
            CoeServiceType::RxPdo => 5,
            CoeServiceType::TxPdoRemoteReq => 6,
            CoeServiceType::RxPdoRemoteReq => 7,
            CoeServiceType::SdoInfo => 8,
        }
    }

    pub fn code(self) -> (r: u8)
        ensures
            r == self.spec_code(),
            r < 16,
    {
        match self {
            CoeServiceType::Emergency => 1,
            CoeServiceType::SdoReq => 2,
            CoeServiceType::SdoRes => 3,
            CoeServiceType::TxPdo => 4,
            CoeServiceType::RxPdo => 5,
            CoeServiceType::TxPdoRemoteReq => 6,
            CoeServiceType::RxPdoRemoteReq => 7,
            CoeServiceType::SdoInfo => 8,
        }
    }
}

/// The code with which a slave refuses an SDO transfer.
#[derive(Debug, Clone, Copy, PartialEq, Eq, Structural)]
pub struct AbortCode(pub u32);

/// The six bytes in front of every mailbox message.
#[derive(Debug, Clone, Copy, PartialEq, Eq, Structural)]
pub struct MailboxHeader {
    /// Bytes that follow the header.
    pub length: u16,
    /// Station address of the sender on the way to the master, of the
    /// addressee on the way to a slave.
    pub address: u16,
    /// Six bits.
    pub channel: u8,
    /// Two bits.
    pub priority: u8,
    /// Four bits.
    pub mailbox_type: u8,
    /// Three bits; 1 to 7 in use.
    pub count: u8,
}

impl MailboxHeader {
    /// Whether every field fits the bits that it has in the header.
    pub open spec fn spec_valid(self) -> bool {
        self.channel < 64 && self.priority < 4 && self.mailbox_type < 16 && self.count < 8
    }

    /// The header on the wire: length and address as little-endian words,
    /// channel and priority in one byte, type and counter in one byte. A
    /// field counts with the bits that it has.
    pub open spec fn spec_bytes(self) -> Seq<u8> {
        seq![
            spec_lo(self.length),
            spec_hi(self.length),
            spec_lo(self.address),
            spec_hi(self.address),
            (self.channel % 64 + 64 * (self.priority % 4)) as u8,
            (self.mailbox_type % 16 + 16 * (self.count % 8)) as u8,
        ]
    }

    /// The header that six bytes hold.
    pub open spec fn spec_from_bytes(b: Seq<u8>) -> MailboxHeader
        recommends
            b.len() >= 6,
    {
        MailboxHeader {
            length: spec_le16(b[0], b[1]),
            address: spec_le16(b[2], b[3]),
            channel: (b[4] % 64) as u8,
            priority: (b[4] / 64) as u8,
            mailbox_type: (b[5] % 16) as u8,
            count: ((b[5] / 16) % 8) as u8,
        }
    }

    pub fn new() -> (r: Self)
        ensures
            r == (MailboxHeader {
                length: 0,
                address: 0,
                channel: 0,
                priority: 0,
                mailbox_type: 0,
                count: 0,
            }),
    {
        MailboxHeader { length: 0, address: 0, channel: 0, priority: 0, mailbox_type: 0, count: 0 }
    }

    pub fn set_length(&mut self, length: u16)
        ensures
            *final(self) == (MailboxHeader { length, ..*old(self) }),
    {
        self.length = length;
    }

    pub fn set_address(&mut self, address: u16)
        ensures
            *final(self) == (MailboxHeader { address, ..*old(self) }),
    {
        self.address = address;
    }

    pub fn set_prioriry(&mut self, priority: u8)
        ensures
            *final(self) == (MailboxHeader { priority, ..*old(self) }),
    {
        self.priority = priority;
    }

    pub fn set_mailbox_type(&mut self, mailbox_type: u8)
        ensures
            *final(self) == (MailboxHeader { mailbox_type, ..*old(self) }),
    {
        self.mailbox_type = mailbox_type;
    }

    pub fn set_count(&mut self, count: u8)
        ensures
            *final(self) == (MailboxHeader { count, ..*old(self) }),
    {
        self.count = count;
    }

    pub fn to_bytes(&self) -> (r: [u8; 6])
        ensures
            r@ == self.spec_bytes(),
    {
        let r = [
            lo(self.length),
            hi(self.length),
            lo(self.address),
            hi(self.address),
            self.channel % 64 + 64 * (self.priority % 4),
            self.mailbox_type % 16 + 16 * (self.count % 8),
        ];
        assert(r@ =~= self.spec_bytes());
        r
    }

    /// Reads the header at the front of `b`; `None` where `b` is shorter
    /// than a header.
    pub fn from_bytes(b: &[u8]) -> (r: Option<MailboxHeader>)
        ensures
            b@.len() >= 6 ==> r == Some(MailboxHeader::spec_from_bytes(b@)),
            b@.len() < 6 ==> r is None,
    {
        if b.len() < 6 {
            return None;
        }
        Some(
            MailboxHeader {
                length: le16(b[0], b[1]),
                address: le16(b[2], b[3]),
                channel: b[4] % 64,
                priority: b[4] / 64,
                mailbox_type: b[5] % 16,
                count: (b[5] / 16) % 8,
            },
        )
    }

    /// A header whose fields fit their bits reads back from its bytes.
    pub proof fn lemma_round_trip(h: MailboxHeader)
        requires
            h.spec_valid(),
        ensures
            MailboxHeader::spec_from_bytes(h.spec_bytes()) == h,
    {
        lemma_le16_round_trip(h.length);
        lemma_le16_round_trip(h.address);
    }
}

/// First byte of an SDO header: the command specifier in the low three
/// bits, then the transfer type, the size indicator, two bits of data set
/// size and the complete access flag.
pub open spec fn spec_sdo_flags(
    command_specifier: u8,
    transfer_type: bool,
    size_indicator: bool,
    data_set_size: u8,
    complete_access: bool,
) -> u8
    recommends
        command_specifier < 8,
        data_set_size < 4,
{
    (command_specifier % 8 + (if transfer_type { 8int } else { 0int }) + (if size_indicator {
        16int
    } else {
        0int
    }) + 32 * (data_set_size % 4) + (if complete_access { 128int } else { 0int })) as u8
}

/// The command specifier that the first byte of an SDO header holds.
pub open spec fn spec_sdo_command_specifier(flags: u8) -> u8 {
    (flags % 8) as u8
}

pub fn sdo_flags(
    command_specifier: u8,
    transfer_type: bool,
    size_indicator: bool,
    data_set_size: u8,
    complete_access: bool,
) -> (r: u8)
    ensures
        r == spec_sdo_flags(
            command_specifier,
            transfer_type,
            size_indicator,
            data_set_size,
            complete_access,
        ),
        spec_sdo_command_specifier(r) == command_specifier % 8,
{
    command_specifier % 8 + (if transfer_type { 8u8 } else { 0u8 }) + (if size_indicator {
        16u8
    } else {
        0u8
    }) + 32 * (data_set_size % 4) + (if complete_access { 128u8 } else { 0u8 })
}

pub fn sdo_command_specifier(flags: u8) -> (r: u8)
    ensures
        r == spec_sdo_command_specifier(flags),
{
    flags % 8
}

/// The ten bytes in front of the data of an SDO download: the CoE header
/// with the service SDO request, the SDO header of a normal download that
/// states its size, for the object `index`:`sub_index`, and the size of the
/// data.
pub open spec fn spec_sdo_download_header(index: u16, sub_index: u8, size: u32) -> Seq<u8> {
    seq![
        0u8,
        (16 * CoeServiceType::SdoReq.spec_code()) as u8,
        spec_sdo_flags(1, false, true, 0, false),
        spec_lo(index),
        spec_hi(index),
        sub_index,
        (size % 256) as u8,
        ((size / 256) % 256) as u8,
        ((size / 65536) % 256) as u8,
        (size / 16777216) as u8,
    ]
}

pub fn sdo_download_header(index: u16, sub_index: u8, size: u32) -> (r: [u8; 10])
    ensures
        r@ == spec_sdo_download_header(index, sub_index, size),
{
    let r = [
        0u8,
        16 * CoeServiceType::SdoReq.code(),
        sdo_flags(1, false, true, 0, false),
        lo(index),
        hi(index),
        sub_index,
        (size % 256) as u8,
        ((size / 256) % 256) as u8,
        ((size / 65536) % 256) as u8,
        (size / 16777216) as u8,
    ];
    assert(r@ =~= spec_sdo_download_header(index, sub_index, size));
    r
}

/// The size that a download header states is the size it was built with.
pub proof fn lemma_sdo_download_size(index: u16, sub_index: u8, size: u32)
    ensures
        ({
            let h = spec_sdo_download_header(index, sub_index, size);
            spec_le32(h[6], h[7], h[8], h[9]) == size
        }),
        spec_sdo_command_specifier(spec_sdo_download_header(index, sub_index, size)[2]) == 1,
{
}

} // verus!
