//! What the master keeps of each slave.

use crate::register::PortPhysics;
use vstd::prelude::*;
use vstd::std_specs::convert::FromSpecImpl;

verus! {

#[derive(Debug, Clone, Copy, PartialEq, Eq, Structural)]
pub enum SlaveError {
    PDINotOperational,
    UnexpectedALState,
    SMSettingsAreNotCorrect,
    WatchdogTimeout,
    PDOStateError,
    PDOControlError,
    PDOToggleError,
    EarlySMEvnet,
    SMEvnetJitterTooMuch,
    SMEventNotRecieved,
    OutputCalcAndCopyNotFinished,
    Sync0NotRecieved,
    Sync1NotRecieved,
    SyncEventNotDetected,
}

#[derive(Debug, Clone, Copy, PartialEq, Eq, Structural)]
pub struct SlaveID {
    pub vender_id: u16,
    pub product_code: u16,
    pub revision_number: u16,
}

impl Default for SlaveID {
    fn default() -> (r: Self)
        ensures
            r == (SlaveID { vender_id: 0, product_code: 0, revision_number: 0 }),
    {
        SlaveID { vender_id: 0, product_code: 0, revision_number: 0 }
    }
}

/// Application layer state of a slave.
#[derive(Debug, Clone, Copy, PartialEq, Eq, Hash, Structural)]
pub enum AlState {
    Init,
    PreOperational,
    Bootstrap,
    SafeOperational,
    Operational,
    InvalidOrMixed,
}

impl AlState {
    /// The state's number in the AL control and AL status registers.
    pub open spec fn spec_code(self) -> u8 {
        match self {
            AlState::Init => 1,
            AlState::PreOperational => 2,
            AlState::Bootstrap => 3,
            AlState::SafeOperational => 4,
            AlState::Operational => 8,
            AlState::InvalidOrMixed => 9,
        }
    }

    /// The state that a register value stands for; a value that names no
    /// single state is `InvalidOrMixed`.
    pub open spec fn spec_from_code(v: u8) -> AlState {
        if v == 1 {
            AlState::Init
        } else if v == 2 {
            AlState::PreOperational
        } else if v == 3 {
            AlState::Bootstrap
        } else if v == 4 {
            AlState::SafeOperational
        } else if v == 8 {
            AlState::Operational
        } else {
            AlState::InvalidOrMixed
        }
    }

    pub fn code(self) -> (r: u8)
        ensures
            r == self.spec_code(),
            r < 16,
    {
        match self {
            AlState::Init => 1,
            AlState::PreOperational => 2,
            AlState::Bootstrap => 3,
            AlState::SafeOperational => 4,
            AlState::Operational => 8,
            AlState::InvalidOrMixed => 9,
        }
    }

    /// Reading back a state's own number gives the state.
    pub proof fn lemma_code_round_trip(s: AlState)
        ensures
            AlState::spec_from_code(s.spec_code()) == s,
    {
    }
}

impl From<u8> for AlState {
    fn from(v: u8) -> (r: AlState) {
        if v == 1 {
            AlState::Init
        } else if v == 2 {
            AlState::PreOperational
        } else if v == 3 {
            AlState::Bootstrap
        } else if v == 4 {
            AlState::SafeOperational
        } else if v == 8 {
            AlState::Operational
        } else {
            AlState::InvalidOrMixed
        }
    }
}

impl FromSpecImpl<u8> for AlState {
    open spec fn obeys_from_spec() -> bool {
        true
    }

    open spec fn from_spec(v: u8) -> AlState {
        AlState::spec_from_code(v)
    }
}

impl Default for AlState {
    fn default() -> (r: Self)
        ensures
            r == AlState::InvalidOrMixed,
    {
        AlState::InvalidOrMixed
    }
}

#[derive(Debug, Clone, Copy, PartialEq, Eq, Structural)]
pub struct MailboxSyncManager {
    pub size: u16,
    pub start_address: u16,
}

#[derive(Debug, Clone, Copy, PartialEq, Eq, Structural)]
pub enum SyncManager {
    MailboxRx(MailboxSyncManager),
    MailboxTx(MailboxSyncManager),
    ProcessDataRx,
    ProcessDataTx,
}

#[derive(Debug, Clone, Copy, PartialEq, Eq, Structural)]
pub enum OperationMode {
    FreeRun,
    Sync0Event,
    Sync1Event,
    SyncManagerEvent,
}

impl Default for OperationMode {
    fn default() -> (r: Self)
        ensures
            r == OperationMode::FreeRun,
    {
        OperationMode::FreeRun
    }
}

#[derive(Debug)]
pub struct PDOEntry {
    pub index: u16,
    pub sub_index: u8,
    /// Length in bytes, not in bits.
    pub byte_length: u8,
    pub data: Vec<u8>,
}

#[derive(Debug)]
pub struct PDOMapping {
    pub entries: Vec<PDOEntry>,
}

/// Bookkeeping of the distributed clock initialisation.
#[derive(Debug, Clone, Copy, PartialEq, Eq)]
pub struct DCContext {
    pub parent_port: Option<(u16, u8)>,
    pub current_port: u8,
    pub recieved_port_time: [u32; 4],
    pub delay: u32,
    pub recieved_time: u64,
    pub offset: u64,
}

impl Default for DCContext {
    fn default() -> (r: Self)
        ensures
            r.parent_port is None,
            r.current_port == 0,
            r.recieved_port_time@ == seq![0u32, 0u32, 0u32, 0u32],
            r.delay == 0,
            r.recieved_time == 0,
            r.offset == 0,
    {
        DCContext {
            parent_port: None,
            current_port: 0,
            recieved_port_time: [0, 0, 0, 0],
            delay: 0,
            recieved_time: 0,
            offset: 0,
        }
    }
}

#[derive(Debug, Clone, Copy)]
pub struct SlaveInfo {
    pub id: SlaveID,
    pub ports: [Option<PortPhysics>; 4],
    pub ram_size_kb: u8,
    pub number_of_fmmu: u8,
    pub number_of_sm: u8,
    pub pdo_start_address: Option<u16>,
    pub pdo_ram_size: u16,
    pub sm0: Option<SyncManager>,
    pub sm1: Option<SyncManager>,
    pub sm2: Option<SyncManager>,
    pub sm3: Option<SyncManager>,
    pub support_dc: bool,
    pub is_dc_range_64bits: bool,
    pub support_fmmu_bit_operation: bool,
    pub support_lrw: bool,
    pub support_rw: bool,
    pub support_coe: bool,
}

/// What is known of a slave before anything was read from it, with the
/// ports `ports`.
pub open spec fn spec_default_info(ports: [Option<PortPhysics>; 4]) -> SlaveInfo {
    SlaveInfo {
        id: SlaveID { vender_id: 0, product_code: 0, revision_number: 0 },
        ports,
        ram_size_kb: 0,
        number_of_fmmu: 0,
        number_of_sm: 0,
        pdo_start_address: None,
        pdo_ram_size: 0,
        sm0: None,
        sm1: None,
        sm2: None,
        sm3: None,
        support_dc: false,
        is_dc_range_64bits: false,
        support_fmmu_bit_operation: false,
        support_lrw: false,
        support_rw: false,
        support_coe: false,
    }
}

impl Default for SlaveInfo {
    fn default() -> (r: Self)
        ensures
            r.id == (SlaveID { vender_id: 0, product_code: 0, revision_number: 0 }),
            forall|i: int| 0 <= i < 4 ==> r.ports@[i] is None,
            r.ram_size_kb == 0 && r.number_of_fmmu == 0 && r.number_of_sm == 0,
            r.pdo_start_address is None && r.pdo_ram_size == 0,
            r.sm0 is None && r.sm1 is None && r.sm2 is None && r.sm3 is None,
            !r.support_dc && !r.is_dc_range_64bits && !r.support_fmmu_bit_operation,
            !r.support_lrw && !r.support_rw && !r.support_coe,
            r == spec_default_info(r.ports),
    {
        SlaveInfo {
            id: SlaveID::default(),
            ports: [None, None, None, None],
            ram_size_kb: 0,
            number_of_fmmu: 0,
            number_of_sm: 0,
            pdo_start_address: None,
            pdo_ram_size: 0,
            sm0: None,
            sm1: None,
            sm2: None,
            sm3: None,
            support_dc: false,
            is_dc_range_64bits: false,
            support_fmmu_bit_operation: false,
            support_lrw: false,
            support_rw: false,
            support_coe: false,
        }
    }
}

/// The mailbox counter that follows `count`: the values 1 to 7 in a ring,
/// zero skipped.
pub open spec fn spec_next_mailbox_count(count: u8) -> u8 {
    if count < 7 {
        (count + 1) as u8
    } else {
        1
    }
}

/// A mailbox counter never becomes zero, and from a value of the ring the
/// next one is its successor, 1 after 7; seven steps lead back to the start.
pub proof fn lemma_mailbox_count_cycles(count: u8)
    ensures
        1 <= spec_next_mailbox_count(count) <= 7,
        1 <= count <= 7 ==> spec_next_mailbox_count(count) == count % 7 + 1,
        1 <= count <= 7 ==> spec_next_mailbox_count(
            spec_next_mailbox_count(
                spec_next_mailbox_count(
                    spec_next_mailbox_count(
                        spec_next_mailbox_count(
                            spec_next_mailbox_count(spec_next_mailbox_count(count)),
                        ),
                    ),
                ),
            ),
        ) == count,
{
}

/// One slave of the network with what the master has learnt of it.
#[derive(Debug)]
pub struct Slave {
    pub configured_address: u16,
    pub info: SlaveInfo,
    pub error: Option<SlaveError>,
    pub al_state: AlState,
    pub mailbox_count: u8,
    pub rx_pdo_mapping: Option<Vec<PDOMapping>>,
    pub tx_pdo_mapping: Option<Vec<PDOMapping>>,
    pub linked_ports: [bool; 4],
    pub dc_context: DCContext,
}

impl Slave {
    /// Advances the mailbox counter to the next value of its ring.
    pub fn increment_mb_count(&mut self)
        ensures
            *final(self) == (Slave {
                mailbox_count: spec_next_mailbox_count(old(self).mailbox_count),
                ..*old(self)
            }),
    {
        if self.mailbox_count < 7 {
            self.mailbox_count = self.mailbox_count + 1;
        } else {
            self.mailbox_count = 1;
        }
    }
}

impl Default for Slave {
    fn default() -> (r: Self)
        ensures
            r.configured_address == 0,
            r.error is None,
            r.al_state == AlState::InvalidOrMixed,
            r.mailbox_count == 0,
            r.rx_pdo_mapping is None,
            r.tx_pdo_mapping is None,
            r.linked_ports@ == seq![false, false, false, false],
            r.info == spec_default_info(r.info.ports),
            forall|i: int| 0 <= i < 4 ==> r.info.ports@[i] is None,
            r.dc_context.parent_port is None,
            r.dc_context.current_port == 0,
            r.dc_context.recieved_port_time@ == seq![0u32, 0u32, 0u32, 0u32],
            r.dc_context.delay == 0,
            r.dc_context.recieved_time == 0,
            r.dc_context.offset == 0,
    {
        Slave {
            configured_address: 0,
            info: SlaveInfo::default(),
            error: None,
            al_state: AlState::default(),
            mailbox_count: 0,
            rx_pdo_mapping: None,
            tx_pdo_mapping: None,
            linked_ports: [false, false, false, false],
            dc_context: DCContext::default(),
        }
    }
}

} // verus!
