//! A mailbox exchange with one slave, step by step: the caller sends the
//! command of each phase and hands the reply's payload back.

use crate::packet::le16;
use crate::packet::MAILBOX_HEADER_LENGTH;
use crate::packet::MailboxHeader;
use crate::packet::MailboxType;
use crate::packet::spec_le16;
use crate::register::mailbox_full;
use crate::register::sm_enabled;
use crate::register::spec_mailbox_full;
use crate::register::spec_sm_enabled;
use vstd::prelude::*;

verus! {

/// Time allowed for the reply to one command, in nanoseconds.
pub const MB_RECV_TIMEOUT_NS: u64 = 1_000_000_000;

/// Bytes of the mailbox that the exchange writes and reads.
pub const MAILBOX_DATAGRAM_LENGTH: usize = 512;

/// Why a mailbox exchange failed.
#[derive(Debug, Clone, Copy, PartialEq, Eq, Structural)]
pub enum MailboxError {
    /// A reply is too short for what is read from it.
    SmallBuffer,
    /// The sync manager of the mailbox is switched off.
    MailboxDisable,
    /// The mailbox did not change within this many attempts.
    MailboxTimeout(u64),
    /// The message does not fit the mailbox.
    MaxMailboxLength,
    /// The slave answered with an error message; its detail code.
    Mailbox(u8),
}

/// Whether the two status bytes of a sync manager report a full mailbox;
/// a failure where they are missing or the sync manager is switched off.
pub open spec fn spec_mailbox_status(data: Seq<u8>) -> Result<bool, MailboxError> {
    if data.len() < 2 {
        Err(MailboxError::SmallBuffer)
    } else if !spec_sm_enabled(data[1]) {
        Err(MailboxError::MailboxDisable)
    } else {
        Ok(spec_mailbox_full(data[0]))
    }
}

/// Whether the mailbox of sync manager 0 is empty, from its status bytes.
pub open spec fn spec_is_sm0_mailbox_empty(data: Seq<u8>) -> Result<bool, MailboxError> {
    match spec_mailbox_status(data) {
        Ok(full) => Ok(!full),
        Err(e) => Err(e),
    }
}

/// Whether the mailbox of sync manager 1 is full, from its status bytes.
pub open spec fn spec_is_sm1_mailbox_full(data: Seq<u8>) -> Result<bool, MailboxError> {
    spec_mailbox_status(data)
}

pub fn is_sm0_mailbox_empty(data: &[u8]) -> (r: Result<bool, MailboxError>)
    ensures
        r == spec_is_sm0_mailbox_empty(data@),
{
    if data.len() < 2 {
        return Err(MailboxError::SmallBuffer);
    }
    if !sm_enabled(data[1]) {
        return Err(MailboxError::MailboxDisable);
    }
    Ok(!mailbox_full(data[0]))
}

pub fn is_sm1_mailbox_full(data: &[u8]) -> (r: Result<bool, MailboxError>)
    ensures
        r == spec_is_sm1_mailbox_full(data@),
{
    if data.len() < 2 {
        return Err(MailboxError::SmallBuffer);
    }
    if !sm_enabled(data[1]) {
        return Err(MailboxError::MailboxDisable);
    }
    Ok(mailbox_full(data[0]))
}

/// What a wait decides after one look at the mailbox.
#[derive(Debug, Clone, Copy, PartialEq, Eq, Structural)]
pub enum WaitStep {
    /// The mailbox is as awaited.
    Ready,
    /// Look again; the value is the number of looks made.
    Again(u64),
    /// The wait failed.
    Failed(MailboxError),
}

/// What a wait decides after `iter` failed looks and one more look with the
/// result `ready`: a failed look is handed on, a mailbox as awaited ends
/// the wait, and any other look is repeated until `max_attempt` looks have
/// failed before it.
pub open spec fn spec_wait_step(iter: u64, max_attempt: u64, ready: Result<bool, MailboxError>) -> WaitStep {
    match ready {
        Err(e) => WaitStep::Failed(e),
        Ok(true) => WaitStep::Ready,
        Ok(false) => if iter >= max_attempt {
            WaitStep::Failed(MailboxError::MailboxTimeout(max_attempt))
        } else {
            WaitStep::Again((iter + 1) as u64)
        },
    }
}

/// One round of the wait for an empty mailbox of sync manager 0, from the
/// status bytes read.
pub fn wait_sm0_mailbox_empty(iter: u64, max_attempt: u64, status: &[u8]) -> (r: WaitStep)
    ensures
        r == spec_wait_step(iter, max_attempt, spec_is_sm0_mailbox_empty(status@)),
{
    match is_sm0_mailbox_empty(status) {
        Err(e) => WaitStep::Failed(e),
        Ok(true) => WaitStep::Ready,
        Ok(false) => {
            if iter >= max_attempt {
                WaitStep::Failed(MailboxError::MailboxTimeout(max_attempt))
            } else {
                WaitStep::Again(iter + 1)
            }
        },
    }
}

/// One round of the wait for a full mailbox of sync manager 1, from the
/// status bytes read.
pub fn wait_sm1_mailbox_full(iter: u64, max_attempt: u64, status: &[u8]) -> (r: WaitStep)
    ensures
        r == spec_wait_step(iter, max_attempt, spec_is_sm1_mailbox_full(status@)),
{
    match is_sm1_mailbox_full(status) {
        Err(e) => WaitStep::Failed(e),
        Ok(true) => WaitStep::Ready,
        Ok(false) => {
            if iter >= max_attempt {
                WaitStep::Failed(MailboxError::MailboxTimeout(max_attempt))
            } else {
                WaitStep::Again(iter + 1)
            }
        },
    }
}

/// The mailbox datagram of a message: the header, the message, zeros up to
/// the length of the mailbox.
pub open spec fn spec_mailbox_datagram(
    station_addr: u16,
    mailbox_type: MailboxType,
    data: Seq<u8>,
    mailbox_count: u8,
) -> Seq<u8>
    recommends
        data.len() <= MAILBOX_DATAGRAM_LENGTH - MAILBOX_HEADER_LENGTH,
{
    let header = MailboxHeader {
        length: data.len() as u16,
        address: station_addr,
        channel: 0,
        priority: 0,
        mailbox_type: mailbox_type.spec_code(),
        count: mailbox_count,
    };
    header.spec_bytes() + data + Seq::new(
        (MAILBOX_DATAGRAM_LENGTH - MAILBOX_HEADER_LENGTH - data.len()) as nat,
        |i: int| 0u8,
    )
}

/// Composes the datagram that carries `data` to the mailbox of a slave.
/// Fails with `MaxMailboxLength` where the message does not fit.
pub fn send_mailbox(
    station_addr: u16,
    mailbox_type: MailboxType,
    data: &[u8],
    mailbox_count: u8,
) -> (r: Result<Vec<u8>, MailboxError>)
    requires
        1 <= mailbox_count <= 7,
    ensures
        data@.len() > MAILBOX_DATAGRAM_LENGTH - MAILBOX_HEADER_LENGTH ==> r == Err::<
            Vec<u8>,
            MailboxError,
        >(MailboxError::MaxMailboxLength),
        data@.len() <= MAILBOX_DATAGRAM_LENGTH - MAILBOX_HEADER_LENGTH ==> (r matches Ok(datagram)
            && datagram@ == spec_mailbox_datagram(
            station_addr,
            mailbox_type,
            data@,
            mailbox_count,
        ) && datagram@.len() == MAILBOX_DATAGRAM_LENGTH),
{
    let data_len = data.len();
    if data_len > MAILBOX_DATAGRAM_LENGTH - MAILBOX_HEADER_LENGTH {
        return Err(MailboxError::MaxMailboxLength);
    }
    let mut mailbox = MailboxHeader::new();
    mailbox.set_length(data_len as u16);
    mailbox.set_address(station_addr);
    mailbox.set_prioriry(0);
    mailbox.set_mailbox_type(mailbox_type.code());
    mailbox.set_count(mailbox_count);
    let header = mailbox.to_bytes();
    let mut datagram: Vec<u8> = Vec::new();
    let mut i: usize = 0;
    while i < MAILBOX_HEADER_LENGTH
        invariant
            i <= MAILBOX_HEADER_LENGTH,
            header@.len() == 6,
            datagram@ == header@.take(i as int),
        decreases MAILBOX_HEADER_LENGTH - i,
    {
        datagram.push(header[i]);
        i = i + 1;
        assert(datagram@ =~= header@.take(i as int));
    }
    assert(header@.take(6) =~= header@);
    i = 0;
    while i < data_len
        invariant
            i <= data_len,
            data_len == data@.len(),
            datagram@ == header@ + data@.take(i as int),
        decreases data_len - i,
    {
        datagram.push(data[i]);
        i = i + 1;
        assert(datagram@ =~= header@ + data@.take(i as int));
    }
    assert(data@.take(data_len as int) =~= data@);
    let ghost filled = datagram@;
    while datagram.len() < MAILBOX_DATAGRAM_LENGTH
        invariant
            filled.len() <= datagram@.len() <= MAILBOX_DATAGRAM_LENGTH,
            datagram@ == filled + Seq::new((datagram@.len() - filled.len()) as nat, |i: int| 0u8),
        decreases MAILBOX_DATAGRAM_LENGTH - datagram@.len(),
    {
        let ghost before = datagram@;
        datagram.push(0);
        assert(datagram@ =~= filled + Seq::new(
            (datagram@.len() - filled.len()) as nat,
            |i: int| 0u8,
        ));
    }
    Ok(datagram)
}

/// Where a mailbox exchange stands.
#[derive(Debug, Clone, Copy, PartialEq, Eq, Structural)]
pub enum Phase {
    /// Looking whether an old message waits in the slave's send mailbox.
    DrainCheck,
    /// Reading an old message out of the way.
    DrainRead,
    /// Waiting for the slave's receive mailbox to empty; looks made.
    WaitEmpty(u64),
    /// Writing the message.
    Send,
    /// Waiting for the slave's answer; looks made.
    WaitFull(u64),
    /// Reading the answer.
    Receive,
    /// The answer to the message came.
    Done,
    /// The exchange failed.
    Failed(MailboxError),
}

/// The command that a phase calls for.
#[derive(Debug, Clone, Copy, PartialEq, Eq, Structural)]
pub enum Action {
    /// Read the two status bytes of sync manager 0.
    ReadSm0Status,
    /// Read the two status bytes of sync manager 1.
    ReadSm1Status,
    /// Read the mailbox of sync manager 1.
    ReadMailbox,
    /// Write the datagram to the mailbox of sync manager 0.
    WriteMailbox,
    /// Nothing more: the exchange is over.
    Finish,
}

/// What the answer in the mailbox says of the exchange: an error message
/// ends it with the low byte of its detail code, an answer with the counter
/// of the message completes it, and any other answer leaves it waiting.
pub open spec fn spec_answer(reply: Seq<u8>, mailbox_count: u8) -> Phase {
    if reply.len() <= MAILBOX_HEADER_LENGTH {
        Phase::Failed(MailboxError::SmallBuffer)
    } else if MailboxHeader::spec_from_bytes(reply).mailbox_type == MailboxType::Error.spec_code() {
        if reply.len() < MAILBOX_HEADER_LENGTH + 4 {
            Phase::Failed(MailboxError::SmallBuffer)
        } else {
            Phase::Failed(MailboxError::Mailbox((spec_le16(reply[8], reply[9]) % 256) as u8))
        }
    } else if MailboxHeader::spec_from_bytes(reply).count == mailbox_count {
        Phase::Done
    } else {
        Phase::WaitFull(0)
    }
}

/// The phase that follows `phase` once the reply to its command has come
/// with the payload `reply`.
pub open spec fn spec_mailbox(
    phase: Phase,
    reply: Seq<u8>,
    mailbox_count: u8,
    mailbox_timeout_millis: u64,
) -> Phase {
    match phase {
        Phase::DrainCheck => match spec_is_sm1_mailbox_full(reply) {
            Err(e) => Phase::Failed(e),
            Ok(true) => Phase::DrainRead,
            Ok(false) => Phase::WaitEmpty(0),
        },
        Phase::DrainRead => Phase::DrainCheck,
        Phase::WaitEmpty(iter) => match spec_wait_step(
            iter,
            mailbox_timeout_millis,
            spec_is_sm0_mailbox_empty(reply),
        ) {
            WaitStep::Ready => Phase::Send,
            WaitStep::Again(n) => Phase::WaitEmpty(n),
            WaitStep::Failed(e) => Phase::Failed(e),
        },
        Phase::Send => Phase::WaitFull(0),
        Phase::WaitFull(iter) => match spec_wait_step(
            iter,
            mailbox_timeout_millis,
            spec_is_sm1_mailbox_full(reply),
        ) {
            WaitStep::Ready => Phase::Receive,
            WaitStep::Again(n) => Phase::WaitFull(n),
            WaitStep::Failed(e) => Phase::Failed(e),
        },
        Phase::Receive => spec_answer(reply, mailbox_count),
        Phase::Done => Phase::Done,
        Phase::Failed(e) => Phase::Failed(e),
    }
}

/// The command that `phase` calls for.
pub open spec fn spec_action(phase: Phase) -> Action {
    match phase {
        Phase::DrainCheck => Action::ReadSm1Status,
        Phase::DrainRead => Action::ReadMailbox,
        Phase::WaitEmpty(_) => Action::ReadSm0Status,
        Phase::Send => Action::WriteMailbox,
        Phase::WaitFull(_) => Action::ReadSm1Status,
        Phase::Receive => Action::ReadMailbox,
        Phase::Done => Action::Finish,
        Phase::Failed(_) => Action::Finish,
    }
}

pub fn action(phase: Phase) -> (r: Action)
    ensures
        r == spec_action(phase),
{
    match phase {
        Phase::DrainCheck => Action::ReadSm1Status,
        Phase::DrainRead => Action::ReadMailbox,
        Phase::WaitEmpty(_) => Action::ReadSm0Status,
        Phase::Send => Action::WriteMailbox,
        Phase::WaitFull(_) => Action::ReadSm1Status,
        Phase::Receive => Action::ReadMailbox,
        Phase::Done => Action::Finish,
        Phase::Failed(_) => Action::Finish,
    }
}

/// One step of a mailbox exchange: the phase that follows `phase` once the
/// reply to its command has come with the payload `reply`. The exchange
/// begins in `DrainCheck` and is over in `Done` and in `Failed`.
pub fn mailbox(phase: Phase, reply: &[u8], mailbox_count: u8, mailbox_timeout_millis: u64) -> (r:
    Phase)
    ensures
        r == spec_mailbox(phase, reply@, mailbox_count, mailbox_timeout_millis),
{
    match phase {
        Phase::DrainCheck => match is_sm1_mailbox_full(reply) {
            Err(e) => Phase::Failed(e),
            Ok(true) => Phase::DrainRead,
            Ok(false) => Phase::WaitEmpty(0),
        },
        Phase::DrainRead => Phase::DrainCheck,
        Phase::WaitEmpty(iter) => match wait_sm0_mailbox_empty(
            iter,
            mailbox_timeout_millis,
            reply,
        ) {
            WaitStep::Ready => Phase::Send,
            WaitStep::Again(n) => Phase::WaitEmpty(n),
            WaitStep::Failed(e) => Phase::Failed(e),
        },
        Phase::Send => Phase::WaitFull(0),
        Phase::WaitFull(iter) => match wait_sm1_mailbox_full(iter, mailbox_timeout_millis, reply) {
            WaitStep::Ready => Phase::Receive,
            WaitStep::Again(n) => Phase::WaitFull(n),
            WaitStep::Failed(e) => Phase::Failed(e),
        },
        Phase::Receive => {
            if reply.len() <= MAILBOX_HEADER_LENGTH {
                return Phase::Failed(MailboxError::SmallBuffer);
            }
            match MailboxHeader::from_bytes(reply) {
                None => Phase::Failed(MailboxError::SmallBuffer),
                Some(header) => {
                    if header.mailbox_type == MailboxType::Error.code() {
                        if reply.len() < MAILBOX_HEADER_LENGTH + 4 {
                            Phase::Failed(MailboxError::SmallBuffer)
                        } else {
                            let detail = le16(reply[8], reply[9]);
                            Phase::Failed(MailboxError::Mailbox((detail % 256) as u8))
                        }
                    } else if header.count == mailbox_count {
                        Phase::Done
                    } else {
                        Phase::WaitFull(0)
                    }
                },
            }
        },
        Phase::Done => Phase::Done,
        Phase::Failed(e) => Phase::Failed(e),
    }
}

} // verus!
