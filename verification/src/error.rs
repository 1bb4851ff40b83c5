//! The failures of the interface and those that every unit can latch.

use vstd::prelude::*;

verus! {

/// Failures of the interface and of the raw device behind it.
#[derive(Debug, Clone, Copy, PartialEq, Eq, Structural)]
pub enum CommonError {
    /// The staging buffer or the MTU cannot take the PDU.
    BufferExhausted,
    /// The device gave no transmit token.
    DeviceErrorTx,
    /// The device refused to receive.
    DeviceErrorRx,
    /// The countdown timer failed.
    TimerError,
    /// The timer fired while frames were still outstanding.
    ReceiveTimeout,
    /// No reply PDU came back.
    PacketDropped,
    /// A reply carried another working counter than expected.
    UnexpectedWKC(u16),
}

/// Failures latched inside a unit.
#[derive(Debug, Copy, PartialEq, Eq)]
pub enum EcError<E> {
    /// The reply's command type or register address is not the emitted one.
    UnexpectedCommand,
    /// The reply's working counter is not the expected one.
    UnexpectedWKC(u16),
    /// No reply came back for the emitted command.
    LostCommand,
    /// A failure of the unit's own protocol.
    UnitSpecific(E),
}

impl<E: Copy> Clone for EcError<E> {
    fn clone(&self) -> (r: Self)
        ensures
            r == *self,
    {
        *self
    }
}

} // verus!
