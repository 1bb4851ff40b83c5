//! Addresses and bits of the slave registers that the state machines use.

use vstd::prelude::*;

verus! {

/// Physical layer of a slave port.
#[derive(Debug, Clone, Copy, PartialEq, Eq, Structural)]
pub enum PortPhysics {
    MII,
    EBUS,
}

/// The code with which a slave explains a refused state change.
#[derive(Debug, Clone, Copy, PartialEq, Eq, Structural)]
pub struct AlStatusCode(pub u16);

/// AL control register: requested state in the low nibble of byte 0, the
/// error acknowledge flag in bit 4.
pub const AL_CONTROL_ADDRESS: u16 = 0x0120;

pub const AL_CONTROL_SIZE: usize = 2;

/// AL status register: current state in the low nibble of byte 0, the change
/// error flag in bit 4, the status code in bytes 4 and 5.
pub const AL_STATUS_ADDRESS: u16 = 0x0130;

pub const AL_STATUS_SIZE: usize = 6;

/// SII access register: the owner flag in bit 0 of byte 0, reset access in
/// bit 1.
pub const SII_ACCESS_ADDRESS: u16 = 0x0500;

pub const SII_ACCESS_SIZE: usize = 2;

/// Status byte of sync manager 0 followed by its activation byte.
pub const SM0_STATUS_ADDRESS: u16 = 0x0805;

/// Status byte of sync manager 1 followed by its activation byte.
pub const SM1_STATUS_ADDRESS: u16 = 0x080D;

pub const SM_STATUS_SIZE: usize = 2;

/// The state nibble of an AL status or AL control byte.
pub open spec fn spec_state_nibble(b: u8) -> u8 {
    (b % 16) as u8
}

/// Whether bit 4 of an AL status or AL control byte is set.
pub open spec fn spec_flag_bit4(b: u8) -> bool {
    (b / 16) % 2 == 1
}

/// Byte 0 of an AL control register with the given state and flag.
pub open spec fn spec_al_control_byte(state: u8, acknowledge: bool) -> u8
    recommends
        state < 16,
{
    if acknowledge {
        (state + 16) as u8
    } else {
        state
    }
}

pub fn state_nibble(b: u8) -> (r: u8)
    ensures
        r == spec_state_nibble(b),
        r < 16,
{
    b % 16
}

pub fn flag_bit4(b: u8) -> (r: bool)
    ensures
        r == spec_flag_bit4(b),
{
    (b / 16) % 2 == 1
}

pub fn al_control_byte(state: u8, acknowledge: bool) -> (r: u8)
    requires
        state < 16,
    ensures
        r == spec_al_control_byte(state, acknowledge),
        spec_state_nibble(r) == state,
        spec_flag_bit4(r) == acknowledge,
{
    if acknowledge {
        state + 16
    } else {
        state
    }
}

/// Whether the mailbox-full flag, bit 3 of a sync manager status byte, is set.
pub open spec fn spec_mailbox_full(status: u8) -> bool {
    (status / 8) % 2 == 1
}

/// Whether the enable flag, bit 0 of a sync manager activation byte, is set.
pub open spec fn spec_sm_enabled(activation: u8) -> bool {
    activation % 2 == 1
}

pub fn mailbox_full(status: u8) -> (r: bool)
    ensures
        r == spec_mailbox_full(status),
{
    (status / 8) % 2 == 1
}

pub fn sm_enabled(activation: u8) -> (r: bool)
    ensures
        r == spec_sm_enabled(activation),
{
    activation % 2 == 1
}

} // verus!
