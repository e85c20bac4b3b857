//! The card as contracts speak of it, and the plain values round it: what
//! the PCI bus reports of a device, the memory that a card owns, and the
//! errors of a construction.

use vstd::prelude::*;
use crate::bar::Bar;
use crate::platform::Command;
use crate::regs::{RX_DESC_COUNT, TX_DESC_COUNT};
use crate::ring::{region_fits, ring_fits, RX_ARENA_BYTES, RX_RING_BYTES, TX_RING_BYTES};

verus! {

/// Why a card could not be constructed.
#[derive(Clone, Copy, Debug, PartialEq, Eq)]
pub enum NicError {
    /// The device has no PCI status or command word.
    InvalidPciInfo,
    /// The device has no usable BAR0.
    InvalidBar,
    /// A descriptor ring or the packet arena could not be allocated.
    OutOfMemory,
}

impl NicError {
    /// The text of the message for this error.
    pub open spec fn text(self) -> Seq<char> {
        match self {
            NicError::InvalidPciInfo => "Invalid PCI informations for NIC"@,
            NicError::InvalidBar => "Invalid BAR for NIC"@,
            NicError::OutOfMemory => "Memory allocation failed"@,
        }
    }

    /// A static description of the error, for the log.
    pub fn message(&self) -> (m: &'static str)
        ensures
            m@ == self.text(),
    {
        match self {
            NicError::InvalidPciInfo => "Invalid PCI informations for NIC",
            NicError::InvalidBar => "Invalid BAR for NIC",
            NicError::OutOfMemory => "Memory allocation failed",
        }
    }
}

/// What the PCI bus reports of a device, as far as the driver reads it.
#[derive(Clone, Copy, Debug, PartialEq, Eq)]
pub struct PciDevice {
    /// Vendor identifier.
    pub vendor_id: u16,
    /// Device identifier.
    pub device_id: u16,
    /// The status word of configuration space, if the device has one.
    pub status_reg: Option<u16>,
    /// The command word of configuration space, if the device has one.
    pub command_reg: Option<u16>,
    /// BAR0, if the device has one that can be used.
    pub bar0: Option<Bar>,
}

/// A network-layer address.
#[derive(Clone, Copy, Debug, PartialEq, Eq)]
pub enum Address {
    /// An IPv4 address.
    IPv4([u8; 4]),
    /// An IPv6 address.
    IPv6([u8; 16]),
}

/// An address bound to an interface, with the length of its subnet prefix.
#[derive(Clone, Copy, Debug, PartialEq, Eq)]
pub struct BindAddress {
    /// The address.
    pub addr: Address,
    /// Number of leading bits that name the subnet.
    pub subnet_mask: u8,
}

/// The memory that a card owns, by physical address.
#[derive(Clone, Copy, Debug, PartialEq, Eq)]
pub struct RingMemory {
    /// The receive descriptor array, `RX_RING_BYTES` long.
    pub rx_ring: u64,
    /// The packet arena, `RX_ARENA_BYTES` long.
    pub rx_arena: u64,
    /// The transmit descriptor array, `TX_RING_BYTES` long.
    pub tx_ring: u64,
}

impl RingMemory {
    /// Whether both rings are aligned and all three regions end inside the
    /// address space.
    pub open spec fn wf(self) -> bool {
        &&& ring_fits(self.rx_ring, RX_RING_BYTES)
        &&& region_fits(self.rx_arena, RX_ARENA_BYTES)
        &&& ring_fits(self.tx_ring, TX_RING_BYTES)
    }

    /// The commands that give all three regions back, in the reverse
    /// order of their allocation.
    pub open spec fn release_commands(self) -> Seq<Command> {
        seq![
            Command::Free { addr: self.tx_ring, bytes: TX_RING_BYTES },
            Command::Free { addr: self.rx_arena, bytes: RX_ARENA_BYTES },
            Command::Free { addr: self.rx_ring, bytes: RX_RING_BYTES },
        ]
    }
}

/// Everything that a card holds, as contracts speak of it.
pub struct NicModel {
    /// Snapshot of the PCI status word, taken at construction.
    pub status_reg: u16,
    /// Snapshot of the PCI command word, taken at construction.
    pub command_reg: u16,
    /// BAR0 of the device.
    pub bar0: Bar,
    /// Whether the device has an EEPROM.
    pub eeprom_exists: bool,
    /// The permanent station address, six bytes.
    pub mac: Seq<u8>,
    /// The memory of the rings.
    pub memory: RingMemory,
    /// Index of the next receive descriptor to inspect.
    pub rx_cur: nat,
    /// Index of the next transmit descriptor to fill.
    pub tx_cur: nat,
    /// Number of received packets discarded for a device error.
    pub rx_discarded: nat,
    /// The index that registration assigned, if the card is registered.
    pub index: Option<u32>,
    /// The addresses bound to the interface, in the order of binding.
    pub addresses: Seq<BindAddress>,
}

impl NicModel {
    /// What holds of every card: both cursors are inside their rings, the
    /// address has six bytes, and the memory is well formed.
    pub open spec fn wf(self) -> bool {
        &&& self.rx_cur < RX_DESC_COUNT
        &&& self.tx_cur < TX_DESC_COUNT
        &&& self.mac.len() == 6
        &&& self.memory.wf()
        &&& self.bar0.wf()
    }
}

/// The decimal digits of `n` in ASCII, most significant first.
pub open spec fn decimal(n: nat) -> Seq<u8>
    decreases n,
{
    if n < 10 {
        seq![(0x30 + n) as u8]
    } else {
        decimal(n / 10).push((0x30 + n % 10) as u8)
    }
}

/// The interface name of a card: `eth` followed by the decimal index that
/// registration assigned; plain `eth` before registration.
pub open spec fn interface_name(index: Option<u32>) -> Seq<u8> {
    match index {
        Some(n) => seq![0x65u8, 0x74u8, 0x68u8] + decimal(n as nat),
        None => seq![0x65u8, 0x74u8, 0x68u8],
    }
}

/// Whether STATUS reports that the link is up (bit 1).
pub open spec fn link_up(status: u32) -> bool {
    (status / 2) % 2 == 1
}

} // verus!
