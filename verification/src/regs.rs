//! Register map, flag bits and ring geometry of the controller.

use vstd::prelude::*;

verus! {

/// Number of receive descriptors in the ring.
pub const RX_DESC_COUNT: usize = 128;

/// Size in bytes of the packet buffer behind each receive descriptor.
pub const RX_BUFF_SIZE: usize = 16384;

/// Number of transmit descriptors in the ring.
pub const TX_DESC_COUNT: usize = 128;

/// Largest chunk of a frame that one transmit descriptor carries.
pub const TX_BUFF_SIZE: usize = 16384;

/// Size in bytes of one descriptor, receive or transmit.
pub const DESC_SIZE: usize = 16;

/// The ring-length registers count in units of this many bytes.
pub const RING_LEN_GRANULE: usize = 128;

/// Descriptor rings must start on a multiple of this many bytes.
pub const RING_ALIGN: u64 = 16;

/// Register: device status.
pub const REG_STATUS: u16 = 0x0008;

/// Register: EEPROM/flash control and data.
pub const REG_EECD: u16 = 0x0010;

/// Register: EEPROM read.
pub const REG_EERD: u16 = 0x0014;

/// Register: receive control.
pub const REG_RCTL: u16 = 0x0100;

/// Register: transmit control.
pub const REG_TCTL: u16 = 0x0400;

/// Register: transmit inter-packet gap.
pub const REG_TIPG: u16 = 0x0410;

/// Register: receive descriptor base address, low half.
pub const REG_RDBAL: u16 = 0x2800;

/// Register: receive descriptor base address, high half.
pub const REG_RDBAH: u16 = 0x2804;

/// Register: receive descriptor ring length in bytes.
pub const REG_RDLEN: u16 = 0x2808;

/// Register: receive descriptor head (owned by the device).
pub const REG_RDH: u16 = 0x2810;

/// Register: receive descriptor tail (owned by the driver).
pub const REG_RDT: u16 = 0x2818;

/// Register: transmit descriptor base address, low half.
pub const REG_TDBAL: u16 = 0x3800;

/// Register: transmit descriptor base address, high half.
pub const REG_TDBAH: u16 = 0x3804;

/// Register: transmit descriptor ring length in bytes.
pub const REG_TDLEN: u16 = 0x3808;

/// Register: transmit descriptor head (owned by the device).
pub const REG_TDH: u16 = 0x3810;

/// Register: transmit descriptor tail (owned by the driver).
pub const REG_TDT: u16 = 0x3818;

/// Register: receive address low (first four bytes of the station address).
pub const REG_RAL: u16 = 0x5400;

/// Register: receive address high (last two bytes of the station address).
pub const REG_RAH: u16 = 0x5404;

/// STATUS flag: link up (bit 1).
pub const STATUS_LU: u32 = 0x0000_0002;

/// EECD flag: the driver requests access to the EEPROM (bit 6).
pub const EECD_REQ: u32 = 0x0000_0040;

/// EECD flag: an EEPROM is present (bit 8).
pub const EECD_PRES: u32 = 0x0000_0100;

/// EERD flag: start a read (bit 0).
pub const EERD_START: u32 = 0x0000_0001;

/// EERD flag: the read has completed (bit 4).
pub const EERD_DONE: u32 = 0x0000_0010;

/// RCTL flag: receiver enable (bit 1).
pub const RCTL_EN: u32 = 0x0000_0002;

/// RCTL flag: store bad packets (bit 2).
pub const RCTL_SBP: u32 = 0x0000_0004;

/// RCTL flag: unicast promiscuous (bit 3).
pub const RCTL_UPE: u32 = 0x0000_0008;

/// RCTL flag: multicast promiscuous (bit 4).
pub const RCTL_MPE: u32 = 0x0000_0010;

/// RCTL flag: long packet reception (bit 5).
pub const RCTL_LPE: u32 = 0x0000_0020;

/// RCTL flag: accept broadcast (bit 15).
pub const RCTL_BAM: u32 = 0x0000_8000;

/// RCTL field: buffer size selector `01` (bits 16 and 17); with `RCTL_BSEX`
/// it selects 16 KiB buffers.
pub const RCTL_BSIZE_01: u32 = 0x0001_0000;

/// RCTL flag: VLAN filter enable (bit 18).
pub const RCTL_VFE: u32 = 0x0004_0000;

/// RCTL flag: canonical form indicator enable (bit 19).
pub const RCTL_CFIEN: u32 = 0x0008_0000;

/// RCTL flag: canonical form indicator value (bit 20).
pub const RCTL_CFI: u32 = 0x0010_0000;

/// RCTL flag: discard pause frames (bit 22).
pub const RCTL_DPF: u32 = 0x0040_0000;

/// RCTL flag: pass MAC control frames (bit 23).
pub const RCTL_PMCF: u32 = 0x0080_0000;

/// RCTL flag: buffer size extension (bit 25).
pub const RCTL_BSEX: u32 = 0x0200_0000;

/// RCTL flag: strip the Ethernet CRC (bit 26).
pub const RCTL_SECRC: u32 = 0x0400_0000;

/// TCTL flag: transmitter enable (bit 1).
pub const TCTL_EN: u32 = 0x0000_0002;

/// TCTL flag: pad short packets (bit 3).
pub const TCTL_PSP: u32 = 0x0000_0008;

/// TCTL field: collision threshold, the retry count `0xF` at bit 4.
pub const TCTL_CT: u32 = 0x0000_00F0;

/// TCTL field: collision distance `0x200` at bit 12.
pub const TCTL_COLD: u32 = 0x0020_0000;

/// TCTL flag: software XOFF transmission (bit 22).
pub const TCTL_SWXOFF: u32 = 0x0040_0000;

/// TCTL flag: retransmit on late collision (bit 24).
pub const TCTL_RTLC: u32 = 0x0100_0000;

/// TCTL flag: no retransmit on underrun (bit 25).
pub const TCTL_NRTU: u32 = 0x0200_0000;

/// TIPG value for copper links.
pub const TIPG_COPPER: u32 = 0x0060_200A;

/// Receive status flag: descriptor done.
pub const RX_STA_DD: u8 = 0x01;

/// Receive status flag: end of packet.
pub const RX_STA_EOP: u8 = 0x02;

/// Receive status flag: ignore checksum indication.
pub const RX_STA_IXSM: u8 = 0x04;

/// Receive status flag: packet is 802.1Q.
pub const RX_STA_VP: u8 = 0x08;

/// Receive status flag: TCP checksum calculated.
pub const RX_STA_TCPCS: u8 = 0x20;

/// Receive status flag: IP checksum calculated.
pub const RX_STA_IPCS: u8 = 0x40;

/// Receive status flag: passed the inexact filter.
pub const RX_STA_PIF: u8 = 0x80;

/// Transmit command flag: end of packet.
pub const TX_CMD_EOP: u8 = 0x01;

/// Transmit command flag: insert the frame check sequence.
pub const TX_CMD_IFCS: u8 = 0x02;

/// Transmit command flag: insert checksum.
pub const TX_CMD_IC: u8 = 0x04;

/// Transmit command flag: report status.
pub const TX_CMD_RS: u8 = 0x08;

/// Transmit command flag: report packet sent.
pub const TX_CMD_RPS: u8 = 0x10;

/// Transmit command flag: VLAN packet enable.
pub const TX_CMD_VLE: u8 = 0x40;

/// Transmit command flag: interrupt delay enable.
pub const TX_CMD_IDE: u8 = 0x80;

/// Transmit status flag: descriptor done.
pub const TX_STA_DD: u8 = 0x01;

/// Transmit status flag: excess collisions.
pub const TX_STA_EC: u8 = 0x02;

/// Transmit status flag: late collision.
pub const TX_STA_LC: u8 = 0x04;

/// Transmit status flag: transmit underrun.
pub const TX_STA_TU: u8 = 0x08;

/// Whether bit 0 of a status byte, "descriptor done", is set.
pub open spec fn done_bit(status: u8) -> bool {
    status % 2 == 1
}

/// Tests the "descriptor done" bit of a descriptor's status byte.
pub fn is_done(status: u8) -> (r: bool)
    ensures
        r == done_bit(status),
        r == (status & RX_STA_DD != 0),
{
    assert(status & 0x01 != 0 <==> status % 2 == 1) by (bit_vector);
    status & RX_STA_DD != 0
}

} // verus!
