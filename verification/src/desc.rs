//! Receive and transmit descriptors and their packed 16-byte layout.
//!
//! The device fixes the layout: fields follow each other without padding,
//! each in little-endian byte order. The descriptors are plain values here;
//! `to_bytes` and `from_bytes` are the only place where the layout is spelled
//! out.

use vstd::prelude::*;
use crate::layout::{le_bytes, le_value, pow256, lemma_le_bytes_len, lemma_le_bytes_of_value,
    lemma_le_value_bound, lemma_le_value_of_bytes};
use crate::regs::{done_bit, is_done};

verus! {

/// A legacy receive descriptor.
#[derive(Clone, Copy, Debug, PartialEq, Eq)]
pub struct RxDesc {
    /// Physical address of the packet buffer.
    pub addr: u64,
    /// Number of bytes the device wrote into the buffer.
    pub length: u16,
    /// Packet checksum.
    pub checksum: u16,
    /// Status flags.
    pub status: u8,
    /// Error flags.
    pub errors: u8,
    /// VLAN tag and priority.
    pub special: u16,
}

/// A legacy transmit descriptor.
#[derive(Clone, Copy, Debug, PartialEq, Eq)]
pub struct TxDesc {
    /// Physical address of the data to send.
    pub addr: u64,
    /// Number of bytes to send from `addr`.
    pub length: u16,
    /// Checksum offset.
    pub cso: u8,
    /// Command flags.
    pub cmd: u8,
    /// Status flags.
    pub status: u8,
    /// Checksum start.
    pub css: u8,
    /// VLAN tag and priority.
    pub special: u16,
}

/// Byte offset of the status byte inside a descriptor, receive or transmit.
pub const DESC_STATUS_OFFSET: usize = 12;

/// `pow256` at the two field widths that occur in a descriptor.
pub proof fn lemma_pow256_widths()
    ensures
        pow256(1) == 0x100,
        pow256(2) == 0x1_0000,
        pow256(8) == 0x1_0000_0000_0000_0000,
{
    reveal_with_fuel(pow256, 9);
}

/// Writes the `n` low-order bytes of `value` at `out[at..at + n]`, least
/// significant first.
fn store_le(out: &mut [u8; 16], at: usize, n: usize, value: u64)
    requires
        at + n <= 16,
    ensures
        final(out)@ == old(out)@.subrange(0, at as int) + le_bytes(value as nat, n as nat) + old(
            out,
        )@.subrange(at + n, 16),
{
    let mut k: usize = 0;
    let mut rest: u64 = value;
    proof {
        lemma_le_bytes_len(value as nat, n as nat);
    }
    while k < n
        invariant
            k <= n,
            at + n <= 16,
            out@.len() == 16,
            le_bytes(value as nat, n as nat).len() == n,
            out@.subrange(0, at as int) == old(out)@.subrange(0, at as int),
            out@.subrange(at + n, 16) == old(out)@.subrange(at + n, 16),
            le_bytes(value as nat, n as nat) == out@.subrange(at as int, at + k) + le_bytes(
                rest as nat,
                (n - k) as nat,
            ),
        decreases n - k,
    {
        let ghost before = out@;
        out[at + k] = (rest % 256) as u8;
        proof {
            let tail = le_bytes((rest / 256) as nat, (n - k - 1) as nat);
            assert(le_bytes(rest as nat, (n - k) as nat) == seq![(rest % 256) as u8] + tail);
            assert(out@.subrange(at as int, at + k + 1) =~= before.subrange(at as int, at + k)
                + seq![(rest % 256) as u8]);
            assert(out@.subrange(at as int, at + k + 1) + tail =~= before.subrange(
                at as int,
                at + k,
            ) + (seq![(rest % 256) as u8] + tail));
            assert(out@.subrange(0, at as int) =~= before.subrange(0, at as int));
            assert(out@.subrange(at + n, 16) =~= before.subrange(at + n, 16));
        }
        rest = rest / 256;
        k = k + 1;
    }
    proof {
        assert(le_bytes(rest as nat, 0) =~= Seq::<u8>::empty());
        assert(out@.subrange(at as int, at + n) =~= le_bytes(value as nat, n as nat));
        assert(out@ =~= out@.subrange(0, at as int) + out@.subrange(at as int, at + n)
            + out@.subrange(at + n, 16));
    }
}

/// Reads the little-endian number held in `bytes[at..at + n]`.
fn load_le(bytes: &[u8; 16], at: usize, n: usize) -> (value: u64)
    requires
        at + n <= 16,
        n <= 8,
    ensures
        value == le_value(bytes@.subrange(at as int, at + n)),
{
    let mut k: usize = n;
    let mut acc: u64 = 0;
    proof {
        assert(bytes@.subrange(at + n, at + n) =~= Seq::<u8>::empty());
    }
    while k > 0
        invariant
            k <= n,
            n <= 8,
            at + n <= 16,
            bytes@.len() == 16,
            acc == le_value(bytes@.subrange(at + k, at + n)),
        decreases k,
    {
        proof {
            let part = bytes@.subrange(at + k - 1, at + n);
            assert(part.skip(1) =~= bytes@.subrange(at + k, at + n));
            lemma_le_value_bound(bytes@.subrange(at + k, at + n));
            lemma_pow256_monotone((n - k) as nat, 7);
            reveal_with_fuel(pow256, 8);
            assert(pow256(7) == 0x100_0000_0000_0000);
        }
        k = k - 1;
        acc = acc * 256 + bytes[at + k] as u64;
    }
    acc
}

/// `pow256` grows with its argument.
proof fn lemma_pow256_monotone(a: nat, b: nat)
    requires
        a <= b,
    ensures
        pow256(a) <= pow256(b),
    decreases b,
{
    if a < b {
        lemma_pow256_monotone(a, (b - 1) as nat);
    }
}

impl RxDesc {
    /// The descriptor as the device sees it in memory: address (8 bytes),
    /// length (2), checksum (2), status, errors, special (2).
    pub open spec fn layout(self) -> Seq<u8> {
        le_bytes(self.addr as nat, 8) + le_bytes(self.length as nat, 2) + le_bytes(
            self.checksum as nat,
            2,
        ) + seq![self.status, self.errors] + le_bytes(self.special as nat, 2)
    }

    /// The descriptor that 16 bytes of ring memory hold.
    pub open spec fn parse(bytes: Seq<u8>) -> RxDesc {
        RxDesc {
            addr: le_value(bytes.subrange(0, 8)) as u64,
            length: le_value(bytes.subrange(8, 10)) as u16,
            checksum: le_value(bytes.subrange(10, 12)) as u16,
            status: bytes[12],
            errors: bytes[13],
            special: le_value(bytes.subrange(14, 16)) as u16,
        }
    }

    /// Whether the device has finished with this descriptor.
    pub open spec fn done(self) -> bool {
        done_bit(self.status)
    }

    /// A descriptor that hands the buffer at `addr` to the device: every
    /// other field is zero.
    pub fn empty(addr: u64) -> (d: RxDesc)
        ensures
            d == (RxDesc { addr, length: 0, checksum: 0, status: 0, errors: 0, special: 0 }),
    {
        RxDesc { addr, length: 0, checksum: 0, status: 0, errors: 0, special: 0 }
    }

    /// Tests the "descriptor done" bit.
    pub fn is_done(&self) -> (r: bool)
        ensures
            r == self.done(),
    {
        is_done(self.status)
    }

    /// Encodes the descriptor for ring memory.
    pub fn to_bytes(&self) -> (out: [u8; 16])
        ensures
            out@ == self.layout(),
    {
        let mut out: [u8; 16] = [0u8; 16];
        store_le(&mut out, 0, 8, self.addr);
        store_le(&mut out, 8, 2, self.length as u64);
        store_le(&mut out, 10, 2, self.checksum as u64);
        store_le(&mut out, 12, 1, self.status as u64);
        store_le(&mut out, 13, 1, self.errors as u64);
        store_le(&mut out, 14, 2, self.special as u64);
        proof {
            lemma_le_bytes_len(self.addr as nat, 8);
            lemma_le_bytes_len(self.length as nat, 2);
            lemma_le_bytes_len(self.checksum as nat, 2);
            lemma_le_bytes_len(self.special as nat, 2);
            lemma_single_byte(self.status);
            lemma_single_byte(self.errors);
            assert(out@ =~= self.layout());
        }
        out
    }

    /// Decodes a descriptor from ring memory.
    pub fn from_bytes(bytes: &[u8; 16]) -> (d: RxDesc)
        ensures
            d == RxDesc::parse(bytes@),
            d.layout() == bytes@,
    {
        let addr: u64 = load_le(bytes, 0, 8);
        let length: u64 = load_le(bytes, 8, 2);
        let checksum: u64 = load_le(bytes, 10, 2);
        let special: u64 = load_le(bytes, 14, 2);
        proof {
            lemma_pow256_widths();
            lemma_le_value_bound(bytes@.subrange(8, 10));
            lemma_le_value_bound(bytes@.subrange(10, 12));
            lemma_le_value_bound(bytes@.subrange(14, 16));
            RxDesc::lemma_layout_of_parse(bytes@);
        }
        RxDesc {
            addr,
            length: length as u16,
            checksum: checksum as u16,
            status: bytes[12],
            errors: bytes[13],
            special: special as u16,
        }
    }

    /// Every descriptor survives a trip through ring memory.
    pub proof fn lemma_parse_of_layout(d: RxDesc)
        ensures
            d.layout().len() == 16,
            RxDesc::parse(d.layout()) == d,
    {
        let l = d.layout();
        lemma_pow256_widths();
        lemma_le_bytes_len(d.addr as nat, 8);
        lemma_le_bytes_len(d.length as nat, 2);
        lemma_le_bytes_len(d.checksum as nat, 2);
        lemma_le_bytes_len(d.special as nat, 2);
        assert(l.subrange(0, 8) =~= le_bytes(d.addr as nat, 8));
        assert(l.subrange(8, 10) =~= le_bytes(d.length as nat, 2));
        assert(l.subrange(10, 12) =~= le_bytes(d.checksum as nat, 2));
        assert(l.subrange(14, 16) =~= le_bytes(d.special as nat, 2));
        lemma_le_value_of_bytes(d.addr as nat, 8);
        lemma_le_value_of_bytes(d.length as nat, 2);
        lemma_le_value_of_bytes(d.checksum as nat, 2);
        lemma_le_value_of_bytes(d.special as nat, 2);
    }

    /// Every 16 bytes of ring memory are the layout of the descriptor they
    /// decode to.
    pub proof fn lemma_layout_of_parse(bytes: Seq<u8>)
        requires
            bytes.len() == 16,
        ensures
            RxDesc::parse(bytes).layout() == bytes,
    {
        let d = RxDesc::parse(bytes);
        lemma_pow256_widths();
        lemma_le_value_bound(bytes.subrange(0, 8));
        lemma_le_value_bound(bytes.subrange(8, 10));
        lemma_le_value_bound(bytes.subrange(10, 12));
        lemma_le_value_bound(bytes.subrange(14, 16));
        lemma_le_bytes_of_value(bytes.subrange(0, 8));
        lemma_le_bytes_of_value(bytes.subrange(8, 10));
        lemma_le_bytes_of_value(bytes.subrange(10, 12));
        lemma_le_bytes_of_value(bytes.subrange(14, 16));
        assert(d.layout() =~= bytes);
    }
}

impl TxDesc {
    /// The descriptor as the device sees it in memory: address (8 bytes),
    /// length (2), checksum offset, command, status, checksum start,
    /// special (2).
    pub open spec fn layout(self) -> Seq<u8> {
        le_bytes(self.addr as nat, 8) + le_bytes(self.length as nat, 2) + seq![
            self.cso,
            self.cmd,
            self.status,
            self.css,
        ] + le_bytes(self.special as nat, 2)
    }

    /// The descriptor that 16 bytes of ring memory hold.
    pub open spec fn parse(bytes: Seq<u8>) -> TxDesc {
        TxDesc {
            addr: le_value(bytes.subrange(0, 8)) as u64,
            length: le_value(bytes.subrange(8, 10)) as u16,
            cso: bytes[10],
            cmd: bytes[11],
            status: bytes[12],
            css: bytes[13],
            special: le_value(bytes.subrange(14, 16)) as u16,
        }
    }

    /// Whether the device has finished with this descriptor, so that the
    /// driver may fill it again.
    pub open spec fn done(self) -> bool {
        done_bit(self.status)
    }

    /// The descriptor of a slot that was never used: all zero but for the
    /// "descriptor done" bit, so that the slot counts as free.
    pub fn idle() -> (d: TxDesc)
        ensures
            d == (TxDesc {
                addr: 0,
                length: 0,
                cso: 0,
                cmd: 0,
                status: crate::regs::TX_STA_DD,
                css: 0,
                special: 0,
            }),
            d.done(),
    {
        TxDesc {
            addr: 0,
            length: 0,
            cso: 0,
            cmd: 0,
            status: crate::regs::TX_STA_DD,
            css: 0,
            special: 0,
        }
    }

    /// Tests the "descriptor done" bit.
    pub fn is_done(&self) -> (r: bool)
        ensures
            r == self.done(),
    {
        is_done(self.status)
    }

    /// Encodes the descriptor for ring memory.
    pub fn to_bytes(&self) -> (out: [u8; 16])
        ensures
            out@ == self.layout(),
    {
        let mut out: [u8; 16] = [0u8; 16];
        store_le(&mut out, 0, 8, self.addr);
        store_le(&mut out, 8, 2, self.length as u64);
        store_le(&mut out, 10, 1, self.cso as u64);
        store_le(&mut out, 11, 1, self.cmd as u64);
        store_le(&mut out, 12, 1, self.status as u64);
        store_le(&mut out, 13, 1, self.css as u64);
        store_le(&mut out, 14, 2, self.special as u64);
        proof {
            lemma_le_bytes_len(self.addr as nat, 8);
            lemma_le_bytes_len(self.length as nat, 2);
            lemma_le_bytes_len(self.special as nat, 2);
            lemma_single_byte(self.cso);
            lemma_single_byte(self.cmd);
            lemma_single_byte(self.status);
            lemma_single_byte(self.css);
            assert(out@ =~= self.layout());
        }
        out
    }

    /// Decodes a descriptor from ring memory.
    pub fn from_bytes(bytes: &[u8; 16]) -> (d: TxDesc)
        ensures
            d == TxDesc::parse(bytes@),
            d.layout() == bytes@,
    {
        let addr: u64 = load_le(bytes, 0, 8);
        let length: u64 = load_le(bytes, 8, 2);
        let special: u64 = load_le(bytes, 14, 2);
        proof {
            lemma_pow256_widths();
            lemma_le_value_bound(bytes@.subrange(8, 10));
            lemma_le_value_bound(bytes@.subrange(14, 16));
            TxDesc::lemma_layout_of_parse(bytes@);
        }
        TxDesc {
            addr,
            length: length as u16,
            cso: bytes[10],
            cmd: bytes[11],
            status: bytes[12],
            css: bytes[13],
            special: special as u16,
        }
    }

    /// Every descriptor survives a trip through ring memory.
    pub proof fn lemma_parse_of_layout(d: TxDesc)
        ensures
            d.layout().len() == 16,
            TxDesc::parse(d.layout()) == d,
    {
        let l = d.layout();
        lemma_pow256_widths();
        lemma_le_bytes_len(d.addr as nat, 8);
        lemma_le_bytes_len(d.length as nat, 2);
        lemma_le_bytes_len(d.special as nat, 2);
        assert(l.subrange(0, 8) =~= le_bytes(d.addr as nat, 8));
        assert(l.subrange(8, 10) =~= le_bytes(d.length as nat, 2));
        assert(l.subrange(14, 16) =~= le_bytes(d.special as nat, 2));
        lemma_le_value_of_bytes(d.addr as nat, 8);
        lemma_le_value_of_bytes(d.length as nat, 2);
        lemma_le_value_of_bytes(d.special as nat, 2);
    }

    /// Every 16 bytes of ring memory are the layout of the descriptor they
    /// decode to.
    pub proof fn lemma_layout_of_parse(bytes: Seq<u8>)
        requires
            bytes.len() == 16,
        ensures
            TxDesc::parse(bytes).layout() == bytes,
    {
        let d = TxDesc::parse(bytes);
        lemma_pow256_widths();
        lemma_le_value_bound(bytes.subrange(0, 8));
        lemma_le_value_bound(bytes.subrange(8, 10));
        lemma_le_value_bound(bytes.subrange(14, 16));
        lemma_le_bytes_of_value(bytes.subrange(0, 8));
        lemma_le_bytes_of_value(bytes.subrange(8, 10));
        lemma_le_bytes_of_value(bytes.subrange(14, 16));
        assert(d.layout() =~= bytes);
    }
}

/// One byte is its own little-endian encoding.
proof fn lemma_single_byte(b: u8)
    ensures
        le_bytes(b as nat, 1) == seq![b],
{
    reveal_with_fuel(le_bytes, 2);
    assert(le_bytes(b as nat, 1) =~= seq![b]);
}

} // verus!
