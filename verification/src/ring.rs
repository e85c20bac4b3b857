//! Ring geometry and the programming sequence that publishes both rings to
//! the device and enables its engines.

use vstd::prelude::*;
use crate::desc::{RxDesc, TxDesc};
use crate::platform::Command;
use crate::regs::{DESC_SIZE, RCTL_BAM, RCTL_BSEX, RCTL_BSIZE_01, RCTL_EN, RCTL_MPE, RCTL_UPE,
    REG_RCTL, REG_RDBAH, REG_RDBAL, REG_RDH, REG_RDLEN, REG_RDT, REG_TCTL, REG_TDBAH, REG_TDBAL,
    REG_TDH, REG_TDLEN, REG_TDT, REG_TIPG, RING_ALIGN, RING_LEN_GRANULE, RX_BUFF_SIZE,
    RX_DESC_COUNT, TCTL_COLD, TCTL_CT, TCTL_EN, TIPG_COPPER, TX_DESC_COUNT, TX_STA_DD};

verus! {

/// Size in bytes of the receive descriptor array.
pub const RX_RING_BYTES: usize = 2048;

/// Size in bytes of the transmit descriptor array.
pub const TX_RING_BYTES: usize = 2048;

/// Size in bytes of the arena that holds all receive packet buffers.
pub const RX_ARENA_BYTES: usize = 2097152;

/// The value that initialization writes to RCTL.
pub open spec fn rctl_init() -> u32 {
    RCTL_EN | RCTL_UPE | RCTL_MPE | RCTL_BAM | RCTL_BSEX | RCTL_BSIZE_01
}

/// The value that initialization writes to TCTL.
pub open spec fn tctl_init() -> u32 {
    TCTL_EN | TCTL_CT | TCTL_COLD
}

/// The ring sizes are what the constants say they are, and the device can
/// take them: each ring length is a multiple of 128 bytes.
pub proof fn lemma_ring_geometry()
    ensures
        RX_RING_BYTES == RX_DESC_COUNT * DESC_SIZE,
        TX_RING_BYTES == TX_DESC_COUNT * DESC_SIZE,
        RX_ARENA_BYTES == RX_DESC_COUNT * RX_BUFF_SIZE,
        RX_RING_BYTES % RING_LEN_GRANULE == 0,
        TX_RING_BYTES % RING_LEN_GRANULE == 0,
{
}

/// Whether `bytes` bytes at physical address `addr` can hold a descriptor
/// ring: the address is 16-byte aligned and the region ends inside the
/// address space.
pub open spec fn ring_fits(addr: u64, bytes: usize) -> bool {
    addr % RING_ALIGN == 0 && addr + bytes <= u64::MAX
}

/// Whether `bytes` bytes at physical address `addr` end inside the address
/// space.
pub open spec fn region_fits(addr: u64, bytes: usize) -> bool {
    addr + bytes <= u64::MAX
}

/// The low 32 bits of a physical address.
pub open spec fn low_half(addr: u64) -> u32 {
    (addr % 0x1_0000_0000) as u32
}

/// The high 32 bits of a physical address.
pub open spec fn high_half(addr: u64) -> u32 {
    (addr / 0x1_0000_0000) as u32
}

/// Physical address of the packet buffer of receive descriptor `i`.
pub open spec fn rx_buffer_addr(rx_arena: u64, i: int) -> u64 {
    (rx_arena + i * RX_BUFF_SIZE) as u64
}

/// The receive side of initialization: every descriptor gets its buffer and
/// is otherwise zero; then base, length, head, tail and control are
/// written, in this order.
pub open spec fn rx_init_commands(rx_ring: u64, rx_arena: u64) -> Seq<Command> {
    Seq::new(
        RX_DESC_COUNT as nat,
        |i: int|
            Command::RxStore {
                index: i as usize,
                desc: RxDesc {
                    addr: rx_buffer_addr(rx_arena, i),
                    length: 0,
                    checksum: 0,
                    status: 0,
                    errors: 0,
                    special: 0,
                },
            },
    ) + seq![
        Command::RegWrite { reg: REG_RDBAL, value: low_half(rx_ring) },
        Command::RegWrite { reg: REG_RDBAH, value: high_half(rx_ring) },
        Command::RegWrite { reg: REG_RDLEN, value: RX_RING_BYTES as u32 },
        Command::RegWrite { reg: REG_RDH, value: 0 },
        Command::RegWrite { reg: REG_RDT, value: (RX_DESC_COUNT - 1) as u32 },
        Command::RegWrite { reg: REG_RCTL, value: rctl_init() },
    ]
}

/// The transmit side of initialization: every descriptor is marked done, so
/// that it counts as free; then base, length, head, tail, control and the
/// inter-packet gap are written, in this order.
pub open spec fn tx_init_commands(tx_ring: u64) -> Seq<Command> {
    Seq::new(
        TX_DESC_COUNT as nat,
        |i: int|
            Command::TxStore {
                index: i as usize,
                desc: TxDesc {
                    addr: 0,
                    length: 0,
                    cso: 0,
                    cmd: 0,
                    status: TX_STA_DD,
                    css: 0,
                    special: 0,
                },
            },
    ) + seq![
        Command::RegWrite { reg: REG_TDBAL, value: low_half(tx_ring) },
        Command::RegWrite { reg: REG_TDBAH, value: high_half(tx_ring) },
        Command::RegWrite { reg: REG_TDLEN, value: TX_RING_BYTES as u32 },
        Command::RegWrite { reg: REG_TDH, value: 0 },
        Command::RegWrite { reg: REG_TDT, value: 0 },
        Command::RegWrite { reg: REG_TCTL, value: tctl_init() },
        Command::RegWrite { reg: REG_TIPG, value: TIPG_COPPER },
    ]
}

/// All of initialization: the receive side, then the transmit side.
pub open spec fn init_commands(rx_ring: u64, rx_arena: u64, tx_ring: u64) -> Seq<Command> {
    rx_init_commands(rx_ring, rx_arena) + tx_init_commands(tx_ring)
}

/// Appends the receive side of initialization to `out`.
fn push_rx_init(out: &mut Vec<Command>, rx_ring: u64, rx_arena: u64)
    requires
        region_fits(rx_arena, RX_ARENA_BYTES),
    ensures
        final(out)@ == old(out)@ + rx_init_commands(rx_ring, rx_arena),
{
    let ghost before = out@;
    let ghost goal = rx_init_commands(rx_ring, rx_arena);
    let mut i: usize = 0;
    while i < RX_DESC_COUNT
        invariant
            i <= RX_DESC_COUNT,
            region_fits(rx_arena, RX_ARENA_BYTES),
            goal == rx_init_commands(rx_ring, rx_arena),
            out@ == before + goal.subrange(0, i as int),
        decreases RX_DESC_COUNT - i,
    {
        let addr: u64 = rx_arena + (i * RX_BUFF_SIZE) as u64;
        out.push(Command::RxStore { index: i, desc: RxDesc::empty(addr) });
        proof {
            assert(goal.subrange(0, i + 1) =~= goal.subrange(0, i as int).push(goal[i as int]));
        }
        i = i + 1;
    }
    out.push(Command::RegWrite { reg: REG_RDBAL, value: (rx_ring % 0x1_0000_0000) as u32 });
    out.push(Command::RegWrite { reg: REG_RDBAH, value: (rx_ring / 0x1_0000_0000) as u32 });
    out.push(Command::RegWrite { reg: REG_RDLEN, value: RX_RING_BYTES as u32 });
    out.push(Command::RegWrite { reg: REG_RDH, value: 0 });
    out.push(Command::RegWrite { reg: REG_RDT, value: (RX_DESC_COUNT - 1) as u32 });
    out.push(
        Command::RegWrite {
            reg: REG_RCTL,
            value: RCTL_EN | RCTL_UPE | RCTL_MPE | RCTL_BAM | RCTL_BSEX | RCTL_BSIZE_01,
        },
    );
    proof {
        assert(out@ =~= before + goal);
    }
}

/// Appends the transmit side of initialization to `out`.
fn push_tx_init(out: &mut Vec<Command>, tx_ring: u64)
    ensures
        final(out)@ == old(out)@ + tx_init_commands(tx_ring),
{
    let ghost before = out@;
    let ghost goal = tx_init_commands(tx_ring);
    let mut i: usize = 0;
    while i < TX_DESC_COUNT
        invariant
            i <= TX_DESC_COUNT,
            goal == tx_init_commands(tx_ring),
            out@ == before + goal.subrange(0, i as int),
        decreases TX_DESC_COUNT - i,
    {
        out.push(Command::TxStore { index: i, desc: TxDesc::idle() });
        proof {
            assert(goal.subrange(0, i + 1) =~= goal.subrange(0, i as int).push(goal[i as int]));
        }
        i = i + 1;
    }
    out.push(Command::RegWrite { reg: REG_TDBAL, value: (tx_ring % 0x1_0000_0000) as u32 });
    out.push(Command::RegWrite { reg: REG_TDBAH, value: (tx_ring / 0x1_0000_0000) as u32 });
    out.push(Command::RegWrite { reg: REG_TDLEN, value: TX_RING_BYTES as u32 });
    out.push(Command::RegWrite { reg: REG_TDH, value: 0 });
    out.push(Command::RegWrite { reg: REG_TDT, value: 0 });
    out.push(Command::RegWrite { reg: REG_TCTL, value: TCTL_EN | TCTL_CT | TCTL_COLD });
    out.push(Command::RegWrite { reg: REG_TIPG, value: TIPG_COPPER });
    proof {
        assert(out@ =~= before + goal);
    }
}

/// Appends the whole initialization sequence for rings at the given
/// physical addresses to `out`.
pub(crate) fn push_init(out: &mut Vec<Command>, rx_ring: u64, rx_arena: u64, tx_ring: u64)
    requires
        region_fits(rx_arena, RX_ARENA_BYTES),
    ensures
        final(out)@ == old(out)@ + init_commands(rx_ring, rx_arena, tx_ring),
{
    push_rx_init(out, rx_ring, rx_arena);
    push_tx_init(out, tx_ring);
    proof {
        assert(out@ =~= old(out)@ + init_commands(rx_ring, rx_arena, tx_ring));
    }
}

/// The value that register `reg` holds after `commands`, if they write it:
/// the value of the last write.
pub open spec fn register_after(commands: Seq<Command>, reg: u16) -> Option<u32>
    decreases commands.len(),
{
    if commands.len() == 0 {
        None
    } else {
        match commands.last() {
            Command::RegWrite { reg: r, value } if r == reg => Some(value),
            _ => register_after(commands.drop_last(), reg),
        }
    }
}

/// Whether `command` leaves register `reg` alone.
pub open spec fn spares(command: Command, reg: u16) -> bool {
    match command {
        Command::RegWrite { reg: r, .. } => r != reg,
        _ => true,
    }
}

/// A register holds what the last write to it stored.
pub proof fn lemma_register_after(commands: Seq<Command>, k: int, reg: u16, value: u32)
    requires
        0 <= k < commands.len(),
        commands[k] == (Command::RegWrite { reg, value }),
        forall|j: int| k < j < commands.len() ==> spares(#[trigger] commands[j], reg),
    ensures
        register_after(commands, reg) == Some(value),
    decreases commands.len() - k,
{
    if k + 1 < commands.len() {
        let fewer = commands.drop_last();
        assert(spares(commands[commands.len() - 1], reg));
        assert(fewer[k] == commands[k]);
        assert forall|j: int| k < j < fewer.len() implies spares(#[trigger] fewer[j], reg) by {
            assert(fewer[j] == commands[j]);
        }
        lemma_register_after(fewer, k, reg, value);
    }
}

/// The two halves of a physical address make up the address.
pub proof fn lemma_halves(addr: u64)
    ensures
        low_half(addr) + 0x1_0000_0000 * high_half(addr) == addr,
{
}

/// The control words of initialization, bit by bit: the receiver is
/// enabled, takes unicast, multicast and broadcast frames, and uses 16 KiB
/// buffers; the transmitter is enabled with a retry count of 15 and a
/// collision distance of 0x200.
pub proof fn lemma_control_words()
    ensures
        rctl_init() & RCTL_EN == RCTL_EN,
        rctl_init() & RCTL_UPE == RCTL_UPE,
        rctl_init() & RCTL_MPE == RCTL_MPE,
        rctl_init() & RCTL_BAM == RCTL_BAM,
        rctl_init() & RCTL_BSEX == RCTL_BSEX,
        (rctl_init() >> 16) & 0x3 == 0x1,
        rctl_init() == 0x0201_801A,
        tctl_init() & TCTL_EN == TCTL_EN,
        (tctl_init() >> 4) & 0xff == 0xf,
        (tctl_init() >> 12) & 0x3ff == 0x200,
        tctl_init() == 0x0020_00F2,
{
    let r: u32 = 0x2u32 | 0x8u32 | 0x10u32 | 0x8000u32 | 0x0200_0000u32 | 0x0001_0000u32;
    assert(r == rctl_init());
    assert(r == 0x0201_801A) by (bit_vector)
        requires
            r == 0x2u32 | 0x8u32 | 0x10u32 | 0x8000u32 | 0x0200_0000u32 | 0x0001_0000u32,
    ;
    assert(0x0201_801Au32 & 0x2 == 0x2) by (bit_vector);
    assert(0x0201_801Au32 & 0x8 == 0x8) by (bit_vector);
    assert(0x0201_801Au32 & 0x10 == 0x10) by (bit_vector);
    assert(0x0201_801Au32 & 0x8000 == 0x8000) by (bit_vector);
    assert(0x0201_801Au32 & 0x0200_0000 == 0x0200_0000) by (bit_vector);
    assert((0x0201_801Au32 >> 16) & 0x3 == 0x1) by (bit_vector);
    let t: u32 = 0x2u32 | 0xF0u32 | 0x0020_0000u32;
    assert(t == tctl_init());
    assert(t == 0x0020_00F2) by (bit_vector)
        requires
            t == 0x2u32 | 0xF0u32 | 0x0020_0000u32,
    ;
    assert(0x0020_00F2u32 & 0x2 == 0x2) by (bit_vector);
    assert((0x0020_00F2u32 >> 4) & 0xff == 0xf) by (bit_vector);
    assert((0x0020_00F2u32 >> 12) & 0x3ff == 0x200) by (bit_vector);
}

/// The registers after initialization, whatever was written before it.
///
/// The receive base registers hold the low and the high half of the
/// address of the receive descriptor array, the receive length register
/// the size of that array, the receive head 0 and the receive tail the
/// index of the last descriptor; receive control holds the word of
/// `rctl_init`. The transmit base registers hold the two halves of the
/// address of the transmit descriptor array, the transmit length register
/// its size, transmit head and tail 0; transmit control holds the word of
/// `tctl_init`, and the inter-packet gap the value for copper.
pub proof fn lemma_init_registers(before: Seq<Command>, rx_ring: u64, rx_arena: u64, tx_ring: u64)
    ensures
        ({
            let all = before + init_commands(rx_ring, rx_arena, tx_ring);
            &&& register_after(all, REG_RDBAL) == Some(low_half(rx_ring))
            &&& register_after(all, REG_RDBAH) == Some(high_half(rx_ring))
            &&& register_after(all, REG_RDLEN) == Some((RX_DESC_COUNT * DESC_SIZE) as u32)
            &&& register_after(all, REG_RDH) == Some(0u32)
            &&& register_after(all, REG_RDT) == Some((RX_DESC_COUNT - 1) as u32)
            &&& register_after(all, REG_RCTL) == Some(rctl_init())
            &&& register_after(all, REG_TDBAL) == Some(low_half(tx_ring))
            &&& register_after(all, REG_TDBAH) == Some(high_half(tx_ring))
            &&& register_after(all, REG_TDLEN) == Some((TX_DESC_COUNT * DESC_SIZE) as u32)
            &&& register_after(all, REG_TDH) == Some(0u32)
            &&& register_after(all, REG_TDT) == Some(0u32)
            &&& register_after(all, REG_TCTL) == Some(tctl_init())
            &&& register_after(all, REG_TIPG) == Some(TIPG_COPPER)
        }),
{
    let all = before + init_commands(rx_ring, rx_arena, tx_ring);
    let rx = before.len() + RX_DESC_COUNT;
    let tx = rx + 6 + TX_DESC_COUNT;
    assert(all.len() == tx + 7);
    lemma_register_after(all, rx + 0, REG_RDBAL, low_half(rx_ring));
    lemma_register_after(all, rx + 1, REG_RDBAH, high_half(rx_ring));
    lemma_register_after(all, rx + 2, REG_RDLEN, RX_RING_BYTES as u32);
    lemma_register_after(all, rx + 3, REG_RDH, 0);
    lemma_register_after(all, rx + 4, REG_RDT, (RX_DESC_COUNT - 1) as u32);
    lemma_register_after(all, rx + 5, REG_RCTL, rctl_init());
    lemma_register_after(all, tx + 0, REG_TDBAL, low_half(tx_ring));
    lemma_register_after(all, tx + 1, REG_TDBAH, high_half(tx_ring));
    lemma_register_after(all, tx + 2, REG_TDLEN, TX_RING_BYTES as u32);
    lemma_register_after(all, tx + 3, REG_TDH, 0);
    lemma_register_after(all, tx + 4, REG_TDT, 0);
    lemma_register_after(all, tx + 5, REG_TCTL, tctl_init());
    lemma_register_after(all, tx + 6, REG_TIPG, TIPG_COPPER);
}

/// The descriptors after initialization: receive descriptor `i` points at
/// buffer `i` of the arena and is otherwise zero, and every transmit
/// descriptor is marked done.
pub proof fn lemma_init_descriptors(rx_ring: u64, rx_arena: u64, tx_ring: u64, i: int)
    requires
        0 <= i < RX_DESC_COUNT,
    ensures
        init_commands(rx_ring, rx_arena, tx_ring)[i] == (Command::RxStore {
            index: i as usize,
            desc: RxDesc {
                addr: rx_buffer_addr(rx_arena, i),
                length: 0,
                checksum: 0,
                status: 0,
                errors: 0,
                special: 0,
            },
        }),
        init_commands(rx_ring, rx_arena, tx_ring)[RX_DESC_COUNT + 6 + i] == (Command::TxStore {
            index: i as usize,
            desc: TxDesc {
                addr: 0,
                length: 0,
                cso: 0,
                cmd: 0,
                status: TX_STA_DD,
                css: 0,
                special: 0,
            },
        }),
        crate::regs::done_bit(TX_STA_DD),
{
}

/// The value of a register after two lists of commands is what the second
/// list leaves in it, or what the first leaves where the second does not
/// write it.
pub proof fn lemma_register_after_add(a: Seq<Command>, b: Seq<Command>, reg: u16)
    ensures
        register_after(a + b, reg) == match register_after(b, reg) {
            Some(value) => Some(value),
            None => register_after(a, reg),
        },
    decreases b.len(),
{
    if b.len() == 0 {
        assert(a + b =~= a);
    } else {
        assert((a + b).drop_last() =~= a + b.drop_last());
        assert((a + b).last() == b.last());
        lemma_register_after_add(a, b.drop_last(), reg);
    }
}

} // verus!
