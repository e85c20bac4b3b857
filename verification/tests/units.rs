//! The pieces of the driver core, each on its own.

use e1000::bar::{Bar, BarKind, BusAccess, RegisterAccess};
use e1000::bringup::Answer;
use e1000::desc::{RxDesc, TxDesc, DESC_STATUS_OFFSET};
use e1000::eeprom::{
    detect_eeprom, mac_from_receive_address, mac_from_words, EepromRead, MacRead,
};
use e1000::model::{Address, BindAddress, NicError, PciDevice};
use e1000::nic::{Disable, NIC};
use e1000::platform::{Command, Next, Query};
use e1000::regs::{
    is_done, REG_EECD, REG_EERD, REG_RAH, REG_RAL, REG_RCTL, REG_TCTL, RX_DESC_COUNT,
    TX_DESC_COUNT,
};
use e1000::ring::{RX_ARENA_BYTES, RX_RING_BYTES, TX_RING_BYTES};

fn card() -> NIC {
    let pci = PciDevice {
        vendor_id: 0x8086,
        device_id: 0x100e,
        status_reg: Some(1),
        command_reg: Some(2),
        bar0: Bar::port(0xc000),
    };
    let mut construction = NIC::new(&pci).expect("construction begins");
    let answers = [
        Answer::Memory(Some(0x1000)),
        Answer::Memory(Some(0x20_0000)),
        Answer::Memory(Some(0x2000)),
        Answer::Word(0),
        Answer::Word(0x4433_2211),
        Answer::Word(0x8000_6655),
    ];
    for answer in answers {
        match construction.step(answer).next {
            Next::Continue(next) => construction = next,
            Next::Done(result) => return result.expect("the construction succeeds"),
        }
    }
    panic!("six answers finish a construction without EEPROM");
}

#[test]
fn receive_descriptor_layout_is_packed_little_endian() {
    let desc = RxDesc {
        addr: 0x0807_0605_0403_0201,
        length: 0x0a09,
        checksum: 0x0c0b,
        status: 0x0d,
        errors: 0x0e,
        special: 0x100f,
    };
    let bytes = desc.to_bytes();
    assert_eq!(bytes, [1, 2, 3, 4, 5, 6, 7, 8, 9, 10, 11, 12, 13, 14, 15, 16]);
    assert_eq!(bytes[DESC_STATUS_OFFSET], desc.status);
    assert_eq!(RxDesc::from_bytes(&bytes), desc);
}

#[test]
fn transmit_descriptor_layout_is_packed_little_endian() {
    let desc = TxDesc {
        addr: 0x0807_0605_0403_0201,
        length: 0x0a09,
        cso: 0x0b,
        cmd: 0x0c,
        status: 0x0d,
        css: 0x0e,
        special: 0x100f,
    };
    let bytes = desc.to_bytes();
    assert_eq!(bytes, [1, 2, 3, 4, 5, 6, 7, 8, 9, 10, 11, 12, 13, 14, 15, 16]);
    assert_eq!(bytes[DESC_STATUS_OFFSET], desc.status);
    assert_eq!(TxDesc::from_bytes(&bytes), desc);
}

#[test]
fn descriptors_survive_ring_memory() {
    let extremes = [0u64, 1, 0xffff_ffff, 0x1_0000_0000, u64::MAX];
    for addr in extremes {
        for length in [0u16, 1, 0x00ff, 0x0100, u16::MAX] {
            let rx = RxDesc { addr, length, checksum: !length, status: 3, errors: 0, special: 7 };
            assert_eq!(RxDesc::from_bytes(&rx.to_bytes()), rx);
            let tx =
                TxDesc { addr, length, cso: 1, cmd: 0x0b, status: 0, css: 0xff, special: !length };
            assert_eq!(TxDesc::from_bytes(&tx.to_bytes()), tx);
        }
    }
    let mut bytes = [0u8; 16];
    for (i, b) in bytes.iter_mut().enumerate() {
        *b = (200 + i) as u8;
    }
    assert_eq!(RxDesc::from_bytes(&bytes).to_bytes(), bytes);
    assert_eq!(TxDesc::from_bytes(&bytes).to_bytes(), bytes);
}

#[test]
fn blank_descriptors() {
    let rx = RxDesc::empty(0x1234_5678_9abc);
    assert_eq!(rx.addr, 0x1234_5678_9abc);
    assert_eq!(rx.to_bytes()[8..], [0u8; 8]);
    assert!(!rx.is_done());
    let tx = TxDesc::idle();
    assert_eq!(tx.to_bytes(), [0, 0, 0, 0, 0, 0, 0, 0, 0, 0, 0, 0, 1, 0, 0, 0]);
    assert!(tx.is_done());
}

#[test]
fn done_bit_is_bit_zero() {
    assert!(is_done(0x01));
    assert!(is_done(0xff));
    assert!(is_done(0x03));
    assert!(!is_done(0x00));
    assert!(!is_done(0xfe));
}

#[test]
fn memory_mapped_register_access() {
    let bar = Bar::memory(0xfebc_0000).expect("the window fits");
    assert_eq!(bar.kind(), BarKind::Memory);
    assert_eq!(bar.base(), 0xfebc_0000);
    assert_eq!(
        bar.read_u32(0x2810),
        RegisterAccess { select: None, data: BusAccess::MmioRead { addr: 0xfebc_2810 } }
    );
    assert_eq!(
        bar.write_u32(0x0100, 0xdead_beef),
        RegisterAccess {
            select: None,
            data: BusAccess::MmioWrite { addr: 0xfebc_0100, value: 0xdead_beef }
        }
    );
}

#[test]
fn port_mapped_register_access() {
    let bar = Bar::port(0xc000).expect("the ports fit");
    assert_eq!(bar.kind(), BarKind::Port);
    assert_eq!(
        bar.read_u32(0x0008),
        RegisterAccess {
            select: Some(BusAccess::PortOut { port: 0xc000, value: 0x0008 }),
            data: BusAccess::PortIn { port: 0xc004 }
        }
    );
    assert_eq!(
        bar.write_u32(0x3818, 5),
        RegisterAccess {
            select: Some(BusAccess::PortOut { port: 0xc000, value: 0x3818 }),
            data: BusAccess::PortOut { port: 0xc004, value: 5 }
        }
    );
}

#[test]
fn bar_at_the_end_of_the_address_space_is_refused() {
    assert!(Bar::memory(u64::MAX).is_none());
    assert!(Bar::memory(u64::MAX - 0x1_0003).is_none());
    assert!(Bar::memory(u64::MAX - 0x1_0004).is_some());
    assert!(Bar::port(u16::MAX - 3).is_none());
    assert!(Bar::port(u16::MAX - 4).is_some());
    assert!(Bar::memory(0).is_some());
}

#[test]
fn card_reaches_registers_through_its_bar() {
    let nic = card();
    assert_eq!(
        nic.read_command(0x0008),
        RegisterAccess {
            select: Some(BusAccess::PortOut { port: 0xc000, value: 0x0008 }),
            data: BusAccess::PortIn { port: 0xc004 }
        }
    );
    assert_eq!(
        nic.write_command(0x2818, 9),
        RegisterAccess {
            select: Some(BusAccess::PortOut { port: 0xc000, value: 0x2818 }),
            data: BusAccess::PortOut { port: 0xc004, value: 9 }
        }
    );
}

#[test]
fn eeprom_presence_is_bit_eight() {
    assert!(detect_eeprom(0x0000_0100));
    assert!(detect_eeprom(0xffff_ffff));
    assert!(!detect_eeprom(0x0000_0000));
    assert!(!detect_eeprom(0xffff_feff));
}

#[test]
fn station_address_from_words() {
    assert_eq!(mac_from_words(0x5452, 0x0054, 0x5612), [0x52, 0x54, 0x54, 0x00, 0x12, 0x56]);
    assert_eq!(mac_from_words(0, 0, 0), [0; 6]);
    assert_eq!(mac_from_words(0xffff, 0x00ff, 0xff00), [0xff, 0xff, 0xff, 0x00, 0x00, 0xff]);
}

#[test]
fn station_address_from_receive_address_registers() {
    assert_eq!(
        mac_from_receive_address(0x1200_5452, 0x8000_5634),
        [0x52, 0x54, 0x00, 0x12, 0x34, 0x56]
    );
    assert_eq!(mac_from_receive_address(0, 0xffff_0000), [0; 6]);
}

#[test]
fn eeprom_read_steps() {
    let state = EepromRead::start(0x7f);
    assert_eq!(state, EepromRead::Acquire { addr: 0x7f });
    assert_eq!(state.pending(), Query::RegRead { reg: REG_EECD });
    let step = state.step(0x0000_0100);
    assert_eq!(
        step.commands,
        vec![
            Command::RegWrite { reg: REG_EECD, value: 0x0000_0140 },
            Command::RegWrite { reg: REG_EERD, value: 0x0000_7f01 },
        ]
    );
    let state = match step.next {
        Next::Continue(s) => s,
        Next::Done(_) => panic!("the read has only begun"),
    };
    assert_eq!(state, EepromRead::Poll);
    assert_eq!(state.pending(), Query::RegRead { reg: REG_EERD });
    let step = state.step(0xabcd_7f01);
    assert!(step.commands.is_empty());
    assert!(matches!(step.next, Next::Continue(EepromRead::Poll)));
    let step = state.step(0xabcd_7f11);
    assert!(step.commands.is_empty());
    let state = match step.next {
        Next::Continue(s) => s,
        Next::Done(_) => panic!("the bus is still held"),
    };
    assert_eq!(state, EepromRead::Release { data: 0xabcd });
    assert_eq!(state.pending(), Query::RegRead { reg: REG_EECD });
    let step = state.step(0xffff_ffff);
    assert_eq!(step.commands, vec![Command::RegWrite { reg: REG_EECD, value: 0xffff_ffbf }]);
    assert!(matches!(step.next, Next::Done(0xabcd)));
}

#[test]
fn station_address_without_eeprom_takes_two_reads() {
    let state = MacRead::start(false);
    assert_eq!(state, MacRead::Ral);
    assert_eq!(state.pending(), Query::RegRead { reg: REG_RAL });
    let step = state.step(0x4433_2211);
    assert!(step.commands.is_empty());
    let state = match step.next {
        Next::Continue(s) => s,
        Next::Done(_) => panic!("RAH is still to be read"),
    };
    assert_eq!(state.pending(), Query::RegRead { reg: REG_RAH });
    let step = state.step(0x8000_6655);
    assert!(step.commands.is_empty());
    match step.next {
        Next::Done(mac) => assert_eq!(mac, [0x11, 0x22, 0x33, 0x44, 0x55, 0x66]),
        Next::Continue(_) => panic!("both registers were read"),
    }
}

#[test]
fn station_address_with_eeprom_begins_at_word_zero() {
    let state = MacRead::start(true);
    assert_eq!(
        state,
        MacRead::Eeprom { index: 0, w0: 0, w1: 0, read: EepromRead::Acquire { addr: 0 } }
    );
    assert_eq!(state.pending(), Query::RegRead { reg: REG_EECD });
}

#[test]
fn disabling_clears_only_the_enable_bits() {
    let nic = card();
    let state = nic.disable();
    assert_eq!(state.pending(), Query::RegRead { reg: REG_RCTL });
    let step = state.step(0x0201_801a);
    assert_eq!(step.commands, vec![Command::RegWrite { reg: REG_RCTL, value: 0x0201_8018 }]);
    let state = match step.next {
        Next::Continue(s) => s,
        Next::Done(()) => panic!("the transmitter is still on"),
    };
    assert_eq!(state, Disable::Tctl);
    assert_eq!(state.pending(), Query::RegRead { reg: REG_TCTL });
    let step = state.step(0x0020_00f2);
    assert_eq!(step.commands, vec![Command::RegWrite { reg: REG_TCTL, value: 0x0020_00f0 }]);
    assert!(matches!(step.next, Next::Done(())));
}

#[test]
fn error_messages() {
    assert_eq!(NicError::InvalidPciInfo.message(), "Invalid PCI informations for NIC");
    assert_eq!(NicError::InvalidBar.message(), "Invalid BAR for NIC");
    assert_eq!(NicError::OutOfMemory.message(), "Memory allocation failed");
}

#[test]
fn constructed_card_starts_clean() {
    let nic = card();
    assert_eq!(nic.get_mac(), &[0x11, 0x22, 0x33, 0x44, 0x55, 0x66]);
    assert_eq!(nic.rx_cur(), 0);
    assert_eq!(nic.tx_cur(), 0);
    assert_eq!(nic.rx_discarded(), 0);
    assert_eq!(nic.status_reg(), 1);
    assert_eq!(nic.command_reg(), 2);
    assert!(!nic.eeprom_exists());
    assert_eq!(Some(nic.bar0()), Bar::port(0xc000));
    assert!(nic.get_addresses().is_empty());
    let memory = nic.memory();
    assert_eq!((memory.rx_ring, memory.rx_arena, memory.tx_ring), (0x1000, 0x20_0000, 0x2000));
    assert_eq!(
        nic.release(),
        vec![
            Command::Free { addr: 0x2000, bytes: TX_RING_BYTES },
            Command::Free { addr: 0x20_0000, bytes: RX_ARENA_BYTES },
            Command::Free { addr: 0x1000, bytes: RX_RING_BYTES },
        ]
    );
}

#[test]
fn init_desc_programs_both_rings() {
    let nic = card();
    let commands = nic.init_desc();
    assert_eq!(commands.len(), RX_DESC_COUNT + 6 + TX_DESC_COUNT + 7);
    assert_eq!(
        commands[5],
        Command::RxStore { index: 5, desc: RxDesc::empty(0x20_0000 + 5 * 16384) }
    );
    assert_eq!(commands[RX_DESC_COUNT], Command::RegWrite { reg: 0x2800, value: 0x1000 });
    assert_eq!(commands[RX_DESC_COUNT + 1], Command::RegWrite { reg: 0x2804, value: 0 });
    assert_eq!(commands[RX_DESC_COUNT + 2], Command::RegWrite { reg: 0x2808, value: 2048 });
    assert_eq!(commands[RX_DESC_COUNT + 3], Command::RegWrite { reg: 0x2810, value: 0 });
    assert_eq!(commands[RX_DESC_COUNT + 4], Command::RegWrite { reg: 0x2818, value: 127 });
    assert_eq!(
        commands[RX_DESC_COUNT + 5],
        Command::RegWrite { reg: 0x0100, value: 0x0201_801a }
    );
    let tx = RX_DESC_COUNT + 6;
    assert_eq!(commands[tx + 127], Command::TxStore { index: 127, desc: TxDesc::idle() });
    let regs = tx + TX_DESC_COUNT;
    assert_eq!(commands[regs], Command::RegWrite { reg: 0x3800, value: 0x2000 });
    assert_eq!(commands[regs + 1], Command::RegWrite { reg: 0x3804, value: 0 });
    assert_eq!(commands[regs + 2], Command::RegWrite { reg: 0x3808, value: 2048 });
    assert_eq!(commands[regs + 3], Command::RegWrite { reg: 0x3810, value: 0 });
    assert_eq!(commands[regs + 4], Command::RegWrite { reg: 0x3818, value: 0 });
    assert_eq!(commands[regs + 5], Command::RegWrite { reg: 0x0400, value: 0x0020_00f2 });
    assert_eq!(commands[regs + 6], Command::RegWrite { reg: 0x0410, value: 0x0060_200a });
}

#[test]
fn high_half_of_a_ring_address_goes_to_the_high_register() {
    let pci = PciDevice {
        vendor_id: 0x8086,
        device_id: 0x100e,
        status_reg: Some(0),
        command_reg: Some(0),
        bar0: Bar::memory(0x1000),
    };
    let mut construction = NIC::new(&pci).expect("construction begins");
    let answers = [
        Answer::Memory(Some(0x0000_0012_3456_7890)),
        Answer::Memory(Some(0x0000_0001_0000_0000)),
        Answer::Memory(Some(0xffff_ffff_ffff_0000)),
        Answer::Word(0),
        Answer::Word(0),
    ];
    for answer in answers {
        match construction.step(answer).next {
            Next::Continue(next) => construction = next,
            Next::Done(_) => panic!("the address is still to be read"),
        }
    }
    let step = construction.step(Answer::Word(0));
    assert_eq!(
        step.commands[RX_DESC_COUNT],
        Command::RegWrite { reg: 0x2800, value: 0x3456_7890 }
    );
    assert_eq!(step.commands[RX_DESC_COUNT + 1], Command::RegWrite { reg: 0x2804, value: 0x12 });
    let regs = RX_DESC_COUNT + 6 + TX_DESC_COUNT;
    assert_eq!(step.commands[regs], Command::RegWrite { reg: 0x3800, value: 0xffff_0000 });
    assert_eq!(step.commands[regs + 1], Command::RegWrite { reg: 0x3804, value: 0xffff_ffff });
    assert!(matches!(step.next, Next::Done(Ok(_))));
}

#[test]
fn region_that_wraps_counts_as_failed_allocation() {
    let pci = PciDevice {
        vendor_id: 0x8086,
        device_id: 0x100e,
        status_reg: Some(0),
        command_reg: Some(0),
        bar0: Bar::memory(0x1000),
    };
    let construction = NIC::new(&pci).expect("construction begins");
    let construction = match construction.step(Answer::Memory(Some(0x1000))).next {
        Next::Continue(next) => next,
        Next::Done(_) => panic!("the ring is usable"),
    };
    let step = construction.step(Answer::Memory(Some(u64::MAX - 0x1000)));
    assert_eq!(
        step.commands,
        vec![
            Command::Free { addr: u64::MAX - 0x1000, bytes: RX_ARENA_BYTES },
            Command::Free { addr: 0x1000, bytes: RX_RING_BYTES },
        ]
    );
    assert!(matches!(step.next, Next::Done(Err(NicError::OutOfMemory))));
}

#[test]
fn bound_addresses_are_kept_in_order() {
    let mut nic = card();
    let first = BindAddress { addr: Address::IPv4([10, 0, 2, 15]), subnet_mask: 24 };
    let second = BindAddress { addr: Address::IPv6([0xfe; 16]), subnet_mask: 64 };
    nic.bind_address(first);
    nic.bind_address(second);
    assert_eq!(nic.get_addresses(), &vec![first, second]);
    assert_eq!(nic.get_mac(), &[0x11, 0x22, 0x33, 0x44, 0x55, 0x66]);
}

#[test]
fn steps_of_a_read_report_their_progress() {
    let mut nic = card();
    let rx = nic.read(16);
    assert_eq!(rx.copied(), 0);
    assert_eq!(nic.read_pending(&rx), Query::RxLoad { index: 0 });
    let desc = RxDesc { addr: 0x20_0000, length: 4, checksum: 0, status: 1, errors: 0, special: 0 };
    let step = nic.read_desc(rx, desc);
    assert_eq!(step.commands, vec![Command::InvalidateRxBuffer { index: 0 }]);
    let rx = match step.next {
        Next::Continue(rx) => rx,
        Next::Done(_) => panic!("the frame is still to be copied"),
    };
    assert_eq!(nic.read_pending(&rx), Query::RxFetch { index: 0, len: 4 });
    let ignored = nic.read_desc(rx, desc);
    assert!(ignored.commands.is_empty());
    let rx = match ignored.next {
        Next::Continue(rx) => rx,
        Next::Done(_) => panic!("a descriptor that was not asked for changes nothing"),
    };
    assert_eq!(nic.read_pending(&rx), Query::RxFetch { index: 0, len: 4 });
    let mut buf = [0u8; 16];
    let step = nic.read_frame(rx, &[9, 8, 7, 6], &mut buf);
    assert_eq!(
        step.commands,
        vec![
            Command::RxSetStatus { index: 0, status: 0 },
            Command::InvalidateRxDesc { index: 0 },
        ]
    );
    let rx = match step.next {
        Next::Continue(rx) => rx,
        Next::Done(_) => panic!("the next descriptor is still to be looked at"),
    };
    assert_eq!(rx.copied(), 4);
    assert_eq!(&buf[0..5], &[9, 8, 7, 6, 0]);
    assert_eq!(nic.rx_cur(), 1);
    assert_eq!(nic.read_pending(&rx), Query::RxLoad { index: 1 });
    let unasked = nic.read_frame(rx, &[1, 2, 3], &mut buf);
    assert!(unasked.commands.is_empty());
    assert_eq!(&buf[0..5], &[9, 8, 7, 6, 0]);
    assert_eq!(nic.rx_cur(), 1);
}

#[test]
fn steps_of_a_write_report_their_progress() {
    let mut nic = card();
    let step = nic.write(0x9000, 40000);
    assert!(step.commands.is_empty());
    let tx = match step.next {
        Next::Continue(tx) => tx,
        Next::Done(_) => panic!("the buffer is not empty"),
    };
    assert_eq!(tx.written(), 0);
    assert_eq!(nic.write_pending(&tx), Query::TxLoad { index: 0 });
    let step = nic.write_desc(tx, TxDesc::idle());
    assert!(step.commands.is_empty());
    let tx = match step.next {
        Next::Continue(tx) => tx,
        Next::Done(_) => panic!("the descriptor under the cursor is free"),
    };
    assert_eq!(nic.write_pending(&tx), Query::TxLoad { index: 1 });
    let step = nic.write_desc(tx, TxDesc::idle());
    assert_eq!(
        step.commands,
        vec![Command::TxStore {
            index: 0,
            desc: TxDesc {
                addr: 0x9000,
                length: 16384,
                cso: 0,
                cmd: 0x08,
                status: 0,
                css: 0,
                special: 0
            }
        }]
    );
    let tx = match step.next {
        Next::Continue(tx) => tx,
        Next::Done(_) => panic!("two chunks are left"),
    };
    assert_eq!(tx.written(), 16384);
    assert_eq!(nic.tx_cur(), 1);
    assert_eq!(nic.write_pending(&tx), Query::TxLoad { index: 2 });
    let busy = TxDesc { addr: 0, length: 0, cso: 0, cmd: 0, status: 0, css: 0, special: 0 };
    let step = nic.write_desc(tx, busy);
    assert_eq!(step.commands, vec![Command::RegWrite { reg: 0x3818, value: 1 }]);
    assert!(matches!(step.next, Next::Done(16384)));
    assert_eq!(nic.tx_cur(), 1);
}
