//! The driver core run against a register-level model of the device.

use e1000::bar::Bar;
use e1000::desc::{RxDesc, TxDesc};
use e1000::driver::{Attachment, E1000Driver, PlugAction};
use e1000::eeprom::EepromRead;
use e1000::bringup::{Answer, Construction};
use e1000::model::{NicError, PciDevice};
use e1000::nic::NIC;
use e1000::platform::{Command, Io, Next, Query};
use e1000::regs::{
    REG_EECD, REG_EERD, REG_RAH, REG_RAL, REG_RCTL, REG_RDBAH, REG_RDBAL, REG_RDH, REG_RDLEN,
    REG_RDT, REG_STATUS, REG_TCTL, REG_TDBAH, REG_TDBAL, REG_TDH, REG_TDLEN, REG_TDT, REG_TIPG,
    RX_BUFF_SIZE, RX_DESC_COUNT, TX_BUFF_SIZE, TX_DESC_COUNT,
};
use e1000::ring::{RX_ARENA_BYTES, RX_RING_BYTES, TX_RING_BYTES};

/// A model of the device and of the platform around it.
struct Device {
    eeprom_present: bool,
    eeprom: Vec<u16>,
    polls: u32,
    polls_left: u32,
    eerd_addr: usize,
    regs: Vec<(u16, u32)>,
    rx: Vec<RxDesc>,
    rx_data: Vec<Vec<u8>>,
    tx: Vec<TxDesc>,
    next_addr: u64,
    fail_at: Option<usize>,
    allocated: Vec<(u64, usize)>,
    freed: Vec<(u64, usize)>,
    log: Vec<Io>,
    completes: bool,
    loops: bool,
    tdh: usize,
    rdh: usize,
    memory_base: u64,
    memory: Vec<u8>,
}

impl Device {
    fn new() -> Device {
        let blank_rx = RxDesc { addr: 0, length: 0, checksum: 0, status: 0, errors: 0, special: 0 };
        let blank_tx =
            TxDesc { addr: 0, length: 0, cso: 0, cmd: 0, status: 0, css: 0, special: 0 };
        Device {
            eeprom_present: true,
            eeprom: vec![0x5452, 0x0054, 0x5612, 0x3412],
            polls: 0,
            polls_left: 0,
            eerd_addr: 0,
            regs: Vec::new(),
            rx: vec![blank_rx; RX_DESC_COUNT],
            rx_data: vec![vec![0u8; RX_BUFF_SIZE]; RX_DESC_COUNT],
            tx: vec![blank_tx; TX_DESC_COUNT],
            next_addr: 0x0010_0000,
            fail_at: None,
            allocated: Vec::new(),
            freed: Vec::new(),
            log: Vec::new(),
            completes: false,
            loops: false,
            tdh: 0,
            rdh: 0,
            memory_base: 0,
            memory: Vec::new(),
        }
    }

    fn reg(&self, reg: u16) -> u32 {
        let mut value = 0;
        for (r, v) in &self.regs {
            if *r == reg {
                value = *v;
            }
        }
        value
    }

    fn set_reg(&mut self, reg: u16, value: u32) {
        self.regs.push((reg, value));
    }

    fn word(&mut self, reg: u16) -> u32 {
        if reg == REG_EECD {
            let present = if self.eeprom_present { 0x100 } else { 0 };
            (self.reg(REG_EECD) & !0x100) | present
        } else if reg == REG_EERD {
            if self.polls_left > 0 {
                self.polls_left -= 1;
                (self.eerd_addr as u32) << 8
            } else {
                ((self.eeprom[self.eerd_addr] as u32) << 16) | ((self.eerd_addr as u32) << 8) | 0x10
            }
        } else {
            self.reg(reg)
        }
    }

    fn allocate(&mut self, bytes: usize) -> Option<u64> {
        let n = self.allocated.len();
        if self.fail_at == Some(n) {
            return None;
        }
        let addr = self.next_addr;
        self.next_addr += ((bytes as u64) + 0xfff) & !0xfff;
        self.allocated.push((addr, bytes));
        Some(addr)
    }

    fn deliver(&mut self, index: usize, frame: &[u8]) {
        self.rx[index].length = frame.len() as u16;
        self.rx[index].status = 0x03;
        self.rx[index].errors = 0;
        self.rx_data[index][..frame.len()].copy_from_slice(frame);
    }

    fn complete(&mut self, upto: usize) {
        while self.tdh != upto {
            let desc = self.tx[self.tdh];
            if self.loops {
                let from = (desc.addr - self.memory_base) as usize;
                let frame = self.memory[from..from + desc.length as usize].to_vec();
                let slot = self.rdh;
                self.deliver(slot, &frame);
                self.rdh = (self.rdh + 1) % RX_DESC_COUNT;
            }
            self.tx[self.tdh].status |= 0x01;
            self.tdh = (self.tdh + 1) % TX_DESC_COUNT;
        }
    }

    fn perform(&mut self, command: Command) {
        self.log.push(Io::Do(command));
        match command {
            Command::RegWrite { reg, value } => {
                if reg == REG_EERD && value & 1 != 0 {
                    self.eerd_addr = ((value >> 8) & 0xff) as usize;
                    self.polls_left = self.polls;
                }
                self.set_reg(reg, value);
                if reg == REG_TDT && self.completes {
                    self.complete(value as usize);
                }
            }
            Command::RxStore { index, desc } => self.rx[index] = desc,
            Command::RxSetStatus { index, status } => self.rx[index].status = status,
            Command::InvalidateRxBuffer { .. } => {}
            Command::InvalidateRxDesc { .. } => {}
            Command::TxStore { index, desc } => self.tx[index] = desc,
            Command::Free { addr, bytes } => self.freed.push((addr, bytes)),
        }
    }

    fn answer(&mut self, query: Query) -> Answer {
        self.log.push(Io::Ask(query));
        match query {
            Query::RegRead { reg } => Answer::Word(self.word(reg)),
            Query::Alloc { bytes } => Answer::Memory(self.allocate(bytes)),
            _ => panic!("a construction asks for registers and memory only"),
        }
    }
}

fn emulated() -> PciDevice {
    PciDevice {
        vendor_id: 0x8086,
        device_id: 0x100e,
        status_reg: Some(0x0010),
        command_reg: Some(0x0007),
        bar0: Bar::memory(0xfebc_0000),
    }
}

fn finish(dev: &mut Device, mut construction: Construction) -> Result<NIC, NicError> {
    loop {
        let query = construction.pending();
        let answer = dev.answer(query);
        let step = construction.step(answer);
        for command in step.commands {
            dev.perform(command);
        }
        match step.next {
            Next::Continue(next) => construction = next,
            Next::Done(result) => return result,
        }
    }
}

fn construct(dev: &mut Device) -> NIC {
    let construction = NIC::new(&emulated()).expect("the device has all a construction needs");
    finish(dev, construction).expect("the construction succeeds")
}

fn read(nic: &mut NIC, dev: &mut Device, buf: &mut [u8]) -> (u64, bool) {
    let mut rx = nic.read(buf.len());
    loop {
        let query = nic.read_pending(&rx);
        dev.log.push(Io::Ask(query));
        let step = match query {
            Query::RxLoad { index } => {
                let desc = dev.rx[index];
                nic.read_desc(rx, desc)
            }
            Query::RxFetch { index, len } => {
                let frame = dev.rx_data[index][..len].to_vec();
                nic.read_frame(rx, &frame, buf)
            }
            _ => panic!("a read asks for descriptors and frames only"),
        };
        for command in step.commands {
            dev.perform(command);
        }
        match step.next {
            Next::Continue(next) => rx = next,
            Next::Done(result) => return result,
        }
    }
}

fn write(nic: &mut NIC, dev: &mut Device, phys: u64, len: usize) -> u64 {
    let mut step = nic.write(phys, len);
    loop {
        for command in step.commands {
            dev.perform(command);
        }
        let tx = match step.next {
            Next::Continue(tx) => tx,
            Next::Done(written) => return written,
        };
        let query = nic.write_pending(&tx);
        dev.log.push(Io::Ask(query));
        step = match query {
            Query::TxLoad { index } => {
                let desc = dev.tx[index];
                nic.write_desc(tx, desc)
            }
            _ => panic!("a write asks for transmit descriptors only"),
        };
    }
}

#[test]
fn mac_is_read_from_the_eeprom_words() {
    let mut dev = Device::new();
    dev.eeprom = vec![0x5452, 0x0054, 0x5612, 0x3412];
    let nic = construct(&mut dev);
    assert_eq!(nic.get_mac(), &[0x52, 0x54, 0x54, 0x00, 0x12, 0x56]);
    assert!(nic.eeprom_exists());
}

#[test]
fn known_mac_comes_back_in_order() {
    let mut dev = Device::new();
    dev.eeprom = vec![0x5452, 0x1200, 0x5634];
    dev.polls = 3;
    let nic = construct(&mut dev);
    assert_eq!(nic.get_mac(), &[0x52, 0x54, 0x00, 0x12, 0x34, 0x56]);
}

#[test]
fn mac_comes_from_receive_address_registers_without_eeprom() {
    let mut dev = Device::new();
    dev.eeprom_present = false;
    dev.set_reg(REG_RAL, 0x1200_5452);
    dev.set_reg(REG_RAH, 0x8000_5634);
    let nic = construct(&mut dev);
    assert!(!nic.eeprom_exists());
    assert_eq!(nic.get_mac(), &[0x52, 0x54, 0x00, 0x12, 0x34, 0x56]);
    assert!(!dev.log.contains(&Io::Ask(Query::RegRead { reg: REG_EERD })));
    assert!(dev.log.contains(&Io::Ask(Query::RegRead { reg: REG_RAL })));
    assert!(dev.log.contains(&Io::Ask(Query::RegRead { reg: REG_RAH })));
}

#[test]
fn receive_ring_is_programmed() {
    let mut dev = Device::new();
    let nic = construct(&mut dev);
    let memory = nic.memory();
    let base = (dev.reg(REG_RDBAL) as u64) | ((dev.reg(REG_RDBAH) as u64) << 32);
    assert_eq!(base, memory.rx_ring);
    assert_eq!(dev.reg(REG_RDLEN), (RX_DESC_COUNT * 16) as u32);
    assert_eq!(dev.reg(REG_RDLEN) % 128, 0);
    assert_eq!(dev.reg(REG_RDH), 0);
    assert_eq!(dev.reg(REG_RDT), (RX_DESC_COUNT - 1) as u32);
    let rctl = dev.reg(REG_RCTL);
    assert_eq!(rctl, (1 << 1) | (1 << 3) | (1 << 4) | (1 << 15) | (1 << 25) | (1 << 16));
    for i in 0..RX_DESC_COUNT {
        let expected = RxDesc {
            addr: memory.rx_arena + (i * RX_BUFF_SIZE) as u64,
            length: 0,
            checksum: 0,
            status: 0,
            errors: 0,
            special: 0,
        };
        assert_eq!(dev.rx[i], expected);
    }
    assert_eq!(nic.rx_cur(), 0);
}

#[test]
fn transmit_ring_is_programmed() {
    let mut dev = Device::new();
    let nic = construct(&mut dev);
    let memory = nic.memory();
    let base = (dev.reg(REG_TDBAL) as u64) | ((dev.reg(REG_TDBAH) as u64) << 32);
    assert_eq!(base, memory.tx_ring);
    assert_eq!(dev.reg(REG_TDLEN), (TX_DESC_COUNT * 16) as u32);
    assert_eq!(dev.reg(REG_TDH), 0);
    assert_eq!(dev.reg(REG_TDT), 0);
    let tctl = dev.reg(REG_TCTL);
    assert_eq!(tctl, (1 << 1) | (0xf << 4) | (0x200 << 12));
    assert_eq!(dev.reg(REG_TIPG), 0x0060_200A);
    for i in 0..TX_DESC_COUNT {
        assert_eq!(dev.tx[i].status, 0x01);
        assert_eq!(dev.tx[i].addr, 0);
        assert_eq!(dev.tx[i].cmd, 0);
    }
    assert_eq!(nic.tx_cur(), 0);
}

#[test]
fn rings_are_programmed_receive_side_first() {
    let mut dev = Device::new();
    let _nic = construct(&mut dev);
    let writes: Vec<u16> = dev
        .log
        .iter()
        .filter_map(|io| match io {
            Io::Do(Command::RegWrite { reg, .. }) if *reg >= 0x100 => Some(*reg),
            _ => None,
        })
        .collect();
    assert_eq!(
        writes,
        vec![
            REG_RDBAL, REG_RDBAH, REG_RDLEN, REG_RDH, REG_RDT, REG_RCTL, REG_TDBAL, REG_TDBAH,
            REG_TDLEN, REG_TDH, REG_TDT, REG_TCTL, REG_TIPG
        ]
    );
}

#[test]
fn single_frame_is_read() {
    let mut dev = Device::new();
    let mut nic = construct(&mut dev);
    dev.deliver(0, &[0xAA, 0xBB, 0xCC]);
    let mut buf = [0u8; 10];
    assert_eq!(read(&mut nic, &mut dev, &mut buf), (3, false));
    assert_eq!(&buf[0..3], &[0xAA, 0xBB, 0xCC]);
    assert_eq!(&buf[3..], &[0u8; 7]);
    assert_eq!(dev.reg(REG_RDT), 0);
    assert_eq!(dev.rx[0].status, 0);
    assert_eq!(nic.rx_cur(), 1);
}

#[test]
fn frame_that_does_not_fit_stays_pending() {
    let mut dev = Device::new();
    let mut nic = construct(&mut dev);
    dev.deliver(0, &[1, 2]);
    dev.deliver(1, &[3, 4, 5, 6, 7]);
    let mut buf = [0u8; 3];
    assert_eq!(read(&mut nic, &mut dev, &mut buf), (2, true));
    assert_eq!(buf, [1, 2, 0]);
    assert_eq!(dev.rx[0].status, 0);
    assert_eq!(dev.rx[1].status, 0x03);
    assert_eq!(dev.reg(REG_RDT), 0);
    assert_eq!(nic.rx_cur(), 1);
    let mut large = [0u8; 8];
    assert_eq!(read(&mut nic, &mut dev, &mut large), (5, false));
    assert_eq!(&large[0..5], &[3, 4, 5, 6, 7]);
    assert_eq!(dev.reg(REG_RDT), 1);
}

#[test]
fn frames_are_spliced_in_order() {
    let mut dev = Device::new();
    let mut nic = construct(&mut dev);
    dev.deliver(0, &[1, 2, 3]);
    dev.deliver(1, &[4]);
    dev.deliver(2, &[5, 6]);
    let mut buf = [9u8; 8];
    let before = dev.log.len();
    assert_eq!(read(&mut nic, &mut dev, &mut buf), (6, false));
    assert_eq!(buf, [1, 2, 3, 4, 5, 6, 9, 9]);
    for i in 0..3 {
        assert_eq!(dev.rx[i].status, 0);
    }
    assert_eq!(dev.reg(REG_RDT), 2);
    assert_eq!(nic.rx_cur(), 3);
    let commands: Vec<Command> = dev.log[before..]
        .iter()
        .filter_map(|io| match io {
            Io::Do(c) => Some(*c),
            _ => None,
        })
        .collect();
    let mut expected = Vec::new();
    for i in 0..3 {
        expected.push(Command::InvalidateRxBuffer { index: i });
        expected.push(Command::RxSetStatus { index: i, status: 0 });
        expected.push(Command::InvalidateRxDesc { index: i });
    }
    expected.push(Command::RegWrite { reg: REG_RDT, value: 2 });
    assert_eq!(commands, expected);
}

#[test]
fn read_stops_when_the_buffer_is_full() {
    let mut dev = Device::new();
    let mut nic = construct(&mut dev);
    dev.deliver(0, &[1, 2]);
    dev.deliver(1, &[3]);
    let mut buf = [0u8; 2];
    assert_eq!(read(&mut nic, &mut dev, &mut buf), (2, true));
    assert_eq!(buf, [1, 2]);
    assert_eq!(dev.rx[1].status, 0x03);
}

#[test]
fn read_into_empty_buffer_reports_pending_data() {
    let mut dev = Device::new();
    let mut nic = construct(&mut dev);
    let mut none: [u8; 0] = [];
    let writes = dev.regs.len();
    assert_eq!(read(&mut nic, &mut dev, &mut none), (0, false));
    dev.deliver(0, &[1]);
    assert_eq!(read(&mut nic, &mut dev, &mut none), (0, true));
    assert_eq!(dev.regs.len(), writes);
    assert_eq!(dev.rx[0].status, 0x03);
    assert_eq!(nic.rx_cur(), 0);
}

#[test]
fn read_of_an_idle_ring_copies_nothing() {
    let mut dev = Device::new();
    let mut nic = construct(&mut dev);
    let mut buf = [7u8; 4];
    let writes = dev.regs.len();
    assert_eq!(read(&mut nic, &mut dev, &mut buf), (0, false));
    assert_eq!(buf, [7u8; 4]);
    assert_eq!(dev.regs.len(), writes);
    assert_eq!(dev.reg(REG_RDT), (RX_DESC_COUNT - 1) as u32);
}

#[test]
fn faulty_descriptor_is_discarded_and_counted() {
    let mut dev = Device::new();
    let mut nic = construct(&mut dev);
    dev.deliver(0, &[1, 2, 3]);
    dev.rx[0].errors = 0x01;
    dev.deliver(1, &[4, 5]);
    let mut buf = [0u8; 8];
    assert_eq!(read(&mut nic, &mut dev, &mut buf), (2, false));
    assert_eq!(&buf[0..2], &[4, 5]);
    assert_eq!(nic.rx_discarded(), 1);
    assert_eq!(dev.rx[0].status, 0);
    assert_eq!(dev.rx[1].status, 0);
    assert_eq!(dev.reg(REG_RDT), 1);
    assert_eq!(nic.rx_cur(), 2);
}

#[test]
fn descriptor_longer_than_a_buffer_is_discarded() {
    let mut dev = Device::new();
    let mut nic = construct(&mut dev);
    dev.rx[0].length = (RX_BUFF_SIZE + 1) as u16;
    dev.rx[0].status = 0x03;
    let mut buf = vec![0u8; 2 * RX_BUFF_SIZE];
    assert_eq!(read(&mut nic, &mut dev, &mut buf), (0, false));
    assert_eq!(nic.rx_discarded(), 1);
    assert_eq!(dev.rx[0].status, 0);
    assert_eq!(dev.reg(REG_RDT), 0);
}

#[test]
fn read_walks_the_ring_once_at_most() {
    let mut dev = Device::new();
    let mut nic = construct(&mut dev);
    for i in 0..RX_DESC_COUNT {
        dev.deliver(i, &[i as u8]);
    }
    let mut buf = vec![0u8; 1000];
    assert_eq!(read(&mut nic, &mut dev, &mut buf), (RX_DESC_COUNT as u64, false));
    for i in 0..RX_DESC_COUNT {
        assert_eq!(buf[i], i as u8);
        assert_eq!(dev.rx[i].status, 0);
    }
    assert_eq!(nic.rx_cur(), 0);
    assert_eq!(dev.reg(REG_RDT), (RX_DESC_COUNT - 1) as u32);
}

#[test]
fn receive_cursor_wraps_round_the_ring() {
    let mut dev = Device::new();
    let mut nic = construct(&mut dev);
    let mut buf = [0u8; 4];
    for round in 0..(RX_DESC_COUNT + 2) {
        let slot = round % RX_DESC_COUNT;
        assert_eq!(nic.rx_cur(), slot);
        dev.deliver(slot, &[round as u8]);
        assert_eq!(read(&mut nic, &mut dev, &mut buf), (1, false));
        assert_eq!(buf[0], round as u8);
        assert_eq!(dev.reg(REG_RDT), slot as u32);
    }
    assert_eq!(nic.rx_cur(), 2);
}

#[test]
fn large_write_fills_two_descriptors() {
    let mut dev = Device::new();
    let mut nic = construct(&mut dev);
    let phys = 0x4000_0000u64;
    assert_eq!(write(&mut nic, &mut dev, phys, 17000), 17000);
    assert_eq!(
        dev.tx[0],
        TxDesc { addr: phys, length: 16384, cso: 0, cmd: 0x08, status: 0, css: 0, special: 0 }
    );
    assert_eq!(
        dev.tx[1],
        TxDesc {
            addr: phys + 16384,
            length: 616,
            cso: 0,
            cmd: 0x08 | 0x01 | 0x02,
            status: 0,
            css: 0,
            special: 0
        }
    );
    assert_eq!(dev.tx[2].status, 0x01);
    assert_eq!(dev.reg(REG_TDT), 2);
    assert_eq!(nic.tx_cur(), 2);
}

#[test]
fn ring_fills_up_after_127_writes() {
    let mut dev = Device::new();
    let mut nic = construct(&mut dev);
    for i in 0..127 {
        assert_eq!(write(&mut nic, &mut dev, 0x4000_0000, 1500), 1500);
        assert_eq!(dev.reg(REG_TDT), i + 1);
    }
    let writes = dev.regs.len();
    assert_eq!(write(&mut nic, &mut dev, 0x4000_0000, 1500), 0);
    assert_eq!(write(&mut nic, &mut dev, 0x4000_0000, 1500), 0);
    assert_eq!(dev.regs.len(), writes);
    assert_eq!(dev.reg(REG_TDT), 127);
    assert_eq!(nic.tx_cur(), 127);
    assert_eq!(dev.tx[127].status, 0x01);
    dev.complete(127);
    assert_eq!(write(&mut nic, &mut dev, 0x4000_0000, 1500), 1500);
    assert_eq!(dev.reg(REG_TDT), 0);
    assert_eq!(dev.tx[127].cmd, 0x0b);
}

#[test]
fn write_onto_a_busy_ring_accepts_nothing() {
    let mut dev = Device::new();
    let mut nic = construct(&mut dev);
    for desc in dev.tx.iter_mut() {
        desc.status = 0;
    }
    let before = dev.tx.clone();
    let commands = dev.log.iter().filter(|io| matches!(io, Io::Do(_))).count();
    assert_eq!(write(&mut nic, &mut dev, 0x4000_0000, 64), 0);
    assert_eq!(dev.log.iter().filter(|io| matches!(io, Io::Do(_))).count(), commands);
    assert_eq!(dev.reg(REG_TDT), 0);
    assert_eq!(dev.tx, before);
    assert_eq!(nic.tx_cur(), 0);
}

#[test]
fn write_stops_at_a_descriptor_in_flight() {
    let mut dev = Device::new();
    let mut nic = construct(&mut dev);
    dev.tx[3].status = 0;
    let len = 5 * TX_BUFF_SIZE;
    assert_eq!(write(&mut nic, &mut dev, 0x4000_0000, len), (2 * TX_BUFF_SIZE) as u64);
    assert_eq!(dev.tx[0].cmd, 0x08);
    assert_eq!(dev.tx[1].cmd, 0x08);
    assert_eq!(dev.tx[2].status, 0x01);
    assert_eq!(dev.reg(REG_TDT), 2);
    assert_eq!(nic.tx_cur(), 2);
}

#[test]
fn empty_write_does_nothing() {
    let mut dev = Device::new();
    let mut nic = construct(&mut dev);
    let events = dev.log.len();
    assert_eq!(write(&mut nic, &mut dev, 0x4000_0000, 0), 0);
    assert_eq!(dev.log.len(), events);
    assert_eq!(nic.tx_cur(), 0);
}

#[test]
fn one_write_fills_127_descriptors_at_most() {
    let mut dev = Device::new();
    let mut nic = construct(&mut dev);
    let len = TX_DESC_COUNT * TX_BUFF_SIZE;
    assert_eq!(
        write(&mut nic, &mut dev, 0x4000_0000, len),
        ((TX_DESC_COUNT - 1) * TX_BUFF_SIZE) as u64
    );
    for i in 0..(TX_DESC_COUNT - 1) {
        assert_eq!(dev.tx[i].cmd, 0x08);
        assert_eq!(dev.tx[i].length, 16384);
        assert_eq!(dev.tx[i].addr, 0x4000_0000 + (i * TX_BUFF_SIZE) as u64);
    }
    assert_eq!(dev.tx[TX_DESC_COUNT - 1].status, 0x01);
    assert_eq!(dev.reg(REG_TDT), (TX_DESC_COUNT - 1) as u32);
}

#[test]
fn write_of_exactly_one_buffer_takes_one_descriptor() {
    let mut dev = Device::new();
    let mut nic = construct(&mut dev);
    assert_eq!(write(&mut nic, &mut dev, 0x5000, TX_BUFF_SIZE), TX_BUFF_SIZE as u64);
    assert_eq!(dev.tx[0].length, 16384);
    assert_eq!(dev.tx[0].cmd, 0x0b);
    assert_eq!(dev.tx[1].status, 0x01);
    assert_eq!(dev.reg(REG_TDT), 1);
}

#[test]
fn tail_is_cursor_plus_chunks_modulo_ring_size() {
    let mut dev = Device::new();
    dev.completes = true;
    let mut nic = construct(&mut dev);
    let mut cursor = 0usize;
    for len in [1usize, 16384, 16385, 40000, 100000, 2_000_000, 700_000] {
        let chunks = (len + TX_BUFF_SIZE - 1) / TX_BUFF_SIZE;
        let first = dev.log.len();
        assert_eq!(write(&mut nic, &mut dev, 0x4000_0000, len), len as u64);
        let stored: Vec<TxDesc> = dev.log[first..]
            .iter()
            .filter_map(|io| match io {
                Io::Do(Command::TxStore { desc, .. }) => Some(*desc),
                _ => None,
            })
            .collect();
        assert_eq!(stored.len(), chunks);
        let total: usize = stored.iter().map(|d| d.length as usize).sum();
        assert_eq!(total, len);
        for (j, desc) in stored.iter().enumerate() {
            assert_eq!(desc.cmd, if j + 1 == chunks { 0x0b } else { 0x08 });
            assert_eq!(desc.status, 0);
        }
        cursor = (cursor + chunks) % TX_DESC_COUNT;
        assert_eq!(dev.reg(REG_TDT), cursor as u32);
        assert_eq!(nic.tx_cur(), cursor);
    }
}

#[test]
fn looped_write_is_read_back() {
    let mut dev = Device::new();
    dev.completes = true;
    dev.loops = true;
    let mut nic = construct(&mut dev);
    for len in [1usize, 60, 1500, 16384, 17000, 50000] {
        let data: Vec<u8> = (0..len).map(|i| (i * 7 + len) as u8).collect();
        dev.memory_base = 0x7000_0000;
        dev.memory = data.clone();
        assert_eq!(write(&mut nic, &mut dev, 0x7000_0000, len), len as u64);
        let mut back = vec![0u8; len];
        assert_eq!(read(&mut nic, &mut dev, &mut back), (len as u64, false));
        assert_eq!(back, data);
    }
}

#[test]
fn looped_write_of_the_largest_buffer_is_read_back() {
    let mut dev = Device::new();
    dev.completes = true;
    dev.loops = true;
    let mut nic = construct(&mut dev);
    let len = (TX_DESC_COUNT - 1) * TX_BUFF_SIZE;
    let data: Vec<u8> = (0..len).map(|i| (i % 251) as u8).collect();
    dev.memory_base = 0x7000_0000;
    dev.memory = data.clone();
    assert_eq!(write(&mut nic, &mut dev, 0x7000_0000, len), len as u64);
    let mut back = vec![0u8; len];
    assert_eq!(read(&mut nic, &mut dev, &mut back), (len as u64, false));
    assert!(back == data);
}

#[test]
fn release_frees_what_construction_acquired() {
    let mut dev = Device::new();
    let nic = construct(&mut dev);
    assert_eq!(dev.allocated.len(), 3);
    assert_eq!(dev.allocated[0].1, RX_RING_BYTES);
    assert_eq!(dev.allocated[1].1, RX_ARENA_BYTES);
    assert_eq!(dev.allocated[2].1, TX_RING_BYTES);
    assert!(dev.freed.is_empty());
    for command in nic.release() {
        dev.perform(command);
    }
    let mut reversed = dev.allocated.clone();
    reversed.reverse();
    assert_eq!(dev.freed, reversed);
}

#[test]
fn failed_allocation_frees_earlier_ones() {
    for failing in 0..3 {
        let mut dev = Device::new();
        dev.fail_at = Some(failing);
        let construction = NIC::new(&emulated()).expect("construction begins");
        let result = finish(&mut dev, construction);
        assert!(matches!(result, Err(NicError::OutOfMemory)));
        assert_eq!(dev.allocated.len(), failing);
        let mut reversed = dev.allocated.clone();
        reversed.reverse();
        assert_eq!(dev.freed, reversed);
        assert!(dev.regs.is_empty());
    }
}

#[test]
fn misaligned_ring_counts_as_failed_allocation() {
    let mut dev = Device::new();
    dev.next_addr = 0x0010_0008;
    let construction = NIC::new(&emulated()).expect("construction begins");
    let result = finish(&mut dev, construction);
    assert!(matches!(result, Err(NicError::OutOfMemory)));
    assert_eq!(dev.freed, vec![(0x0010_0008, RX_RING_BYTES)]);
}

#[test]
fn eeprom_read_follows_the_protocol() {
    let mut dev = Device::new();
    dev.eeprom = vec![0x1111, 0x2222, 0xBEEF, 0x4444];
    dev.polls = 2;
    dev.set_reg(REG_EECD, 0x0000_0201);
    let mut state = EepromRead::start(2);
    let word = loop {
        let query = state.pending();
        dev.log.push(Io::Ask(query));
        let answer = match query {
            Query::RegRead { reg } => dev.word(reg),
            _ => panic!("an EEPROM read asks for registers only"),
        };
        let step = state.step(answer);
        for command in step.commands {
            dev.perform(command);
        }
        match step.next {
            Next::Continue(next) => state = next,
            Next::Done(word) => break word,
        }
    };
    assert_eq!(word, 0xBEEF);
    let eecd = Io::Ask(Query::RegRead { reg: REG_EECD });
    let eerd = Io::Ask(Query::RegRead { reg: REG_EERD });
    assert_eq!(
        dev.log,
        vec![
            eecd,
            Io::Do(Command::RegWrite { reg: REG_EECD, value: 0x0000_0341 }),
            Io::Do(Command::RegWrite { reg: REG_EERD, value: 0x0000_0201 }),
            eerd,
            eerd,
            eerd,
            eecd,
            Io::Do(Command::RegWrite { reg: REG_EECD, value: 0x0000_0301 }),
        ]
    );
}

#[test]
fn construction_reads_three_words() {
    let mut dev = Device::new();
    let _nic = construct(&mut dev);
    let requests: Vec<u32> = dev
        .log
        .iter()
        .filter_map(|io| match io {
            Io::Do(Command::RegWrite { reg, value }) if *reg == REG_EERD => Some(*value),
            _ => None,
        })
        .collect();
    assert_eq!(requests, vec![0x001, 0x101, 0x201]);
}

#[test]
fn foreign_device_is_ignored() {
    let driver_and_actions = E1000Driver::new(&[]);
    let driver = driver_and_actions.0;
    assert!(driver_and_actions.1.is_empty());
    let mut pci = emulated();
    pci.vendor_id = 0x1234;
    assert!(matches!(driver.on_plug(&pci), PlugAction::Ignore));
    let mut other = emulated();
    other.device_id = 0x100f;
    assert!(matches!(driver.on_plug(&other), PlugAction::Ignore));
}

#[test]
fn device_without_bar_is_reported() {
    let (driver, _) = E1000Driver::new(&[]);
    let mut pci = emulated();
    pci.bar0 = None;
    match driver.on_plug(&pci) {
        PlugAction::Report(e) => {
            assert_eq!(e, NicError::InvalidBar);
            assert_eq!(e.message(), "Invalid BAR for NIC");
        }
        _ => panic!("a device without BAR0 must be reported"),
    }
}

#[test]
fn device_without_pci_words_is_reported() {
    let (driver, _) = E1000Driver::new(&[]);
    let mut pci = emulated();
    pci.status_reg = None;
    pci.bar0 = None;
    assert!(matches!(driver.on_plug(&pci), PlugAction::Report(NicError::InvalidPciInfo)));
    let mut pci = emulated();
    pci.command_reg = None;
    match NIC::new(&pci) {
        Err(e) => assert_eq!(e.message(), "Invalid PCI informations for NIC"),
        Ok(_) => panic!("a device without command word cannot be constructed"),
    }
}

#[test]
fn driver_looks_at_present_devices_in_order() {
    let mut foreign = emulated();
    foreign.vendor_id = 0x10ec;
    let mut broken = emulated();
    broken.bar0 = None;
    let (driver, actions) = E1000Driver::new(&[foreign, emulated(), broken]);
    assert_eq!(driver.get_name(), "e1000");
    assert_eq!(actions.len(), 3);
    assert!(matches!(actions[0], PlugAction::Ignore));
    assert!(matches!(actions[1], PlugAction::Construct(_)));
    assert!(matches!(actions[2], PlugAction::Report(NicError::InvalidBar)));
}

#[test]
fn plugged_card_is_constructed_and_attached() {
    let (driver, _) = E1000Driver::new(&[]);
    let mut dev = Device::new();
    let construction = match driver.on_plug(&emulated()) {
        PlugAction::Construct(c) => c,
        _ => panic!("an emulated card must be constructed"),
    };
    let result = finish(&mut dev, construction);
    let mut nic = match driver.on_constructed(result) {
        Attachment::Attach(nic) => nic,
        Attachment::Report(_) => panic!("the construction succeeded"),
    };
    assert_eq!(nic.get_name(), b"eth".to_vec());
    nic.register(0);
    assert_eq!(nic.get_name(), b"eth0".to_vec());
    nic.register(4294967295);
    assert_eq!(nic.get_name(), b"eth4294967295".to_vec());
    nic.register(120);
    assert_eq!(nic.get_name(), b"eth120".to_vec());
    assert_eq!(nic.status_reg(), 0x0010);
    assert_eq!(nic.command_reg(), 0x0007);
}

#[test]
fn failed_construction_is_reported() {
    let (driver, _) = E1000Driver::new(&[]);
    let mut dev = Device::new();
    dev.fail_at = Some(1);
    let construction = match driver.on_plug(&emulated()) {
        PlugAction::Construct(c) => c,
        _ => panic!("an emulated card must be constructed"),
    };
    let result = finish(&mut dev, construction);
    match driver.on_constructed(result) {
        Attachment::Report(e) => assert_eq!(e.message(), "Memory allocation failed"),
        Attachment::Attach(_) => panic!("the construction failed"),
    }
}

#[test]
fn unplug_disables_both_engines_and_frees_memory() {
    let (driver, _) = E1000Driver::new(&[]);
    let mut dev = Device::new();
    let nic = construct(&mut dev);
    let rctl = dev.reg(REG_RCTL);
    let tctl = dev.reg(REG_TCTL);
    let mut unplug = driver.on_unplug(nic);
    loop {
        let word = match unplug.pending() {
            Query::RegRead { reg } => dev.word(reg),
            _ => panic!("unplugging asks for registers only"),
        };
        let step = unplug.step(word);
        for command in step.commands {
            dev.perform(command);
        }
        match step.next {
            Next::Continue(next) => unplug = next,
            Next::Done(()) => break,
        }
    }
    assert_eq!(dev.reg(REG_RCTL), rctl & !0x2);
    assert_eq!(dev.reg(REG_TCTL), tctl & !0x2);
    let mut reversed = dev.allocated.clone();
    reversed.reverse();
    assert_eq!(dev.freed, reversed);
    let frees = dev.log.iter().position(|io| matches!(io, Io::Do(Command::Free { .. })));
    let last_write = dev
        .log
        .iter()
        .rposition(|io| matches!(io, Io::Do(Command::RegWrite { .. })));
    assert!(last_write < frees);
}

#[test]
fn link_status_is_bit_one_of_status() {
    let mut dev = Device::new();
    let nic = construct(&mut dev);
    assert_eq!(nic.status_query(), Query::RegRead { reg: REG_STATUS });
    assert!(nic.is_up(0x0000_0002));
    assert!(nic.is_up(0x8000_0083));
    assert!(!nic.is_up(0x0000_0001));
    assert!(!nic.is_up(0xffff_fffd));
}

#[test]
fn wrong_kind_of_answer_is_ignored() {
    let construction = NIC::new(&emulated()).expect("construction begins");
    let step = construction.step(Answer::Word(7));
    assert!(step.commands.is_empty());
    let construction = match step.next {
        Next::Continue(c) => c,
        Next::Done(_) => panic!("the construction must go on"),
    };
    assert_eq!(construction.pending(), Query::Alloc { bytes: RX_RING_BYTES });
}
