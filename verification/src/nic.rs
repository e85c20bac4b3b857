//! The network interface card: the accessors of the network interface,
//! the steps of reading and writing, and the release of its memory.

use vstd::prelude::*;
use crate::bar::{Bar, RegisterAccess};
use crate::bringup::{probe, Construction, ConstructionModel};
use crate::desc::{RxDesc, TxDesc};
use crate::model::{decimal, interface_name, link_up, BindAddress, NicError, NicModel, PciDevice,
    RingMemory};
use crate::platform::{Command, Next, Query, Step};
use crate::regs::{RCTL_EN, REG_RCTL, REG_RDT, REG_STATUS, REG_TCTL, REG_TDT, RX_BUFF_SIZE,
    RX_DESC_COUNT, STATUS_LU, TCTL_EN, TX_BUFF_SIZE, TX_CMD_EOP, TX_CMD_IFCS, TX_CMD_RS,
    TX_DESC_COUNT};
use crate::ring::{init_commands, push_init, RX_ARENA_BYTES, RX_RING_BYTES, TX_RING_BYTES};
use crate::rx::ReceiveModel;
use crate::tx::TransmitModel;

verus! {

/// A network interface card bound to the driver.
pub struct NIC {
    status_reg: u16,
    command_reg: u16,
    bar0: Bar,
    eeprom_exists: bool,
    mac: [u8; 6],
    memory: RingMemory,
    rx_cur: usize,
    tx_cur: usize,
    rx_discarded: u64,
    index: Option<u32>,
    addresses: Vec<BindAddress>,
}

impl View for NIC {
    type V = NicModel;

    closed spec fn view(&self) -> NicModel {
        NicModel {
            status_reg: self.status_reg,
            command_reg: self.command_reg,
            bar0: self.bar0,
            eeprom_exists: self.eeprom_exists,
            mac: self.mac@,
            memory: self.memory,
            rx_cur: self.rx_cur as nat,
            tx_cur: self.tx_cur as nat,
            rx_discarded: self.rx_discarded as nat,
            index: self.index,
            addresses: self.addresses@,
        }
    }
}

/// Appends the decimal digits of `n` to `out`.
fn push_decimal(out: &mut Vec<u8>, n: u32)
    ensures
        final(out)@ == old(out)@ + decimal(n as nat),
    decreases n,
{
    if n >= 10 {
        push_decimal(out, n / 10);
    }
    out.push(0x30 + (n % 10) as u8);
    proof {
        assert(out@ =~= old(out)@ + decimal(n as nat));
    }
}

/// A read in progress.
pub struct Receive {
    capacity: usize,
    copied: usize,
    walked: usize,
    last: Option<usize>,
    fetching: Option<u16>,
}

impl View for Receive {
    type V = ReceiveModel;

    closed spec fn view(&self) -> ReceiveModel {
        ReceiveModel {
            capacity: self.capacity,
            copied: self.copied,
            walked: self.walked,
            last: self.last,
            fetching: self.fetching,
        }
    }
}

impl Receive {
    #[verifier::type_invariant]
    spec fn inv(self) -> bool {
        self@.wf()
    }

    /// Number of bytes copied into the caller's buffer so far.
    pub fn copied(&self) -> (n: usize)
        ensures
            n == self@.copied,
            self@.wf(),
    {
        proof {
            use_type_invariant(self);
        }
        self.copied
    }
}

/// Whether `next`, as a step of a read returned it, is what the model says.
pub open spec fn receive_agrees(
    next: Next<Receive, (u64, bool)>,
    model: Next<ReceiveModel, (u64, bool)>,
) -> bool {
    match (next, model) {
        (Next::Continue(a), Next::Continue(b)) => a@ == b,
        (Next::Done(r), Next::Done(m)) => r == m,
        _ => false,
    }
}

/// A write in progress.
pub struct Transmit {
    phys: u64,
    len: usize,
    written: usize,
    filled: usize,
    cur_free: bool,
}

impl View for Transmit {
    type V = TransmitModel;

    closed spec fn view(&self) -> TransmitModel {
        TransmitModel {
            phys: self.phys,
            len: self.len,
            written: self.written,
            filled: self.filled,
            cur_free: self.cur_free,
        }
    }
}

impl Transmit {
    #[verifier::type_invariant]
    spec fn inv(self) -> bool {
        self@.wf()
    }

    /// Number of bytes handed to descriptors so far.
    pub fn written(&self) -> (n: usize)
        ensures
            n == self@.written,
            self@.wf(),
    {
        proof {
            use_type_invariant(self);
        }
        self.written
    }
}

/// Whether `next`, as a step of a write returned it, is what the model
/// says.
pub open spec fn transmit_agrees(next: Next<Transmit, u64>, model: Next<TransmitModel, u64>) -> bool {
    match (next, model) {
        (Next::Continue(a), Next::Continue(b)) => a@ == b,
        (Next::Done(r), Next::Done(m)) => r == m,
        _ => false,
    }
}

/// Switching both engines off, in progress.
#[derive(Clone, Copy, Debug, PartialEq, Eq)]
pub enum Disable {
    /// Waiting for RCTL, to clear the receiver's enable bit.
    Rctl,
    /// Waiting for TCTL, to clear the transmitter's enable bit.
    Tctl,
}

impl Disable {
    /// The register read whose answer the next step takes.
    pub open spec fn awaits(self) -> Query {
        match self {
            Disable::Rctl => Query::RegRead { reg: REG_RCTL },
            Disable::Tctl => Query::RegRead { reg: REG_TCTL },
        }
    }

    /// The register write that a step makes when the pending read answered
    /// `word`: the control word with the enable bit cleared.
    pub open spec fn commands_on(self, word: u32) -> Seq<Command> {
        match self {
            Disable::Rctl => seq![Command::RegWrite { reg: REG_RCTL, value: word & !RCTL_EN }],
            Disable::Tctl => seq![Command::RegWrite { reg: REG_TCTL, value: word & !TCTL_EN }],
        }
    }

    /// Where the operation stands after a step.
    pub open spec fn next_on(self) -> Next<Disable, ()> {
        match self {
            Disable::Rctl => Next::Continue(Disable::Tctl),
            Disable::Tctl => Next::Done(()),
        }
    }

    /// The register read to perform next.
    pub fn pending(&self) -> (q: Query)
        ensures
            q == self.awaits(),
    {
        match self {
            Disable::Rctl => Query::RegRead { reg: REG_RCTL },
            Disable::Tctl => Query::RegRead { reg: REG_TCTL },
        }
    }

    /// Takes the value `word` that the pending register read returned.
    pub fn step(self, word: u32) -> (s: Step<Disable, ()>)
        ensures
            s.commands@ == self.commands_on(word),
            s.next == self.next_on(),
    {
        let mut commands: Vec<Command> = Vec::new();
        match self {
            Disable::Rctl => {
                commands.push(Command::RegWrite { reg: REG_RCTL, value: word & !RCTL_EN });
                assert(commands@ =~= self.commands_on(word));
                Step { commands, next: Next::Continue(Disable::Tctl) }
            },
            Disable::Tctl => {
                commands.push(Command::RegWrite { reg: REG_TCTL, value: word & !TCTL_EN });
                assert(commands@ =~= self.commands_on(word));
                Step { commands, next: Next::Done(()) }
            },
        }
    }
}

impl NIC {
    #[verifier::type_invariant]
    spec fn inv(self) -> bool {
        self@.wf()
    }

    /// Begins the construction of the card behind `dev`.
    ///
    /// Fails with `InvalidPciInfo` when the device lacks its status or its
    /// command word, and with `InvalidBar` when it has both but no BAR0.
    pub fn new(dev: &PciDevice) -> (r: Result<Construction, NicError>)
        ensures
            match r {
                Ok(c) => probe(*dev) == Ok::<ConstructionModel, NicError>(c@) && c@.wf(),
                Err(e) => probe(*dev) == Err::<ConstructionModel, NicError>(e),
            },
    {
        let status_reg: u16 = match dev.status_reg {
            Some(v) => v,
            None => return Err(NicError::InvalidPciInfo),
        };
        let command_reg: u16 = match dev.command_reg {
            Some(v) => v,
            None => return Err(NicError::InvalidPciInfo),
        };
        let bar0 = match dev.bar0 {
            Some(b) => b,
            None => return Err(NicError::InvalidBar),
        };
        Ok(Construction::begin(status_reg, command_reg, bar0))
    }

    /// The card of a finished construction: both cursors at the start of
    /// their rings, nothing discarded, not registered, no address bound.
    pub(crate) fn assemble(
        status_reg: u16,
        command_reg: u16,
        bar0: Bar,
        eeprom_exists: bool,
        mac: [u8; 6],
        memory: RingMemory,
    ) -> (nic: NIC)
        requires
            memory.wf(),
        ensures
            nic@ == (NicModel {
                status_reg,
                command_reg,
                bar0,
                eeprom_exists,
                mac: mac@,
                memory,
                rx_cur: 0,
                tx_cur: 0,
                rx_discarded: 0,
                index: None,
                addresses: Seq::empty(),
            }),
            nic@.wf(),
    {
        let _base: u64 = bar0.base();
        NIC {
            status_reg,
            command_reg,
            bar0,
            eeprom_exists,
            mac,
            memory,
            rx_cur: 0,
            tx_cur: 0,
            rx_discarded: 0,
            index: None,
            addresses: Vec::new(),
        }
    }

    /// The accesses that read the register at `addr`.
    pub fn read_command(&self, addr: u16) -> (plan: RegisterAccess)
        ensures
            plan == self@.bar0.read_accesses(addr),
    {
        self.bar0.read_u32(addr)
    }

    /// The accesses that write `val` to the register at `addr`.
    pub fn write_command(&self, addr: u16, val: u32) -> (plan: RegisterAccess)
        ensures
            plan == self@.bar0.write_accesses(addr, val),
    {
        self.bar0.write_u32(addr, val)
    }

    /// The commands that publish both rings to the device and enable its
    /// engines: the receive side, then the transmit side.
    pub fn init_desc(&self) -> (commands: Vec<Command>)
        ensures
            commands@ == init_commands(
                self@.memory.rx_ring,
                self@.memory.rx_arena,
                self@.memory.tx_ring,
            ),
    {
        proof {
            use_type_invariant(self);
        }
        let mut commands: Vec<Command> = Vec::new();
        push_init(&mut commands, self.memory.rx_ring, self.memory.rx_arena, self.memory.tx_ring);
        commands
    }

    /// Records the index that registration with the network stack assigned
    /// to this card.
    pub fn register(&mut self, index: u32)
        ensures
            final(self)@ == (NicModel { index: Some(index), ..old(self)@ }),
    {
        proof {
            use_type_invariant(&*self);
        }
        self.index = Some(index);
    }

    /// The interface name: `eth` and the decimal index that registration
    /// assigned.
    pub fn get_name(&self) -> (name: Vec<u8>)
        ensures
            name@ == interface_name(self@.index),
    {
        let mut name: Vec<u8> = Vec::new();
        name.push(0x65);
        name.push(0x74);
        name.push(0x68);
        match self.index {
            Some(n) => {
                push_decimal(&mut name, n);
            },
            None => {},
        }
        proof {
            assert(name@ =~= interface_name(self@.index));
        }
        name
    }

    /// The register to read for `is_up`.
    pub fn status_query(&self) -> (q: Query)
        ensures
            q == (Query::RegRead { reg: REG_STATUS }),
    {
        Query::RegRead { reg: REG_STATUS }
    }

    /// Whether the link is up, given the value `status` of the STATUS
    /// register.
    pub fn is_up(&self, status: u32) -> (up: bool)
        ensures
            up == link_up(status),
            up == (status & STATUS_LU != 0),
    {
        assert((status & 0x2 != 0) <==> ((status / 2) % 2 == 1)) by (bit_vector);
        status & STATUS_LU != 0
    }

    /// The permanent station address.
    pub fn get_mac(&self) -> (mac: &[u8; 6])
        ensures
            mac@ == self@.mac,
    {
        &self.mac
    }

    /// The addresses that the layers above have bound to the interface,
    /// in the order in which they were bound.
    pub fn get_addresses(&self) -> (list: &Vec<BindAddress>)
        ensures
            list@ == self@.addresses,
    {
        &self.addresses
    }

    /// Binds one more address to the interface.
    pub fn bind_address(&mut self, address: BindAddress)
        ensures
            final(self)@ == (NicModel {
                addresses: old(self)@.addresses.push(address),
                ..old(self)@
            }),
    {
        proof {
            use_type_invariant(&*self);
        }
        let mut list: Vec<BindAddress> = Vec::new();
        let mut i: usize = 0;
        while i < self.addresses.len()
            invariant
                i <= self.addresses@.len(),
                list@ == self.addresses@.subrange(0, i as int),
            decreases self.addresses@.len() - i,
        {
            list.push(self.addresses[i]);
            i = i + 1;
        }
        list.push(address);
        proof {
            assert(list@ =~= self.addresses@.push(address));
        }
        self.addresses = list;
    }

    /// BAR0 of the device.
    pub fn bar0(&self) -> (bar: Bar)
        ensures
            bar == self@.bar0,
    {
        self.bar0
    }

    /// Whether the device has an EEPROM.
    pub fn eeprom_exists(&self) -> (e: bool)
        ensures
            e == self@.eeprom_exists,
    {
        self.eeprom_exists
    }

    /// The PCI status word, as it was at construction.
    pub fn status_reg(&self) -> (v: u16)
        ensures
            v == self@.status_reg,
    {
        self.status_reg
    }

    /// The PCI command word, as it was at construction.
    pub fn command_reg(&self) -> (v: u16)
        ensures
            v == self@.command_reg,
    {
        self.command_reg
    }

    /// The memory of the rings.
    pub fn memory(&self) -> (m: RingMemory)
        ensures
            m == self@.memory,
            m.wf(),
    {
        proof {
            use_type_invariant(self);
        }
        self.memory
    }

    /// Index of the next receive descriptor to inspect.
    pub fn rx_cur(&self) -> (i: usize)
        ensures
            i == self@.rx_cur,
            i < RX_DESC_COUNT,
    {
        proof {
            use_type_invariant(self);
        }
        self.rx_cur
    }

    /// Index of the next transmit descriptor to fill.
    pub fn tx_cur(&self) -> (i: usize)
        ensures
            i == self@.tx_cur,
            i < TX_DESC_COUNT,
    {
        proof {
            use_type_invariant(self);
        }
        self.tx_cur
    }

    /// Number of received packets discarded for a device error.
    pub fn rx_discarded(&self) -> (n: u64)
        ensures
            n == self@.rx_discarded,
    {
        self.rx_discarded
    }

    /// Begins a read into a buffer of `capacity` bytes.
    pub fn read(&self, capacity: usize) -> (rx: Receive)
        ensures
            rx@ == ReceiveModel::begin(capacity),
    {
        Receive { capacity, copied: 0, walked: 0, last: None, fetching: None }
    }

    /// The query that the read `rx` waits for.
    pub fn read_pending(&self, rx: &Receive) -> (q: Query)
        ensures
            q == rx@.awaits(self@),
    {
        match rx.fetching {
            Some(len) => Query::RxFetch { index: self.rx_cur, len: len as usize },
            None => Query::RxLoad { index: self.rx_cur },
        }
    }

    /// Ends the read `rx`: publishes the descriptor taken last, if any.
    fn read_finish(&self, rx: Receive, more: bool) -> (s: Step<Receive, (u64, bool)>)
        ensures
            s.commands@ == rx@.finish(self@, more).commands,
            receive_agrees(s.next, rx@.finish(self@, more).next),
    {
        proof {
            use_type_invariant(&rx);
        }
        let mut commands: Vec<Command> = Vec::new();
        match rx.last {
            Some(l) => {
                commands.push(Command::RegWrite { reg: REG_RDT, value: l as u32 });
            },
            None => {},
        }
        assert(commands@ =~= rx@.finish(self@, more).commands);
        Step { commands, next: Next::Done((rx.copied as u64, more)) }
    }

    /// The commands that hand the descriptor under the receive cursor
    /// back to the device.
    fn hand_back(&self) -> (commands: Vec<Command>)
        ensures
            commands@ == ReceiveModel::hand_back(self@),
    {
        let mut commands: Vec<Command> = Vec::new();
        commands.push(Command::RxSetStatus { index: self.rx_cur, status: 0 });
        commands.push(Command::InvalidateRxDesc { index: self.rx_cur });
        assert(commands@ =~= ReceiveModel::hand_back(self@));
        commands
    }

    /// Takes the receive descriptor that `rx` asked for.
    pub fn read_desc(&mut self, rx: Receive, desc: RxDesc) -> (s: Step<Receive, (u64, bool)>)
        ensures
            s.commands@ == rx@.on_desc(old(self)@, desc).commands,
            final(self)@ == rx@.on_desc(old(self)@, desc).nic,
            receive_agrees(s.next, rx@.on_desc(old(self)@, desc).next),
    {
        proof {
            use_type_invariant(&*self);
            use_type_invariant(&rx);
        }
        if rx.fetching.is_some() {
            return Step { commands: Vec::new(), next: Next::Continue(rx) };
        }
        let done = desc.is_done();
        if rx.walked >= RX_DESC_COUNT || rx.copied >= rx.capacity || !done {
            return self.read_finish(rx, done);
        }
        if desc.errors != 0 || desc.length as usize > RX_BUFF_SIZE {
            let commands = self.hand_back();
            let taken = Receive {
                capacity: rx.capacity,
                copied: rx.copied,
                walked: rx.walked + 1,
                last: Some(self.rx_cur),
                fetching: None,
            };
            if self.rx_discarded < u64::MAX {
                self.rx_discarded = self.rx_discarded + 1;
            }
            self.rx_cur = (self.rx_cur + 1) % RX_DESC_COUNT;
            return Step { commands, next: Next::Continue(taken) };
        }
        if desc.length as usize > rx.capacity - rx.copied {
            return self.read_finish(rx, true);
        }
        let mut commands: Vec<Command> = Vec::new();
        commands.push(Command::InvalidateRxBuffer { index: self.rx_cur });
        assert(commands@ =~= rx@.on_desc(old(self)@, desc).commands);
        let fetching = Receive {
            capacity: rx.capacity,
            copied: rx.copied,
            walked: rx.walked,
            last: rx.last,
            fetching: Some(desc.length),
        };
        Step { commands, next: Next::Continue(fetching) }
    }

    /// Takes the bytes `frame` that `rx` asked for and copies them into the
    /// caller's buffer `buf`, behind what earlier frames left there.
    pub fn read_frame(&mut self, rx: Receive, frame: &[u8], buf: &mut [u8]) -> (s: Step<
        Receive,
        (u64, bool),
    >)
        requires
            rx@.fetching matches Some(len) ==> frame@.len() == len && old(buf)@.len()
                == rx@.capacity,
        ensures
            s.commands@ == rx@.on_frame(old(self)@, frame@).commands,
            final(self)@ == rx@.on_frame(old(self)@, frame@).nic,
            receive_agrees(s.next, rx@.on_frame(old(self)@, frame@).next),
            final(buf)@ == if rx@.fetching is Some {
                rx@.place(old(buf)@, frame@)
            } else {
                old(buf)@
            },
    {
        proof {
            use_type_invariant(&*self);
            use_type_invariant(&rx);
        }
        let len: usize = match rx.fetching {
            Some(len) => len as usize,
            None => {
                return Step { commands: Vec::new(), next: Next::Continue(rx) };
            },
        };
        let at: usize = rx.copied;
        let room: usize = buf.len();
        let mut k: usize = 0;
        while k < len
            invariant
                k <= len,
                room == buf@.len(),
                len == frame@.len(),
                at + len <= buf@.len(),
                buf@.len() == old(buf)@.len(),
                buf@ == old(buf)@.subrange(0, at as int) + frame@.subrange(0, k as int) + old(
                    buf,
                )@.subrange(at + k, old(buf)@.len() as int),
            decreases len - k,
        {
            buf[at + k] = frame[k];
            k = k + 1;
        }
        proof {
            assert(frame@.subrange(0, len as int) =~= frame@);
        }
        let commands = self.hand_back();
        let taken = Receive {
            capacity: rx.capacity,
            copied: at + len,
            walked: rx.walked + 1,
            last: Some(self.rx_cur),
            fetching: None,
        };
        self.rx_cur = (self.rx_cur + 1) % RX_DESC_COUNT;
        Step { commands, next: Next::Continue(taken) }
    }

    /// Begins a write of the `len` bytes at physical address `buf_phys`.
    /// The buffer is contiguous in physical memory, and the caller keeps it
    /// in place until the device is done with it.
    pub fn write(&self, buf_phys: u64, len: usize) -> (s: Step<Transmit, u64>)
        requires
            buf_phys + len <= u64::MAX,
        ensures
            s.commands@ == TransmitModel::start(self@, buf_phys, len).commands,
            transmit_agrees(s.next, TransmitModel::start(self@, buf_phys, len).next),
    {
        if len == 0 {
            Step { commands: Vec::new(), next: Next::Done(0) }
        } else {
            let tx = Transmit { phys: buf_phys, len, written: 0, filled: 0, cur_free: false };
            Step { commands: Vec::new(), next: Next::Continue(tx) }
        }
    }

    /// The query that the write `tx` waits for.
    pub fn write_pending(&self, tx: &Transmit) -> (q: Query)
        ensures
            q == tx@.awaits(self@),
    {
        proof {
            use_type_invariant(self);
        }
        if tx.cur_free {
            Query::TxLoad { index: (self.tx_cur + 1) % TX_DESC_COUNT }
        } else {
            Query::TxLoad { index: self.tx_cur }
        }
    }

    /// Takes the transmit descriptor that `tx` asked for.
    pub fn write_desc(&mut self, tx: Transmit, desc: TxDesc) -> (s: Step<Transmit, u64>)
        ensures
            s.commands@ == tx@.on_desc(old(self)@, desc).commands,
            final(self)@ == tx@.on_desc(old(self)@, desc).nic,
            transmit_agrees(s.next, tx@.on_desc(old(self)@, desc).next),
    {
        proof {
            use_type_invariant(&*self);
            use_type_invariant(&tx);
        }
        let mut commands: Vec<Command> = Vec::new();
        if !desc.is_done() {
            if tx.filled > 0 {
                commands.push(Command::RegWrite { reg: REG_TDT, value: self.tx_cur as u32 });
            }
            assert(commands@ =~= tx@.on_desc(old(self)@, desc).commands);
            return Step { commands, next: Next::Done(tx.written as u64) };
        }
        if !tx.cur_free {
            let probed = Transmit {
                phys: tx.phys,
                len: tx.len,
                written: tx.written,
                filled: tx.filled,
                cur_free: true,
            };
            return Step { commands, next: Next::Continue(probed) };
        }
        let rest: usize = tx.len - tx.written;
        let chunk: usize = if rest < TX_BUFF_SIZE {
            rest
        } else {
            TX_BUFF_SIZE
        };
        let written: usize = tx.written + chunk;
        let filled: usize = tx.filled + 1;
        let cmd: u8 = if written == tx.len {
            TX_CMD_RS | TX_CMD_EOP | TX_CMD_IFCS
        } else {
            TX_CMD_RS
        };
        let filling = TxDesc {
            addr: tx.phys + tx.written as u64,
            length: chunk as u16,
            cso: 0,
            cmd,
            status: 0,
            css: 0,
            special: 0,
        };
        commands.push(Command::TxStore { index: self.tx_cur, desc: filling });
        self.tx_cur = (self.tx_cur + 1) % TX_DESC_COUNT;
        if written == tx.len || filled == TX_DESC_COUNT - 1 {
            commands.push(Command::RegWrite { reg: REG_TDT, value: self.tx_cur as u32 });
            assert(commands@ =~= tx@.on_desc(old(self)@, desc).commands);
            Step { commands, next: Next::Done(written as u64) }
        } else {
            assert(commands@ =~= tx@.on_desc(old(self)@, desc).commands);
            let going = Transmit { phys: tx.phys, len: tx.len, written, filled, cur_free: true };
            Step { commands, next: Next::Continue(going) }
        }
    }

    /// Begins switching both engines off, as unplugging the device asks.
    pub fn disable(&self) -> (d: Disable)
        ensures
            d == Disable::Rctl,
    {
        Disable::Rctl
    }

    /// Gives up the card. The commands free all the memory that the card
    /// owns, in the reverse order of its allocation.
    pub fn release(self) -> (commands: Vec<Command>)
        ensures
            commands@ == self@.memory.release_commands(),
    {
        let mut commands: Vec<Command> = Vec::new();
        commands.push(Command::Free { addr: self.memory.tx_ring, bytes: TX_RING_BYTES });
        commands.push(Command::Free { addr: self.memory.rx_arena, bytes: RX_ARENA_BYTES });
        commands.push(Command::Free { addr: self.memory.rx_ring, bytes: RX_RING_BYTES });
        assert(commands@ =~= self@.memory.release_commands());
        commands
    }
}

} // verus!
