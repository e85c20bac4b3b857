//! The construction of a card: allocating the rings, detecting the EEPROM,
//! reading the station address and programming the device; and what
//! becomes of the memory that a construction acquires.

use vstd::prelude::*;
use crate::bar::Bar;
use crate::eeprom::{detect_eeprom, eeprom_present, MacRead};
use crate::model::{NicError, NicModel, PciDevice, RingMemory};
use crate::nic::NIC;
use crate::platform::{Command, Next, Query, Step};
use crate::regs::REG_EECD;
use crate::eeprom::{lemma_mac_len, mac_of_words, read_datum, EepromRead, WordAnswers};
use crate::regs::{DESC_SIZE, REG_RCTL, REG_RDBAH, REG_RDBAL, REG_RDH, REG_RDLEN, REG_RDT, REG_TCTL,
    REG_TDBAH, REG_TDBAL, REG_TDH, REG_TDLEN, REG_TDT, REG_TIPG, RX_DESC_COUNT, TIPG_COPPER,
    TX_DESC_COUNT};
use crate::ring::{high_half, init_commands, lemma_init_registers, lemma_register_after_add,
    low_half, rctl_init, region_fits, register_after, ring_fits, tctl_init,
    RX_ARENA_BYTES, RX_RING_BYTES, TX_RING_BYTES};

verus! {

/// What the platform answers to a query of a construction.
#[derive(Clone, Copy, Debug, PartialEq, Eq)]
pub enum Answer {
    /// The value of the register that was read.
    Word(u32),
    /// The physical address of the memory that was allocated, or nothing
    /// when memory is short.
    Memory(Option<u64>),
}

/// How far a construction has come.
#[derive(Clone, Copy, Debug, PartialEq, Eq)]
pub enum Stage {
    /// Waiting for the receive descriptor array.
    RxRing,
    /// Waiting for the packet arena.
    RxArena { rx_ring: u64 },
    /// Waiting for the transmit descriptor array.
    TxRing { rx_ring: u64, rx_arena: u64 },
    /// Waiting for EECD, to learn whether there is an EEPROM.
    Detect { memory: RingMemory },
    /// Reading the station address.
    Mac { memory: RingMemory, eeprom_exists: bool, read: MacRead },
}

/// A construction in progress, as contracts speak of it.
pub struct ConstructionModel {
    /// The PCI status word of the device.
    pub status_reg: u16,
    /// The PCI command word of the device.
    pub command_reg: u16,
    /// BAR0 of the device.
    pub bar0: Bar,
    /// How far the construction has come.
    pub stage: Stage,
}

impl ConstructionModel {
    /// What holds of every construction: the memory acquired so far is well
    /// formed.
    pub open spec fn wf(self) -> bool {
        &&& self.bar0.wf()
        &&& match self.stage {
            Stage::RxRing => true,
            Stage::RxArena { rx_ring } => ring_fits(rx_ring, RX_RING_BYTES),
            Stage::TxRing { rx_ring, rx_arena } => ring_fits(rx_ring, RX_RING_BYTES)
                && region_fits(rx_arena, RX_ARENA_BYTES),
            Stage::Detect { memory } => memory.wf(),
            Stage::Mac { memory, .. } => memory.wf(),
        }
    }

    /// The query whose answer the next step takes.
    pub open spec fn awaits(self) -> Query {
        match self.stage {
            Stage::RxRing => Query::Alloc { bytes: RX_RING_BYTES },
            Stage::RxArena { .. } => Query::Alloc { bytes: RX_ARENA_BYTES },
            Stage::TxRing { .. } => Query::Alloc { bytes: TX_RING_BYTES },
            Stage::Detect { .. } => Query::RegRead { reg: REG_EECD },
            Stage::Mac { read, .. } => read.awaits(),
        }
    }

    /// The commands that give back what the construction holds when it has
    /// to give up on the answer `got` to an allocation: the region just
    /// handed out, if any, then the earlier ones, latest first.
    pub open spec fn abandon_commands(self, got: Option<u64>) -> Seq<Command> {
        match self.stage {
            Stage::RxRing => match got {
                Some(addr) => seq![Command::Free { addr, bytes: RX_RING_BYTES }],
                None => Seq::empty(),
            },
            Stage::RxArena { rx_ring } => (match got {
                Some(addr) => seq![Command::Free { addr, bytes: RX_ARENA_BYTES }],
                None => Seq::empty(),
            }) + seq![Command::Free { addr: rx_ring, bytes: RX_RING_BYTES }],
            Stage::TxRing { rx_ring, rx_arena } => (match got {
                Some(addr) => seq![Command::Free { addr, bytes: TX_RING_BYTES }],
                None => Seq::empty(),
            }) + seq![
                Command::Free { addr: rx_arena, bytes: RX_ARENA_BYTES },
                Command::Free { addr: rx_ring, bytes: RX_RING_BYTES },
            ],
            _ => Seq::empty(),
        }
    }

    /// Whether the allocation that the stage waits for succeeded with a
    /// region that the stage can use.
    pub open spec fn accepts(self, got: Option<u64>) -> bool {
        match (self.stage, got) {
            (Stage::RxRing, Some(addr)) => ring_fits(addr, RX_RING_BYTES),
            (Stage::RxArena { .. }, Some(addr)) => region_fits(addr, RX_ARENA_BYTES),
            (Stage::TxRing { .. }, Some(addr)) => ring_fits(addr, TX_RING_BYTES),
            _ => false,
        }
    }

    /// The card that the construction yields once the station address
    /// `mac` has been read.
    pub open spec fn card(self, memory: RingMemory, eeprom_exists: bool, mac: Seq<u8>) -> NicModel {
        NicModel {
            status_reg: self.status_reg,
            command_reg: self.command_reg,
            bar0: self.bar0,
            eeprom_exists,
            mac,
            memory,
            rx_cur: 0,
            tx_cur: 0,
            rx_discarded: 0,
            index: None,
            addresses: Seq::empty(),
        }
    }

    /// The commands that a step makes on `answer`.
    pub open spec fn commands_on(self, answer: Answer) -> Seq<Command> {
        match (self.stage, answer) {
            (Stage::RxRing, Answer::Memory(got)) | (Stage::RxArena { .. }, Answer::Memory(got))
            | (Stage::TxRing { .. }, Answer::Memory(got)) => if self.accepts(got) {
                Seq::empty()
            } else {
                self.abandon_commands(got)
            },
            (Stage::Mac { memory, read, .. }, Answer::Word(word)) => match read.next_on(word) {
                Next::Continue(_) => read.commands_on(word),
                Next::Done(_) => read.commands_on(word) + init_commands(
                    memory.rx_ring,
                    memory.rx_arena,
                    memory.tx_ring,
                ),
            },
            _ => Seq::empty(),
        }
    }

    /// Where the construction stands after a step on `answer`. An answer of
    /// the wrong kind leaves it where it was.
    pub open spec fn next_on(self, answer: Answer) -> Next<ConstructionModel, Result<
        NicModel,
        NicError,
    >> {
        match (self.stage, answer) {
            (Stage::RxRing, Answer::Memory(got)) => if self.accepts(got) {
                Next::Continue(
                    ConstructionModel { stage: Stage::RxArena { rx_ring: got->0 }, ..self },
                )
            } else {
                Next::Done(Err(NicError::OutOfMemory))
            },
            (Stage::RxArena { rx_ring }, Answer::Memory(got)) => if self.accepts(got) {
                Next::Continue(
                    ConstructionModel {
                        stage: Stage::TxRing { rx_ring, rx_arena: got->0 },
                        ..self
                    },
                )
            } else {
                Next::Done(Err(NicError::OutOfMemory))
            },
            (Stage::TxRing { rx_ring, rx_arena }, Answer::Memory(got)) => if self.accepts(got) {
                Next::Continue(
                    ConstructionModel {
                        stage: Stage::Detect {
                            memory: RingMemory { rx_ring, rx_arena, tx_ring: got->0 },
                        },
                        ..self
                    },
                )
            } else {
                Next::Done(Err(NicError::OutOfMemory))
            },
            (Stage::Detect { memory }, Answer::Word(word)) => Next::Continue(
                ConstructionModel {
                    stage: Stage::Mac {
                        memory,
                        eeprom_exists: eeprom_present(word),
                        read: MacRead::begin(eeprom_present(word)),
                    },
                    ..self
                },
            ),
            (Stage::Mac { memory, eeprom_exists, read }, Answer::Word(word)) => match read.next_on(
                word,
            ) {
                Next::Continue(read) => Next::Continue(
                    ConstructionModel {
                        stage: Stage::Mac { memory, eeprom_exists, read },
                        ..self
                    },
                ),
                Next::Done(mac) => Next::Done(Ok(self.card(memory, eeprom_exists, mac))),
            },
            _ => Next::Continue(self),
        }
    }
}

/// What the construction of the card behind `dev` begins with: an error
/// when the device lacks its status word, its command word or its BAR0,
/// else the first allocation.
pub open spec fn probe(dev: PciDevice) -> Result<ConstructionModel, NicError> {
    if dev.status_reg is None || dev.command_reg is None {
        Err(NicError::InvalidPciInfo)
    } else if dev.bar0 is None {
        Err(NicError::InvalidBar)
    } else {
        Ok(
            ConstructionModel {
                status_reg: dev.status_reg->0,
                command_reg: dev.command_reg->0,
                bar0: dev.bar0->0,
                stage: Stage::RxRing,
            },
        )
    }
}

/// The construction of a card, in progress.
pub struct Construction {
    status_reg: u16,
    command_reg: u16,
    bar0: Bar,
    stage: Stage,
}

impl View for Construction {
    type V = ConstructionModel;

    closed spec fn view(&self) -> ConstructionModel {
        ConstructionModel {
            status_reg: self.status_reg,
            command_reg: self.command_reg,
            bar0: self.bar0,
            stage: self.stage,
        }
    }
}

/// Whether `next`, as a step of a construction returned it, is what the
/// model says.
pub open spec fn construction_agrees(
    next: Next<Construction, Result<NIC, NicError>>,
    model: Next<ConstructionModel, Result<NicModel, NicError>>,
) -> bool {
    match (next, model) {
        (Next::Continue(a), Next::Continue(b)) => a@ == b,
        (Next::Done(Ok(nic)), Next::Done(Ok(card))) => nic@ == card,
        (Next::Done(Err(e)), Next::Done(Err(f))) => e == f,
        _ => false,
    }
}

impl Construction {
    #[verifier::type_invariant]
    spec fn inv(self) -> bool {
        self@.wf()
    }

    /// The construction of the card behind a device with the given PCI
    /// words and BAR0, before its first step.
    pub(crate) fn begin(status_reg: u16, command_reg: u16, bar0: Bar) -> (c: Construction)
        ensures
            c@ == (ConstructionModel { status_reg, command_reg, bar0, stage: Stage::RxRing }),
            c@.wf(),
    {
        let _base: u64 = bar0.base();
        Construction { status_reg, command_reg, bar0, stage: Stage::RxRing }
    }

    /// The query to perform next.
    pub fn pending(&self) -> (q: Query)
        ensures
            q == self@.awaits(),
            self@.wf(),
    {
        proof {
            use_type_invariant(self);
        }
        match &self.stage {
            Stage::RxRing => Query::Alloc { bytes: RX_RING_BYTES },
            Stage::RxArena { .. } => Query::Alloc { bytes: RX_ARENA_BYTES },
            Stage::TxRing { .. } => Query::Alloc { bytes: TX_RING_BYTES },
            Stage::Detect { .. } => Query::RegRead { reg: REG_EECD },
            Stage::Mac { read, .. } => read.pending(),
        }
    }

    /// Takes the platform's answer to the pending query.
    ///
    /// An allocation that fails, or that hands out a region the rings
    /// cannot use, ends the construction with `OutOfMemory` after giving
    /// back everything acquired so far. Once the station address is read
    /// the rings are programmed and the card is handed out.
    pub fn step(self, answer: Answer) -> (s: Step<Construction, Result<NIC, NicError>>)
        ensures
            s.commands@ == self@.commands_on(answer),
            construction_agrees(s.next, self@.next_on(answer)),
            s.next matches Next::Done(Ok(nic)) ==> nic@.wf(),
    {
        proof {
            use_type_invariant(&self);
        }
        let Construction { status_reg, command_reg, bar0, stage } = self;
        match (stage, answer) {
            (Stage::RxRing, Answer::Memory(got)) => {
                match got {
                    Some(addr) => {
                        if usable_ring(addr, RX_RING_BYTES) {
                            let next = Construction {
                                status_reg,
                                command_reg,
                                bar0,
                                stage: Stage::RxArena { rx_ring: addr },
                            };
                            Step { commands: Vec::new(), next: Next::Continue(next) }
                        } else {
                            let mut commands: Vec<Command> = Vec::new();
                            commands.push(Command::Free { addr, bytes: RX_RING_BYTES });
                            assert(commands@ =~= self@.abandon_commands(got));
                            Step { commands, next: Next::Done(Err(NicError::OutOfMemory)) }
                        }
                    },
                    None => Step {
                        commands: Vec::new(),
                        next: Next::Done(Err(NicError::OutOfMemory)),
                    },
                }
            },
            (Stage::RxArena { rx_ring }, Answer::Memory(got)) => {
                let mut commands: Vec<Command> = Vec::new();
                match got {
                    Some(addr) => {
                        if usable_region(addr, RX_ARENA_BYTES) {
                            let next = Construction {
                                status_reg,
                                command_reg,
                                bar0,
                                stage: Stage::TxRing { rx_ring, rx_arena: addr },
                            };
                            return Step { commands, next: Next::Continue(next) };
                        }
                        commands.push(Command::Free { addr, bytes: RX_ARENA_BYTES });
                    },
                    None => {},
                }
                commands.push(Command::Free { addr: rx_ring, bytes: RX_RING_BYTES });
                assert(commands@ =~= self@.abandon_commands(got));
                Step { commands, next: Next::Done(Err(NicError::OutOfMemory)) }
            },
            (Stage::TxRing { rx_ring, rx_arena }, Answer::Memory(got)) => {
                let mut commands: Vec<Command> = Vec::new();
                match got {
                    Some(addr) => {
                        if usable_ring(addr, TX_RING_BYTES) {
                            let memory = RingMemory { rx_ring, rx_arena, tx_ring: addr };
                            let next = Construction {
                                status_reg,
                                command_reg,
                                bar0,
                                stage: Stage::Detect { memory },
                            };
                            return Step { commands, next: Next::Continue(next) };
                        }
                        commands.push(Command::Free { addr, bytes: TX_RING_BYTES });
                    },
                    None => {},
                }
                commands.push(Command::Free { addr: rx_arena, bytes: RX_ARENA_BYTES });
                commands.push(Command::Free { addr: rx_ring, bytes: RX_RING_BYTES });
                assert(commands@ =~= self@.abandon_commands(got));
                Step { commands, next: Next::Done(Err(NicError::OutOfMemory)) }
            },
            (Stage::Detect { memory }, Answer::Word(word)) => {
                let eeprom_exists = detect_eeprom(word);
                let next = Construction {
                    status_reg,
                    command_reg,
                    bar0,
                    stage: Stage::Mac { memory, eeprom_exists, read: MacRead::start(eeprom_exists) },
                };
                Step { commands: Vec::new(), next: Next::Continue(next) }
            },
            (Stage::Mac { memory, eeprom_exists, read }, Answer::Word(word)) => {
                let inner = read.step(word);
                let mut commands = inner.commands;
                match inner.next {
                    Next::Continue(read) => {
                        let next = Construction {
                            status_reg,
                            command_reg,
                            bar0,
                            stage: Stage::Mac { memory, eeprom_exists, read },
                        };
                        Step { commands, next: Next::Continue(next) }
                    },
                    Next::Done(mac) => {
                        let nic = NIC::assemble(
                            status_reg,
                            command_reg,
                            bar0,
                            eeprom_exists,
                            mac,
                            memory,
                        );
                        let mut init = nic.init_desc();
                        commands.append(&mut init);
                        Step { commands, next: Next::Done(Ok(nic)) }
                    },
                }
            },
            (stage, _) => {
                let same = Construction { status_reg, command_reg, bar0, stage };
                Step { commands: Vec::new(), next: Next::Continue(same) }
            },
        }
    }
}

/// Whether a region handed out by the allocator can hold a descriptor ring.
fn usable_ring(addr: u64, bytes: usize) -> (ok: bool)
    ensures
        ok == ring_fits(addr, bytes),
{
    addr % 16 == 0 && bytes as u64 <= u64::MAX - addr
}

/// Whether a region handed out by the allocator ends inside the address
/// space.
fn usable_region(addr: u64, bytes: usize) -> (ok: bool)
    ensures
        ok == region_fits(addr, bytes),
{
    bytes as u64 <= u64::MAX - addr
}

/// A piece of physically contiguous memory: its address and its size.
pub struct Region {
    /// Physical address of the first byte.
    pub addr: u64,
    /// Size in bytes.
    pub bytes: usize,
}

/// All that a construction does, from its first step to its last.
pub struct ConstructionRun {
    /// The commands of all steps, in order.
    pub commands: Seq<Command>,
    /// The regions that the allocator handed out, in order.
    pub acquired: Seq<Region>,
    /// The card or the error, if the answers took the construction to its
    /// end.
    pub result: Option<Result<NicModel, NicError>>,
}

/// The regions that `commands` give back to the allocator, in order.
pub open spec fn freed(commands: Seq<Command>) -> Seq<Region>
    decreases commands.len(),
{
    if commands.len() == 0 {
        Seq::empty()
    } else {
        match commands[0] {
            Command::Free { addr, bytes } => seq![Region { addr, bytes }] + freed(commands.skip(1)),
            _ => freed(commands.skip(1)),
        }
    }
}

/// The region that the allocator hands out when it answers `query` with
/// `answer`, if it hands out any.
pub open spec fn handed_out(query: Query, answer: Answer) -> Seq<Region> {
    match (query, answer) {
        (Query::Alloc { bytes }, Answer::Memory(Some(addr))) => seq![Region { addr, bytes }],
        _ => Seq::empty(),
    }
}

/// The regions that a construction holds at a stage, in the order of
/// their allocation.
pub open spec fn held(stage: Stage) -> Seq<Region> {
    match stage {
        Stage::RxRing => Seq::empty(),
        Stage::RxArena { rx_ring } => seq![Region { addr: rx_ring, bytes: RX_RING_BYTES }],
        Stage::TxRing { rx_ring, rx_arena } => seq![
            Region { addr: rx_ring, bytes: RX_RING_BYTES },
            Region { addr: rx_arena, bytes: RX_ARENA_BYTES },
        ],
        Stage::Detect { memory } => owned(memory),
        Stage::Mac { memory, .. } => owned(memory),
    }
}

/// The regions that a card owns, in the order of their allocation.
pub open spec fn owned(memory: RingMemory) -> Seq<Region> {
    seq![
        Region { addr: memory.rx_ring, bytes: RX_RING_BYTES },
        Region { addr: memory.rx_arena, bytes: RX_ARENA_BYTES },
        Region { addr: memory.tx_ring, bytes: TX_RING_BYTES },
    ]
}

impl ConstructionModel {
    /// The construction from this state on, when the platform answers the
    /// queries with `answers` in turn.
    pub open spec fn run(self, answers: Seq<Answer>) -> ConstructionRun
        decreases answers.len(),
    {
        if answers.len() == 0 {
            ConstructionRun { commands: Seq::empty(), acquired: Seq::empty(), result: None }
        } else {
            let got = handed_out(self.awaits(), answers[0]);
            match self.next_on(answers[0]) {
                Next::Done(r) => ConstructionRun {
                    commands: self.commands_on(answers[0]),
                    acquired: got,
                    result: Some(r),
                },
                Next::Continue(state) => {
                    let rest = state.run(answers.skip(1));
                    ConstructionRun {
                        commands: self.commands_on(answers[0]) + rest.commands,
                        acquired: got + rest.acquired,
                        result: rest.result,
                    }
                },
            }
        }
    }
}

/// What is freed by two lists of commands is what the first frees, then
/// what the second frees.
pub proof fn lemma_freed_add(a: Seq<Command>, b: Seq<Command>)
    ensures
        freed(a + b) == freed(a) + freed(b),
    decreases a.len(),
{
    if a.len() == 0 {
        assert(a + b =~= b);
        assert(freed(a) + freed(b) =~= freed(b));
    } else {
        assert((a + b).skip(1) =~= a.skip(1) + b);
        lemma_freed_add(a.skip(1), b);
        assert((a + b)[0] == a[0]);
        assert(freed(a + b) =~= freed(a) + freed(b));
    }
}

/// Commands that are no `Free` free nothing.
pub proof fn lemma_freed_none(commands: Seq<Command>)
    requires
        forall|i: int| 0 <= i < commands.len() ==> !(#[trigger] commands[i] is Free),
    ensures
        freed(commands) == Seq::<Region>::empty(),
    decreases commands.len(),
{
    if commands.len() > 0 {
        let rest = commands.skip(1);
        assert forall|i: int| 0 <= i < rest.len() implies !(#[trigger] rest[i] is Free) by {
            assert(rest[i] == commands[i + 1]);
        }
        lemma_freed_none(rest);
    }
}

/// What releasing a card frees: the regions that the card owns, the one
/// allocated last first.
pub proof fn lemma_release_frees_owned(memory: RingMemory)
    ensures
        freed(memory.release_commands()) == owned(memory).reverse(),
{
    reveal_with_fuel(freed, 4);
    let commands = memory.release_commands();
    assert(commands.skip(1).skip(1).skip(1) =~= Seq::<Command>::empty());
    assert(freed(commands) =~= owned(memory).reverse());
}

/// The commands of initialization free nothing.
proof fn lemma_init_frees_nothing(memory: RingMemory)
    ensures
        freed(crate::ring::init_commands(memory.rx_ring, memory.rx_arena, memory.tx_ring))
            == Seq::<Region>::empty(),
{
    let commands = crate::ring::init_commands(memory.rx_ring, memory.rx_arena, memory.tx_ring);
    assert forall|i: int| 0 <= i < commands.len() implies !(#[trigger] commands[i] is Free) by {
        let rx = crate::ring::rx_init_commands(memory.rx_ring, memory.rx_arena);
        let tx = crate::ring::tx_init_commands(memory.tx_ring);
        if i < rx.len() {
            assert(commands[i] == rx[i]);
        } else {
            assert(commands[i] == tx[i - rx.len()]);
        }
    }
    lemma_freed_none(commands);
}

/// Reading the station address frees nothing.
proof fn lemma_mac_read_frees_nothing(read: crate::eeprom::MacRead, word: u32)
    ensures
        freed(read.commands_on(word)) == Seq::<Region>::empty(),
{
    lemma_freed_none(read.commands_on(word));
}

/// Memory accounting. Whatever the platform answers, a construction
/// accounts for every region that the allocator hands out to it, and for
/// each exactly once.
///
/// While it goes on and when it yields a card, it frees nothing; the
/// release of that card then frees exactly the regions acquired, the one
/// allocated last first. When it fails, its own commands free exactly the
/// regions acquired, the one allocated last first.
pub proof fn lemma_memory_accounted(state: ConstructionModel, answers: Seq<Answer>)
    requires
        state.wf(),
    ensures
        ({
            let run = state.run(answers);
            let all = held(state.stage) + run.acquired;
            match run.result {
                Some(Ok(card)) => freed(run.commands) == Seq::<Region>::empty() && freed(
                    card.memory.release_commands(),
                ) == all.reverse() && owned(card.memory) == all,
                Some(Err(_)) => freed(run.commands) == all.reverse(),
                None => freed(run.commands) == Seq::<Region>::empty(),
            }
        }),
    decreases answers.len(),
{
    let run = state.run(answers);
    let all = held(state.stage) + run.acquired;
    if answers.len() == 0 {
    } else {
        let answer = answers[0];
        let commands = state.commands_on(answer);
        let got = handed_out(state.awaits(), answer);
        match state.next_on(answer) {
            Next::Done(r) => {
                match r {
                    Ok(card) => {
                        let memory = card.memory;
                        assert(state.stage is Mac);
                        assert(got =~= Seq::<Region>::empty());
                        assert(all =~= owned(memory));
                        lemma_release_frees_owned(memory);
                        match (state.stage, answer) {
                            (Stage::Mac { read, .. }, Answer::Word(word)) => {
                                lemma_mac_read_frees_nothing(read, word);
                                lemma_init_frees_nothing(memory);
                                lemma_freed_add(
                                    read.commands_on(word),
                                    crate::ring::init_commands(
                                        memory.rx_ring,
                                        memory.rx_arena,
                                        memory.tx_ring,
                                    ),
                                );
                            },
                            _ => {},
                        }
                    },
                    Err(_) => {
                        reveal_with_fuel(freed, 4);
                        match answer {
                            Answer::Memory(found) => {
                                let gone = state.abandon_commands(found);
                                assert(commands == gone);
                                assert(gone.len() <= 3);
                                if gone.len() == 1 {
                                    assert(gone.skip(1) =~= Seq::<Command>::empty());
                                } else if gone.len() == 2 {
                                    assert(gone.skip(1).skip(1) =~= Seq::<Command>::empty());
                                } else if gone.len() == 3 {
                                    assert(gone.skip(1).skip(1).skip(1) =~= Seq::<Command>::empty(
                                    ));
                                }
                                assert(freed(gone) =~= all.reverse());
                            },
                            _ => {},
                        }
                    },
                }
            },
            Next::Continue(next) => {
                let rest = next.run(answers.skip(1));
                lemma_memory_accounted(next, answers.skip(1));
                lemma_freed_add(commands, rest.commands);
                assert(freed(commands) =~= Seq::<Region>::empty()) by {
                    match (state.stage, answer) {
                        (Stage::Mac { read, .. }, Answer::Word(word)) => {
                            lemma_mac_read_frees_nothing(read, word);
                        },
                        _ => {
                            assert(commands =~= Seq::<Command>::empty());
                        },
                    }
                }
                assert(held(next.stage) =~= held(state.stage) + got);
                assert(held(next.stage) + rest.acquired =~= all);
                assert(freed(run.commands) =~= freed(rest.commands));
            },
        }
    }
}

/// Whether `commands` leave the registers of both rings as a card with the
/// memory `memory` needs them: the base registers hold the two halves of
/// the addresses of the descriptor arrays, the length registers their
/// sizes, the heads 0, the receive tail the index of the last descriptor
/// and the transmit tail 0, the control registers the words of
/// `rctl_init` and `tctl_init`, and the inter-packet gap the value for
/// copper.
pub open spec fn programmed(commands: Seq<Command>, memory: RingMemory) -> bool {
    &&& register_after(commands, REG_RDBAL) == Some(low_half(memory.rx_ring))
    &&& register_after(commands, REG_RDBAH) == Some(high_half(memory.rx_ring))
    &&& register_after(commands, REG_RDLEN) == Some((RX_DESC_COUNT * DESC_SIZE) as u32)
    &&& register_after(commands, REG_RDH) == Some(0u32)
    &&& register_after(commands, REG_RDT) == Some((RX_DESC_COUNT - 1) as u32)
    &&& register_after(commands, REG_RCTL) == Some(rctl_init())
    &&& register_after(commands, REG_TDBAL) == Some(low_half(memory.tx_ring))
    &&& register_after(commands, REG_TDBAH) == Some(high_half(memory.tx_ring))
    &&& register_after(commands, REG_TDLEN) == Some((TX_DESC_COUNT * DESC_SIZE) as u32)
    &&& register_after(commands, REG_TDH) == Some(0u32)
    &&& register_after(commands, REG_TDT) == Some(0u32)
    &&& register_after(commands, REG_TCTL) == Some(tctl_init())
    &&& register_after(commands, REG_TIPG) == Some(TIPG_COPPER)
}

/// Commands in front of others change nothing of what the others leave in
/// the registers of the rings.
proof fn lemma_programmed_add(a: Seq<Command>, b: Seq<Command>, memory: RingMemory)
    requires
        programmed(b, memory),
    ensures
        programmed(a + b, memory),
{
    lemma_register_after_add(a, b, REG_RDBAL);
    lemma_register_after_add(a, b, REG_RDBAH);
    lemma_register_after_add(a, b, REG_RDLEN);
    lemma_register_after_add(a, b, REG_RDH);
    lemma_register_after_add(a, b, REG_RDT);
    lemma_register_after_add(a, b, REG_RCTL);
    lemma_register_after_add(a, b, REG_TDBAL);
    lemma_register_after_add(a, b, REG_TDBAH);
    lemma_register_after_add(a, b, REG_TDLEN);
    lemma_register_after_add(a, b, REG_TDH);
    lemma_register_after_add(a, b, REG_TDT);
    lemma_register_after_add(a, b, REG_TCTL);
    lemma_register_after_add(a, b, REG_TIPG);
}

/// After construction. Whatever the platform answers, a construction that
/// yields a card leaves the registers of both rings programmed for the
/// memory of that card, and the card is well formed, with both cursors at
/// the start of their rings.
pub proof fn lemma_constructed_is_programmed(state: ConstructionModel, answers: Seq<Answer>)
    requires
        state.wf(),
    ensures
        state.run(answers).result matches Some(Ok(card)) ==> programmed(
            state.run(answers).commands,
            card.memory,
        ) && card.rx_cur == 0 && card.tx_cur == 0 && card.wf(),
    decreases answers.len(),
{
    if answers.len() > 0 {
        let answer = answers[0];
        match state.next_on(answer) {
            Next::Done(Ok(card)) => {
                match (state.stage, answer) {
                    (Stage::Mac { read, memory, .. }, Answer::Word(word)) => {
                        match read {
                            MacRead::Eeprom { w0, w1, read: EepromRead::Release { data }, .. } => {
                                lemma_mac_len(w0, w1, data, 0, 0);
                            },
                            MacRead::Rah { ral } => {
                                lemma_mac_len(0, 0, 0, ral, word);
                            },
                            _ => {},
                        }
                        lemma_init_registers(
                            read.commands_on(word),
                            memory.rx_ring,
                            memory.rx_arena,
                            memory.tx_ring,
                        );
                    },
                    _ => {},
                }
            },
            Next::Done(Err(_)) => {},
            Next::Continue(next) => {
                lemma_constructed_is_programmed(next, answers.skip(1));
                let rest = next.run(answers.skip(1));
                match rest.result {
                    Some(Ok(card)) => {
                        lemma_programmed_add(state.commands_on(answer), rest.commands, card.memory);
                    },
                    _ => {},
                }
            },
        }
    }
}

/// The words of a register-read conversation as answers to a
/// construction.
pub open spec fn as_words(words: Seq<u32>) -> Seq<Answer> {
    words.map_values(|w: u32| Answer::Word(w))
}

/// While the station address is read, a construction yields what the
/// reading yields: no card while the reading is not at its end, and then
/// the card with the address read.
pub proof fn lemma_construction_reads_mac(state: ConstructionModel, words: Seq<u32>)
    requires
        state.stage is Mac,
    ensures
        ({
            let result = state.run(as_words(words)).result;
            match state.stage {
                Stage::Mac { memory, eeprom_exists, read } => match read.run(words) {
                    Some(mac) => result == Some(
                        Ok::<NicModel, NicError>(state.card(memory, eeprom_exists, mac)),
                    ),
                    None => result is None,
                },
                _ => true,
            }
        }),
    decreases words.len(),
{
    if words.len() > 0 {
        let answers = as_words(words);
        assert(answers[0] == Answer::Word(words[0]));
        assert(answers.skip(1) =~= as_words(words.skip(1)));
        match state.next_on(answers[0]) {
            Next::Continue(next) => {
                lemma_construction_reads_mac(next, words.skip(1));
            },
            Next::Done(_) => {},
        }
    } else {
        assert(as_words(words).len() == 0);
    }
}

/// Construction on a device with an EEPROM. The allocator hands out three
/// regions that the rings can use, EECD reports an EEPROM, and the three
/// reads of the EEPROM complete: the construction yields a card that owns
/// exactly those regions and whose station address is made of the three
/// words read.
pub proof fn lemma_construction_with_eeprom(
    state: ConstructionModel,
    memory: RingMemory,
    eecd: u32,
    first: WordAnswers,
    second: WordAnswers,
    third: WordAnswers,
)
    requires
        state.stage is RxRing,
        memory.wf(),
        eeprom_present(eecd),
        first.wf(),
        second.wf(),
        third.wf(),
    ensures
        state.run(
            seq![
                Answer::Memory(Some(memory.rx_ring)),
                Answer::Memory(Some(memory.rx_arena)),
                Answer::Memory(Some(memory.tx_ring)),
                Answer::Word(eecd),
            ] + as_words(first.in_order() + second.in_order() + third.in_order()),
        ).result == Some(
            Ok::<NicModel, NicError>(
                state.card(
                    memory,
                    true,
                    mac_of_words(
                        read_datum(first.last),
                        read_datum(second.last),
                        read_datum(third.last),
                    ),
                ),
            ),
        ),
{
    let words = first.in_order() + second.in_order() + third.in_order();
    let head = seq![
        Answer::Memory(Some(memory.rx_ring)),
        Answer::Memory(Some(memory.rx_arena)),
        Answer::Memory(Some(memory.tx_ring)),
        Answer::Word(eecd),
    ];
    let answers = head + as_words(words);
    let s1 = ConstructionModel { stage: Stage::RxArena { rx_ring: memory.rx_ring }, ..state };
    let s2 = ConstructionModel {
        stage: Stage::TxRing { rx_ring: memory.rx_ring, rx_arena: memory.rx_arena },
        ..state
    };
    let s3 = ConstructionModel { stage: Stage::Detect { memory }, ..state };
    let s4 = ConstructionModel {
        stage: Stage::Mac { memory, eeprom_exists: true, read: MacRead::begin(true) },
        ..state
    };
    let a1 = answers.skip(1);
    let a2 = a1.skip(1);
    let a3 = a2.skip(1);
    let a4 = a3.skip(1);
    assert(a4 =~= as_words(words));
    assert(answers[0] == head[0] && a1[0] == head[1] && a2[0] == head[2] && a3[0] == head[3]);
    assert(state.run(answers).result == s1.run(a1).result);
    assert(s1.run(a1).result == s2.run(a2).result);
    assert(s2.run(a2).result == s3.run(a3).result);
    assert(s3.run(a3).result == s4.run(a4).result);
    MacRead::lemma_mac_from_eeprom(first, second, third);
    lemma_construction_reads_mac(s4, words);
}

} // verus!
