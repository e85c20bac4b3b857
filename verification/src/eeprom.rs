//! Reading the serial EEPROM, and from it the permanent station address.
//!
//! One word is read in four moves: request the bus in EECD, write the
//! address and the start bit to EERD, poll EERD until the device reports
//! completion, and release the bus in EECD.

use vstd::prelude::*;
use crate::layout::{le_bytes, le_value, lemma_le_bytes_of_value, lemma_le_value_bound};
use crate::platform::{done_all, Command, Io, Next, Query, Step};
use crate::regs::{EECD_PRES, EECD_REQ, EERD_DONE, EERD_START, REG_EECD, REG_EERD, REG_RAH,
    REG_RAL};

verus! {

/// Whether EECD reports that an EEPROM is present (bit 8).
pub open spec fn eeprom_present(eecd: u32) -> bool {
    (eecd / 0x100) % 2 == 1
}

/// The word that starts a read of EEPROM address `addr`: the start bit, and
/// the address from bit 8 up.
pub open spec fn request_word(addr: u8) -> u32 {
    (1 + 0x100 * addr) as u32
}

/// Whether EERD reports that the read has completed (bit 4).
pub open spec fn read_done(eerd: u32) -> bool {
    (eerd / 0x10) % 2 == 1
}

/// The word that a completed EERD holds: its upper 16 bits.
pub open spec fn read_datum(eerd: u32) -> u16 {
    (eerd / 0x1_0000) as u16
}

/// Decides from the value of EECD whether the EEPROM exists.
pub fn detect_eeprom(eecd: u32) -> (present: bool)
    ensures
        present == eeprom_present(eecd),
        present == (eecd & EECD_PRES != 0),
{
    assert((eecd & 0x100 != 0) <==> ((eecd / 0x100) % 2 == 1)) by (bit_vector);
    eecd & EECD_PRES != 0
}

/// A read of one EEPROM word in progress.
#[derive(Clone, Copy, Debug, PartialEq, Eq)]
pub enum EepromRead {
    /// Waiting for EECD, to request the bus and start the read of `addr`.
    Acquire { addr: u8 },
    /// Waiting for EERD to report completion.
    Poll,
    /// Waiting for EECD, to release the bus; `data` is the word read.
    Release { data: u16 },
}

impl EepromRead {
    /// The register read whose answer the next step takes.
    pub open spec fn awaits(self) -> Query {
        match self {
            EepromRead::Acquire { .. } => Query::RegRead { reg: REG_EECD },
            EepromRead::Poll => Query::RegRead { reg: REG_EERD },
            EepromRead::Release { .. } => Query::RegRead { reg: REG_EECD },
        }
    }

    /// The register writes that a step makes when the pending read
    /// answered `word`.
    pub open spec fn commands_on(self, word: u32) -> Seq<Command> {
        match self {
            EepromRead::Acquire { addr } => seq![
                Command::RegWrite { reg: REG_EECD, value: word | EECD_REQ },
                Command::RegWrite { reg: REG_EERD, value: request_word(addr) },
            ],
            EepromRead::Poll => Seq::empty(),
            EepromRead::Release { .. } => seq![
                Command::RegWrite { reg: REG_EECD, value: word & !EECD_REQ },
            ],
        }
    }

    /// Where the read stands after a step on `word`.
    pub open spec fn next_on(self, word: u32) -> Next<EepromRead, u16> {
        match self {
            EepromRead::Acquire { .. } => Next::Continue(EepromRead::Poll),
            EepromRead::Poll => if read_done(word) {
                Next::Continue(EepromRead::Release { data: read_datum(word) })
            } else {
                Next::Continue(EepromRead::Poll)
            },
            EepromRead::Release { data } => Next::Done(data),
        }
    }

    /// The whole conversation of a read that gets `answers`, one for each
    /// register read in turn, and the word it yields if the answers take it
    /// to the end.
    pub open spec fn run(self, answers: Seq<u32>) -> (Seq<Io>, Option<u16>)
        decreases answers.len(),
    {
        if answers.len() == 0 {
            (seq![Io::Ask(self.awaits())], None)
        } else {
            let head = seq![Io::Ask(self.awaits())] + done_all(self.commands_on(answers[0]));
            match self.next_on(answers[0]) {
                Next::Done(data) => (head, Some(data)),
                Next::Continue(state) => {
                    let rest = state.run(answers.skip(1));
                    (head + rest.0, rest.1)
                },
            }
        }
    }

    /// Begins a read of the word at EEPROM address `addr`.
    pub fn start(addr: u8) -> (state: EepromRead)
        ensures
            state == (EepromRead::Acquire { addr }),
    {
        EepromRead::Acquire { addr }
    }

    /// The register read to perform next.
    pub fn pending(&self) -> (q: Query)
        ensures
            q == self.awaits(),
    {
        match self {
            EepromRead::Acquire { .. } => Query::RegRead { reg: REG_EECD },
            EepromRead::Poll => Query::RegRead { reg: REG_EERD },
            EepromRead::Release { .. } => Query::RegRead { reg: REG_EECD },
        }
    }

    /// Takes the value `word` that the pending register read returned.
    pub fn step(self, word: u32) -> (s: Step<EepromRead, u16>)
        ensures
            s.commands@ == self.commands_on(word),
            s.next == self.next_on(word),
    {
        match self {
            EepromRead::Acquire { addr } => {
                let request: u32 = EERD_START | ((addr as u32) << 8);
                assert(request == request_word(addr)) by {
                    let a: u32 = addr as u32;
                    assert(a < 0x100 ==> (1u32 | (a << 8)) == 1 + 0x100 * a) by (bit_vector);
                }
                let mut commands: Vec<Command> = Vec::new();
                commands.push(Command::RegWrite { reg: REG_EECD, value: word | EECD_REQ });
                commands.push(Command::RegWrite { reg: REG_EERD, value: request });
                assert(commands@ =~= self.commands_on(word));
                Step { commands, next: Next::Continue(EepromRead::Poll) }
            },
            EepromRead::Poll => {
                assert((word & 0x10 != 0) <==> ((word / 0x10) % 2 == 1)) by (bit_vector);
                assert(word >> 16 == word / 0x1_0000 && word >> 16 <= 0xffff) by (bit_vector);
                let next = if word & EERD_DONE != 0 {
                    Next::Continue(EepromRead::Release { data: (word >> 16) as u16 })
                } else {
                    Next::Continue(EepromRead::Poll)
                };
                Step { commands: Vec::new(), next }
            },
            EepromRead::Release { data } => {
                let mut commands: Vec<Command> = Vec::new();
                commands.push(Command::RegWrite { reg: REG_EECD, value: word & !EECD_REQ });
                assert(commands@ =~= self.commands_on(word));
                Step { commands, next: Next::Done(data) }
            },
        }
    }

    /// While EERD does not report completion the read keeps polling it, and
    /// the first word that does carries the datum; the bus is then released.
    proof fn lemma_poll_run(polls: Seq<u32>, last: u32, eecd: u32)
        requires
            forall|i: int| 0 <= i < polls.len() ==> !read_done(#[trigger] polls[i]),
            read_done(last),
        ensures
            EepromRead::Poll.run(polls + seq![last, eecd]) == (
                Seq::new(polls.len() + 1, |i: int| Io::Ask(Query::RegRead { reg: REG_EERD }))
                    + seq![
                    Io::Ask(Query::RegRead { reg: REG_EECD }),
                    Io::Do(Command::RegWrite { reg: REG_EECD, value: eecd & !EECD_REQ }),
                ],
                Some(read_datum(last)),
            ),
        decreases polls.len(),
    {
        let answers = polls + seq![last, eecd];
        let ask_eerd = Io::Ask(Query::RegRead { reg: REG_EERD });
        let tail = seq![
            Io::Ask(Query::RegRead { reg: REG_EECD }),
            Io::Do(Command::RegWrite { reg: REG_EECD, value: eecd & !EECD_REQ }),
        ];
        assert(done_all(Seq::<Command>::empty()) =~= Seq::<Io>::empty());
        if polls.len() == 0 {
            assert(answers[0] == last);
            let release = EepromRead::Release { data: read_datum(last) };
            assert(answers.skip(1) =~= seq![eecd]);
            assert(done_all(release.commands_on(eecd)) =~= seq![
                Io::Do(Command::RegWrite { reg: REG_EECD, value: eecd & !EECD_REQ }),
            ]);
            assert(release.run(seq![eecd]).0 =~= tail);
            assert(EepromRead::Poll.run(answers).0 =~= Seq::new(1, |i: int| ask_eerd) + tail);
        } else {
            assert(answers[0] == polls[0]);
            assert(answers.skip(1) =~= polls.skip(1) + seq![last, eecd]);
            EepromRead::lemma_poll_run(polls.skip(1), last, eecd);
            assert(EepromRead::Poll.run(answers).0 =~= Seq::new(
                polls.len() + 1,
                |i: int| ask_eerd,
            ) + tail);
        }
    }

    /// The read protocol. Whatever EECD holds, however often EERD is polled
    /// before it reports completion: the read requests the bus, writes the
    /// start bit and the address to EERD, polls EERD and nothing else until
    /// it is done, releases the bus, and yields the upper half of the last
    /// word polled.
    pub proof fn lemma_read_protocol(
        addr: u8,
        eecd_before: u32,
        polls: Seq<u32>,
        last: u32,
        eecd_after: u32,
    )
        requires
            forall|i: int| 0 <= i < polls.len() ==> !read_done(#[trigger] polls[i]),
            read_done(last),
        ensures
            (EepromRead::Acquire { addr }).run(seq![eecd_before] + polls + seq![last, eecd_after])
                == (
                seq![
                    Io::Ask(Query::RegRead { reg: REG_EECD }),
                    Io::Do(Command::RegWrite { reg: REG_EECD, value: eecd_before | EECD_REQ }),
                    Io::Do(Command::RegWrite { reg: REG_EERD, value: request_word(addr) }),
                ] + Seq::new(polls.len() + 1, |i: int| Io::Ask(Query::RegRead { reg: REG_EERD }))
                    + seq![
                    Io::Ask(Query::RegRead { reg: REG_EECD }),
                    Io::Do(Command::RegWrite { reg: REG_EECD, value: eecd_after & !EECD_REQ }),
                ],
                Some(read_datum(last)),
            ),
    {
        let start = EepromRead::Acquire { addr };
        let answers = seq![eecd_before] + polls + seq![last, eecd_after];
        assert(answers[0] == eecd_before);
        assert(answers.skip(1) =~= polls + seq![last, eecd_after]);
        EepromRead::lemma_poll_run(polls, last, eecd_after);
        assert(done_all(start.commands_on(eecd_before)) =~= seq![
            Io::Do(Command::RegWrite { reg: REG_EECD, value: eecd_before | EECD_REQ }),
            Io::Do(Command::RegWrite { reg: REG_EERD, value: request_word(addr) }),
        ]);
        let head = seq![Io::Ask(start.awaits())] + done_all(start.commands_on(eecd_before));
        assert(head =~= seq![
            Io::Ask(Query::RegRead { reg: REG_EECD }),
            Io::Do(Command::RegWrite { reg: REG_EECD, value: eecd_before | EECD_REQ }),
            Io::Do(Command::RegWrite { reg: REG_EERD, value: request_word(addr) }),
        ]);
    }
}

/// The station address that the first three EEPROM words hold: each word
/// gives two bytes, low byte first.
pub open spec fn mac_of_words(w0: u16, w1: u16, w2: u16) -> Seq<u8> {
    le_bytes(w0 as nat, 2) + le_bytes(w1 as nat, 2) + le_bytes(w2 as nat, 2)
}

/// The three EEPROM words that hold the station address `mac`.
pub open spec fn words_of_mac(mac: Seq<u8>) -> (u16, u16, u16) {
    (
        le_value(mac.subrange(0, 2)) as u16,
        le_value(mac.subrange(2, 4)) as u16,
        le_value(mac.subrange(4, 6)) as u16,
    )
}

/// The station address that the receive address registers hold: four bytes
/// in RAL and two in the low half of RAH, low byte first.
pub open spec fn mac_of_receive_address(ral: u32, rah: u32) -> Seq<u8> {
    le_bytes(ral as nat, 4) + le_bytes((rah % 0x1_0000) as nat, 2)
}

/// The two bytes of a word, low byte first.
proof fn lemma_word_bytes(w: u16)
    ensures
        le_bytes(w as nat, 2) == seq![(w % 256) as u8, (w / 256) as u8],
{
    reveal_with_fuel(le_bytes, 3);
    assert(le_bytes(w as nat, 2) =~= seq![(w % 256) as u8, (w / 256) as u8]);
}

/// Assembles the station address from the first three EEPROM words.
pub fn mac_from_words(w0: u16, w1: u16, w2: u16) -> (mac: [u8; 6])
    ensures
        mac@ == mac_of_words(w0, w1, w2),
{
    let mac: [u8; 6] = [
        (w0 % 256) as u8,
        (w0 / 256) as u8,
        (w1 % 256) as u8,
        (w1 / 256) as u8,
        (w2 % 256) as u8,
        (w2 / 256) as u8,
    ];
    proof {
        lemma_word_bytes(w0);
        lemma_word_bytes(w1);
        lemma_word_bytes(w2);
        assert(mac@ =~= mac_of_words(w0, w1, w2));
    }
    mac
}

/// Assembles the station address from the receive address registers.
pub fn mac_from_receive_address(ral: u32, rah: u32) -> (mac: [u8; 6])
    ensures
        mac@ == mac_of_receive_address(ral, rah),
{
    let low: u16 = (ral % 0x1_0000) as u16;
    let high: u16 = (ral / 0x1_0000) as u16;
    let last: u16 = (rah % 0x1_0000) as u16;
    let mac: [u8; 6] = [
        (low % 256) as u8,
        (low / 256) as u8,
        (high % 256) as u8,
        (high / 256) as u8,
        (last % 256) as u8,
        (last / 256) as u8,
    ];
    proof {
        reveal_with_fuel(le_bytes, 5);
        lemma_word_bytes(last);
        assert(mac@ =~= mac_of_receive_address(ral, rah));
    }
    mac
}

/// A station address read back from the EEPROM words that hold it is the
/// same six bytes in the same order.
pub proof fn lemma_mac_round_trip(mac: Seq<u8>)
    requires
        mac.len() == 6,
    ensures
        ({
            let w = words_of_mac(mac);
            mac_of_words(w.0, w.1, w.2) == mac
        }),
{
    crate::desc::lemma_pow256_widths();
    lemma_le_value_bound(mac.subrange(0, 2));
    lemma_le_value_bound(mac.subrange(2, 4));
    lemma_le_value_bound(mac.subrange(4, 6));
    lemma_le_bytes_of_value(mac.subrange(0, 2));
    lemma_le_bytes_of_value(mac.subrange(2, 4));
    lemma_le_bytes_of_value(mac.subrange(4, 6));
    let w = words_of_mac(mac);
    assert(mac_of_words(w.0, w.1, w.2) =~= mac);
}

/// A station address has six bytes, whichever way it is read.
pub proof fn lemma_mac_len(w0: u16, w1: u16, w2: u16, ral: u32, rah: u32)
    ensures
        mac_of_words(w0, w1, w2).len() == 6,
        mac_of_receive_address(ral, rah).len() == 6,
{
    crate::layout::lemma_le_bytes_len(w0 as nat, 2);
    crate::layout::lemma_le_bytes_len(w1 as nat, 2);
    crate::layout::lemma_le_bytes_len(w2 as nat, 2);
    crate::layout::lemma_le_bytes_len(ral as nat, 4);
    crate::layout::lemma_le_bytes_len((rah % 0x1_0000) as nat, 2);
}

/// Reading the station address, in progress.
#[derive(Clone, Copy, Debug, PartialEq, Eq)]
pub enum MacRead {
    /// Reading EEPROM word `index`; `w0` and `w1` hold the words read so
    /// far.
    Eeprom { index: u8, w0: u16, w1: u16, read: EepromRead },
    /// No EEPROM: waiting for RAL.
    Ral,
    /// No EEPROM: waiting for RAH; `ral` is what RAL held.
    Rah { ral: u32 },
}

impl MacRead {
    /// The register read whose answer the next step takes.
    pub open spec fn awaits(self) -> Query {
        match self {
            MacRead::Eeprom { read, .. } => read.awaits(),
            MacRead::Ral => Query::RegRead { reg: REG_RAL },
            MacRead::Rah { .. } => Query::RegRead { reg: REG_RAH },
        }
    }

    /// The register writes that a step makes when the pending read
    /// answered `word`.
    pub open spec fn commands_on(self, word: u32) -> Seq<Command> {
        match self {
            MacRead::Eeprom { read, .. } => read.commands_on(word),
            _ => Seq::empty(),
        }
    }

    /// Where the read stands after a step on `word`; when it is finished,
    /// the six bytes of the address.
    pub open spec fn next_on(self, word: u32) -> Next<MacRead, Seq<u8>> {
        match self {
            MacRead::Eeprom { index, w0, w1, read } => match read.next_on(word) {
                Next::Continue(read) => Next::Continue(MacRead::Eeprom { index, w0, w1, read }),
                Next::Done(data) => if index == 0 {
                    Next::Continue(
                        MacRead::Eeprom {
                            index: 1,
                            w0: data,
                            w1,
                            read: EepromRead::Acquire { addr: 1 },
                        },
                    )
                } else if index == 1 {
                    Next::Continue(
                        MacRead::Eeprom {
                            index: 2,
                            w0,
                            w1: data,
                            read: EepromRead::Acquire { addr: 2 },
                        },
                    )
                } else {
                    Next::Done(mac_of_words(w0, w1, data))
                },
            },
            MacRead::Ral => Next::Continue(MacRead::Rah { ral: word }),
            MacRead::Rah { ral } => Next::Done(mac_of_receive_address(ral, word)),
        }
    }

    /// Whether `next`, as a step returned it, is what `next_on` says.
    pub open spec fn agrees(next: Next<MacRead, [u8; 6]>, model: Next<MacRead, Seq<u8>>) -> bool {
        match (next, model) {
            (Next::Continue(a), Next::Continue(b)) => a == b,
            (Next::Done(mac), Next::Done(bytes)) => mac@ == bytes,
            _ => false,
        }
    }

    /// Begins reading the station address: from the EEPROM where there is
    /// one, from the receive address registers where there is none.
    pub fn start(eeprom_exists: bool) -> (state: MacRead)
        ensures
            state == MacRead::begin(eeprom_exists),
    {
        if eeprom_exists {
            MacRead::Eeprom { index: 0, w0: 0, w1: 0, read: EepromRead::start(0) }
        } else {
            MacRead::Ral
        }
    }

    /// The state in which reading the station address begins.
    pub open spec fn begin(eeprom_exists: bool) -> MacRead {
        if eeprom_exists {
            MacRead::Eeprom { index: 0, w0: 0, w1: 0, read: EepromRead::Acquire { addr: 0 } }
        } else {
            MacRead::Ral
        }
    }

    /// The register read to perform next.
    pub fn pending(&self) -> (q: Query)
        ensures
            q == self.awaits(),
    {
        match self {
            MacRead::Eeprom { read, .. } => read.pending(),
            MacRead::Ral => Query::RegRead { reg: REG_RAL },
            MacRead::Rah { .. } => Query::RegRead { reg: REG_RAH },
        }
    }

    /// Takes the value `word` that the pending register read returned.
    pub fn step(self, word: u32) -> (s: Step<MacRead, [u8; 6]>)
        ensures
            s.commands@ == self.commands_on(word),
            MacRead::agrees(s.next, self.next_on(word)),
    {
        match self {
            MacRead::Eeprom { index, w0, w1, read } => {
                let inner = read.step(word);
                let next = match inner.next {
                    Next::Continue(read) => Next::Continue(
                        MacRead::Eeprom { index, w0, w1, read },
                    ),
                    Next::Done(data) => if index == 0 {
                        Next::Continue(
                            MacRead::Eeprom { index: 1, w0: data, w1, read: EepromRead::start(1) },
                        )
                    } else if index == 1 {
                        Next::Continue(
                            MacRead::Eeprom { index: 2, w0, w1: data, read: EepromRead::start(2) },
                        )
                    } else {
                        Next::Done(mac_from_words(w0, w1, data))
                    },
                };
                Step { commands: inner.commands, next }
            },
            MacRead::Ral => Step {
                commands: Vec::new(),
                next: Next::Continue(MacRead::Rah { ral: word }),
            },
            MacRead::Rah { ral } => Step {
                commands: Vec::new(),
                next: Next::Done(mac_from_receive_address(ral, word)),
            },
        }
    }
}

/// What the device answers in the course of one EEPROM read.
pub struct WordAnswers {
    /// EECD when the bus is requested.
    pub eecd_before: u32,
    /// The values of EERD that do not report completion yet.
    pub polls: Seq<u32>,
    /// The value of EERD that reports completion.
    pub last: u32,
    /// EECD when the bus is released.
    pub eecd_after: u32,
}

impl WordAnswers {
    /// Whether the answers are those of a read that completes with `last`.
    pub open spec fn wf(self) -> bool {
        &&& forall|i: int| 0 <= i < self.polls.len() ==> !read_done(#[trigger] self.polls[i])
        &&& read_done(self.last)
    }

    /// The answers in the order in which the read takes them.
    pub open spec fn in_order(self) -> Seq<u32> {
        seq![self.eecd_before] + self.polls + seq![self.last, self.eecd_after]
    }
}

impl MacRead {
    /// The address that reading yields from this state on when the device
    /// answers the register reads with `answers` in turn, if the answers
    /// take the reading to its end.
    pub open spec fn run(self, answers: Seq<u32>) -> Option<Seq<u8>>
        decreases answers.len(),
    {
        if answers.len() == 0 {
            None
        } else {
            match self.next_on(answers[0]) {
                Next::Done(mac) => Some(mac),
                Next::Continue(state) => state.run(answers.skip(1)),
            }
        }
    }

    /// The state that follows the read of word `index` when the word read
    /// is `data`, or the address when that was the last word.
    pub open spec fn after_word(index: u8, w0: u16, w1: u16, data: u16) -> Next<
        MacRead,
        Seq<u8>,
    > {
        (MacRead::Eeprom { index, w0, w1, read: EepromRead::Release { data } }).next_on(0)
    }

    /// What a reading yields that stands at `next` and gets `answers`.
    pub open spec fn resume(next: Next<MacRead, Seq<u8>>, answers: Seq<u32>) -> Option<Seq<u8>> {
        match next {
            Next::Done(mac) => Some(mac),
            Next::Continue(state) => state.run(answers),
        }
    }

    /// While polling, the reading of a word goes through the polls that do
    /// not report completion, takes the datum from the one that does, and
    /// goes on with what follows the word.
    proof fn lemma_run_poll(
        index: u8,
        w0: u16,
        w1: u16,
        polls: Seq<u32>,
        last: u32,
        eecd: u32,
        rest: Seq<u32>,
    )
        requires
            forall|i: int| 0 <= i < polls.len() ==> !read_done(#[trigger] polls[i]),
            read_done(last),
        ensures
            (MacRead::Eeprom { index, w0, w1, read: EepromRead::Poll }).run(
                polls + seq![last, eecd] + rest,
            ) == MacRead::resume(MacRead::after_word(index, w0, w1, read_datum(last)), rest),
        decreases polls.len(),
    {
        let state = MacRead::Eeprom { index, w0, w1, read: EepromRead::Poll };
        let answers = polls + seq![last, eecd] + rest;
        if polls.len() == 0 {
            assert(answers[0] == last);
            let release = MacRead::Eeprom {
                index,
                w0,
                w1,
                read: EepromRead::Release { data: read_datum(last) },
            };
            assert(state.next_on(last) == Next::<MacRead, Seq<u8>>::Continue(release));
            let then = answers.skip(1);
            assert(then[0] == eecd);
            assert(then.skip(1) =~= rest);
            assert(release.next_on(eecd) == release.next_on(0));
            assert(state.run(answers) == release.run(then));
            assert(release.run(then) == MacRead::resume(release.next_on(eecd), rest));
        } else {
            assert(answers[0] == polls[0]);
            assert(answers.skip(1) =~= polls.skip(1) + seq![last, eecd] + rest);
            MacRead::lemma_run_poll(index, w0, w1, polls.skip(1), last, eecd, rest);
            assert(state.run(answers) == state.run(answers.skip(1)));
        }
    }

    /// The reading of one word goes on with what follows the word.
    proof fn lemma_run_word(
        index: u8,
        w0: u16,
        w1: u16,
        addr: u8,
        word: WordAnswers,
        rest: Seq<u32>,
    )
        requires
            word.wf(),
        ensures
            (MacRead::Eeprom { index, w0, w1, read: EepromRead::Acquire { addr } }).run(
                word.in_order() + rest,
            ) == MacRead::resume(MacRead::after_word(index, w0, w1, read_datum(word.last)), rest),
    {
        let answers = word.in_order() + rest;
        assert(answers[0] == word.eecd_before);
        assert(answers.skip(1) =~= word.polls + seq![word.last, word.eecd_after] + rest);
        MacRead::lemma_run_poll(index, w0, w1, word.polls, word.last, word.eecd_after, rest);
    }

    /// The address of a card with an EEPROM. Whatever EECD holds and
    /// however long each read is polled: the address is made of the words
    /// that the three reads yield, in the order of bytes that
    /// `mac_of_words` gives.
    pub proof fn lemma_mac_from_eeprom(first: WordAnswers, second: WordAnswers, third: WordAnswers)
        requires
            first.wf(),
            second.wf(),
            third.wf(),
        ensures
            MacRead::begin(true).run(first.in_order() + second.in_order() + third.in_order())
                == Some(
                mac_of_words(
                    read_datum(first.last),
                    read_datum(second.last),
                    read_datum(third.last),
                ),
            ),
    {
        let w0 = read_datum(first.last);
        let w1 = read_datum(second.last);
        let answers = first.in_order() + second.in_order() + third.in_order();
        assert(answers =~= first.in_order() + (second.in_order() + third.in_order()));
        MacRead::lemma_run_word(0, 0, 0, 0, first, second.in_order() + third.in_order());
        MacRead::lemma_run_word(1, w0, 0, 1, second, third.in_order());
        assert(third.in_order() =~= third.in_order() + Seq::<u32>::empty());
        MacRead::lemma_run_word(2, w0, w1, 2, third, Seq::empty());
    }

    /// The address of a card without an EEPROM is what the receive address
    /// registers hold.
    pub proof fn lemma_mac_from_registers(ral: u32, rah: u32)
        ensures
            MacRead::begin(false).run(seq![ral, rah]) == Some(mac_of_receive_address(ral, rah)),
    {
        let answers = seq![ral, rah];
        let then = MacRead::Rah { ral };
        assert(answers.skip(1)[0] == rah);
        assert(MacRead::Ral.run(answers) == then.run(answers.skip(1)));
        assert(then.run(answers.skip(1)) == Some(mac_of_receive_address(ral, rah)));
    }
}

/// The request word has the start bit set and carries the address in bits 8
/// to 15; the bus request sets bit 6 of EECD and the release clears it,
/// each leaving the other bits alone.
pub proof fn lemma_request_bits(addr: u8, eecd: u32)
    ensures
        request_word(addr) & EERD_START == EERD_START,
        (request_word(addr) >> 8) & 0xff == addr,
        (eecd | EECD_REQ) & EECD_REQ == EECD_REQ,
        (eecd | EECD_REQ) & !EECD_REQ == eecd & !EECD_REQ,
        (eecd & !EECD_REQ) & EECD_REQ == 0,
        (eecd & !EECD_REQ) | (eecd & EECD_REQ) == eecd,
{
    let a: u32 = addr as u32;
    assert(a < 0x100 ==> (1 + 0x100 * a) as u32 & 1 == 1 && ((1 + 0x100 * a) as u32 >> 8) & 0xff
        == a) by (bit_vector);
    assert((eecd | 0x40) & 0x40 == 0x40) by (bit_vector);
    assert((eecd | 0x40) & !0x40u32 == eecd & !0x40u32) by (bit_vector);
    assert((eecd & !0x40u32) & 0x40 == 0) by (bit_vector);
    assert((eecd & !0x40u32) | (eecd & 0x40) == eecd) by (bit_vector);
}

} // verus!
