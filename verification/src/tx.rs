//! The transmit path as a model: what each step of a write decides.
//!
//! A write cuts the caller's buffer into chunks of at most `TX_BUFF_SIZE`
//! bytes and fills one descriptor with each. It fills the descriptor under
//! the card's cursor only when the device is done with that one and with
//! the one after it, so that the cursor never catches up with a descriptor
//! in flight and one slot of the ring always stays out of the device's
//! hands.

use vstd::prelude::*;
use crate::desc::TxDesc;
use crate::model::NicModel;
use crate::platform::{Command, Next, Query};
use crate::regs::{REG_TDT, TX_BUFF_SIZE, TX_CMD_EOP, TX_CMD_IFCS, TX_CMD_RS, TX_DESC_COUNT};
use crate::ring::register_after;

verus! {

/// A write in progress, as contracts speak of it.
pub struct TransmitModel {
    /// Physical address of the caller's buffer.
    pub phys: u64,
    /// Length of the caller's buffer.
    pub len: usize,
    /// Number of bytes handed to descriptors so far.
    pub written: usize,
    /// Number of descriptors filled so far.
    pub filled: usize,
    /// Whether the descriptor under the cursor is known to be free.
    pub cur_free: bool,
}

/// What a step of a write decides.
pub struct TransmitStep {
    /// The commands to carry out.
    pub commands: Seq<Command>,
    /// The card after the step.
    pub nic: NicModel,
    /// Where the write stands: a state to continue from, or the number of
    /// bytes accepted.
    pub next: Next<TransmitModel, u64>,
}

/// The index that follows `i` in the transmit ring.
pub open spec fn tx_next(i: nat) -> nat {
    (i + 1) % (TX_DESC_COUNT as nat)
}

/// The index `k` slots after `i` in the transmit ring.
pub open spec fn tx_ahead(i: nat, k: int) -> nat {
    ((i + k) % (TX_DESC_COUNT as int)) as nat
}

/// The most descriptors that one write fills.
pub open spec fn tx_budget() -> nat {
    (TX_DESC_COUNT - 1) as nat
}

/// The command flags of a chunk: report status on every chunk, and on the
/// last chunk of the buffer also end of packet and insert FCS.
pub open spec fn chunk_cmd(last: bool) -> u8 {
    if last {
        TX_CMD_RS | TX_CMD_EOP | TX_CMD_IFCS
    } else {
        TX_CMD_RS
    }
}

/// The length of the chunk that starts `written` bytes into a buffer of
/// `len` bytes.
pub open spec fn chunk_len(len: nat, written: nat) -> nat {
    if len - written < TX_BUFF_SIZE {
        (len - written) as nat
    } else {
        TX_BUFF_SIZE as nat
    }
}

/// The descriptor for the chunk that starts `written` bytes into the
/// buffer of `len` bytes at `phys`.
pub open spec fn chunk_desc(phys: u64, len: nat, written: nat) -> TxDesc {
    TxDesc {
        addr: (phys + written) as u64,
        length: chunk_len(len, written) as u16,
        cso: 0,
        cmd: chunk_cmd(written + chunk_len(len, written) == len),
        status: 0,
        css: 0,
        special: 0,
    }
}

impl TransmitModel {
    /// What holds of every write in progress: there is something left to
    /// write and a descriptor left to fill, and every descriptor filled so
    /// far carries a full chunk.
    pub open spec fn wf(self) -> bool {
        &&& self.phys + self.len <= u64::MAX
        &&& self.written < self.len
        &&& self.filled < tx_budget()
        &&& self.written == self.filled * TX_BUFF_SIZE
    }

    /// The state in which a write of `len` bytes at `phys` begins.
    pub open spec fn begin(phys: u64, len: usize) -> TransmitModel {
        TransmitModel { phys, len, written: 0, filled: 0, cur_free: false }
    }

    /// What a write of `len` bytes at `phys` does first: nothing at all for
    /// an empty buffer, else it goes to look at the descriptor under the
    /// cursor.
    pub open spec fn start(nic: NicModel, phys: u64, len: usize) -> TransmitStep {
        TransmitStep {
            commands: Seq::empty(),
            nic,
            next: if len == 0 {
                Next::Done(0u64)
            } else {
                Next::Continue(TransmitModel::begin(phys, len))
            },
        }
    }

    /// The query whose answer the next step takes: the descriptor under
    /// the cursor, or, once that one is known to be free, the one after it.
    pub open spec fn awaits(self, nic: NicModel) -> Query {
        if self.cur_free {
            Query::TxLoad { index: tx_next(nic.tx_cur) as usize }
        } else {
            Query::TxLoad { index: nic.tx_cur as usize }
        }
    }

    /// The end of a write: the tail register is moved to the cursor if any
    /// descriptor was filled, and the write reports what it accepted.
    pub open spec fn finish(nic: NicModel, written: nat, filled: nat) -> TransmitStep {
        TransmitStep {
            commands: if filled > 0 {
                seq![Command::RegWrite { reg: REG_TDT, value: nic.tx_cur as u32 }]
            } else {
                Seq::empty()
            },
            nic,
            next: Next::Done(written as u64),
        }
    }

    /// The step on the descriptor `desc` that the write asked for.
    ///
    /// A descriptor that the device is not done with ends the write with
    /// what it has accepted so far. When both the descriptor under the
    /// cursor and the one after it are free, the one under the cursor is
    /// filled with the next chunk and the cursor moves on; the write ends
    /// when the buffer is used up or the budget of descriptors is spent.
    pub open spec fn on_desc(self, nic: NicModel, desc: TxDesc) -> TransmitStep {
        if !desc.done() {
            TransmitModel::finish(nic, self.written as nat, self.filled as nat)
        } else if !self.cur_free {
            TransmitStep {
                commands: Seq::empty(),
                nic,
                next: Next::Continue(TransmitModel { cur_free: true, ..self }),
            }
        } else {
            let store = Command::TxStore {
                index: nic.tx_cur as usize,
                desc: chunk_desc(self.phys, self.len as nat, self.written as nat),
            };
            let written = self.written + chunk_len(self.len as nat, self.written as nat);
            let filled = self.filled + 1;
            let moved = NicModel { tx_cur: tx_next(nic.tx_cur), ..nic };
            if written == self.len || filled == tx_budget() {
                let end = TransmitModel::finish(moved, written as nat, filled as nat);
                TransmitStep { commands: seq![store] + end.commands, nic: moved, next: end.next }
            } else {
                TransmitStep {
                    commands: seq![store],
                    nic: moved,
                    next: Next::Continue(
                        TransmitModel {
                            written: written as usize,
                            filled: filled as usize,
                            cur_free: true,
                            ..self
                        },
                    ),
                }
            }
        }
    }
}

/// All that a write does, from its first step to its last.
pub struct TransmitRun {
    /// The commands of all steps, in order.
    pub commands: Seq<Command>,
    /// The card after the last step.
    pub nic: NicModel,
    /// The number of bytes accepted, if the answers took the write to its
    /// end.
    pub result: Option<u64>,
}

/// The number of chunks that a buffer of `len` bytes is cut into.
pub open spec fn chunk_count(len: nat) -> nat {
    ((len + TX_BUFF_SIZE - 1) / (TX_BUFF_SIZE as int)) as nat
}

/// The most bytes that one write accepts.
pub open spec fn write_limit() -> nat {
    tx_budget() * (TX_BUFF_SIZE as nat)
}

/// The stores that fill `count` descriptors from index `cur` on with the
/// chunks of the buffer from chunk number `first` on.
pub open spec fn chunk_stores(cur: nat, phys: u64, len: nat, first: nat, count: nat) -> Seq<
    Command,
> {
    Seq::new(
        count,
        |j: int|
            Command::TxStore {
                index: tx_ahead(cur, j) as usize,
                desc: chunk_desc(phys, len, ((first + j) * TX_BUFF_SIZE) as nat),
            },
    )
}

/// The number of bytes that the transmit descriptors stored by `commands`
/// carry, all together.
pub open spec fn accepted_bytes(commands: Seq<Command>) -> nat
    decreases commands.len(),
{
    if commands.len() == 0 {
        0
    } else {
        accepted_bytes(commands.drop_last()) + match commands.last() {
            Command::TxStore { desc, .. } => desc.length as nat,
            _ => 0,
        }
    }
}

impl TransmitModel {
    /// The write from this state on, when the platform answers the queries
    /// with `answers` in turn.
    pub open spec fn run(self, nic: NicModel, answers: Seq<TxDesc>) -> TransmitRun
        decreases answers.len(),
    {
        if answers.len() == 0 {
            TransmitRun { commands: Seq::empty(), nic, result: None }
        } else {
            let step = self.on_desc(nic, answers[0]);
            match step.next {
                Next::Done(n) => TransmitRun {
                    commands: step.commands,
                    nic: step.nic,
                    result: Some(n),
                },
                Next::Continue(state) => {
                    let rest = state.run(step.nic, answers.skip(1));
                    TransmitRun {
                        commands: step.commands + rest.commands,
                        nic: rest.nic,
                        result: rest.result,
                    }
                },
            }
        }
    }

    /// A whole write of `len` bytes at `phys`, when the platform answers
    /// the queries with `answers` in turn.
    pub open spec fn write(nic: NicModel, phys: u64, len: usize, answers: Seq<TxDesc>) -> TransmitRun {
        match TransmitModel::start(nic, phys, len).next {
            Next::Done(n) => TransmitRun { commands: Seq::empty(), nic, result: Some(n) },
            Next::Continue(state) => state.run(nic, answers),
        }
    }

    /// A write onto a ring that the device is done with. For every buffer
    /// that is not empty and that one write can accept whole: the write
    /// fills one descriptor for each chunk, starting at the cursor, and
    /// then moves the tail register behind the last of them, so that the
    /// tail is the old cursor plus the number of chunks, modulo the ring
    /// size. The lengths of the descriptors filled add up to the length of
    /// the buffer; the last of them is marked as the end of the packet,
    /// the others ask only for a status report.
    pub proof fn lemma_write_whole(nic: NicModel, phys: u64, len: usize, answers: Seq<TxDesc>)
        requires
            nic.wf(),
            phys + len <= u64::MAX,
            0 < len <= write_limit(),
            answers.len() == chunk_count(len as nat) + 1,
            forall|i: int| 0 <= i < answers.len() ==> (#[trigger] answers[i]).done(),
        ensures
            ({
                let run = TransmitModel::write(nic, phys, len, answers);
                let chunks = chunk_count(len as nat);
                let end = tx_ahead(nic.tx_cur, chunks as int);
                &&& run.commands == chunk_stores(nic.tx_cur, phys, len as nat, 0, chunks) + seq![
                    Command::RegWrite { reg: REG_TDT, value: end as u32 },
                ]
                &&& run.result == Some(len as u64)
                &&& run.nic == (NicModel { tx_cur: end, ..nic })
                &&& register_after(run.commands, REG_TDT) == Some(end as u32)
                &&& accepted_bytes(run.commands) == len
                &&& forall|j: int|
                    0 <= j < chunks ==> (#[trigger] run.commands[j]) == nth_chunk(
                        nic.tx_cur,
                        phys,
                        len as nat,
                        j,
                    )
            }),
    {
        TransmitModel::lemma_write_probes(nic, phys, len, answers);
        let probed = TransmitModel { cur_free: true, ..TransmitModel::begin(phys, len) };
        probed.lemma_run_free(nic, answers.skip(1));
        let run = TransmitModel::write(nic, phys, len, answers);
        let chunks = chunk_count(len as nat);
        lemma_chunk_stores_bytes(nic.tx_cur, phys, len as nat, chunks);
        let stores = chunk_stores(nic.tx_cur, phys, len as nat, 0, chunks);
        let end = tx_ahead(nic.tx_cur, chunks as int);
        let all = stores + seq![Command::RegWrite { reg: REG_TDT, value: end as u32 }];
        assert(all.drop_last() =~= stores);
    }

    /// The step that fills a descriptor with a chunk that is neither the
    /// last of the buffer nor the last of the budget.
    proof fn lemma_step_full_chunk(self, nic: NicModel, desc: TxDesc)
        requires
            self.wf(),
            nic.wf(),
            self.cur_free,
            desc.done(),
            self.filled + 1 < tx_budget(),
            self.written + TX_BUFF_SIZE < self.len,
        ensures
            ({
                let step = self.on_desc(nic, desc);
                let state = TransmitModel {
                    written: (self.written + TX_BUFF_SIZE) as usize,
                    filled: (self.filled + 1) as usize,
                    ..self
                };
                let moved = NicModel { tx_cur: tx_next(nic.tx_cur), ..nic };
                &&& state.wf()
                &&& moved.wf()
                &&& step.commands == chunk_stores(
                    nic.tx_cur,
                    self.phys,
                    self.len as nat,
                    self.filled as nat,
                    1,
                )
                &&& step.nic == moved
                &&& step.next == Next::<TransmitModel, u64>::Continue(state)
            }),
    {
        let step = self.on_desc(nic, desc);
        assert(chunk_len(self.len as nat, self.written as nat) == TX_BUFF_SIZE);
        assert(tx_ahead(nic.tx_cur, 0) == nic.tx_cur);
        assert(step.commands =~= chunk_stores(
            nic.tx_cur,
            self.phys,
            self.len as nat,
            self.filled as nat,
            1,
        ));
    }

    /// The step that fills a descriptor with the last chunk of the buffer
    /// or of the budget.
    proof fn lemma_step_last_chunk(self, nic: NicModel, desc: TxDesc)
        requires
            self.wf(),
            nic.wf(),
            self.cur_free,
            desc.done(),
            self.filled + 1 == tx_budget() || self.written + TX_BUFF_SIZE >= self.len,
        ensures
            ({
                let step = self.on_desc(nic, desc);
                let moved = NicModel { tx_cur: tx_next(nic.tx_cur), ..nic };
                let written = self.written + chunk_len(self.len as nat, self.written as nat);
                &&& step.commands == chunk_stores(
                    nic.tx_cur,
                    self.phys,
                    self.len as nat,
                    self.filled as nat,
                    1,
                ) + seq![Command::RegWrite { reg: REG_TDT, value: moved.tx_cur as u32 }]
                &&& step.nic == moved
                &&& step.next == Next::<TransmitModel, u64>::Done(written as u64)
            }),
    {
        let step = self.on_desc(nic, desc);
        assert(tx_ahead(nic.tx_cur, 0) == nic.tx_cur);
        assert(step.commands =~= chunk_stores(
            nic.tx_cur,
            self.phys,
            self.len as nat,
            self.filled as nat,
            1,
        ) + seq![
            Command::RegWrite { reg: REG_TDT, value: tx_next(nic.tx_cur) as u32 },
        ]);
    }

    /// From a state that knows the descriptor under the cursor to be free:
    /// while the device is done with every descriptor asked for, and
    /// neither the buffer nor the budget is used up, each step fills one
    /// descriptor with a full chunk and moves the cursor on.
    #[verifier::rlimit(50)]
    proof fn lemma_run_full_chunks(self, nic: NicModel, answers: Seq<TxDesc>, count: nat)
        requires
            self.wf(),
            nic.wf(),
            self.cur_free,
            count <= answers.len(),
            forall|i: int| 0 <= i < count ==> (#[trigger] answers[i]).done(),
            self.filled + count < tx_budget(),
            self.written + count * TX_BUFF_SIZE < self.len,
        ensures
            ({
                let after = TransmitModel {
                    written: (self.written + count * TX_BUFF_SIZE) as usize,
                    filled: (self.filled + count) as usize,
                    ..self
                };
                let moved = NicModel { tx_cur: tx_ahead(nic.tx_cur, count as int), ..nic };
                let rest = after.run(moved, answers.skip(count as int));
                let run = self.run(nic, answers);
                &&& after.wf()
                &&& moved.wf()
                &&& run.commands == chunk_stores(
                    nic.tx_cur,
                    self.phys,
                    self.len as nat,
                    self.filled as nat,
                    count,
                ) + rest.commands
                &&& run.nic == rest.nic
                &&& run.result == rest.result
            }),
        decreases count,
    {
        let run = self.run(nic, answers);
        if count == 0 {
            assert(tx_ahead(nic.tx_cur, 0) == nic.tx_cur);
            assert(answers.skip(0) =~= answers);
            assert(chunk_stores(nic.tx_cur, self.phys, self.len as nat, self.filled as nat, 0)
                =~= Seq::<Command>::empty());
            assert(run.commands =~= Seq::<Command>::empty() + run.commands);
        } else {
            self.lemma_step_full_chunk(nic, answers[0]);
            let state = TransmitModel {
                written: (self.written + TX_BUFF_SIZE) as usize,
                filled: (self.filled + 1) as usize,
                ..self
            };
            let moved = NicModel { tx_cur: tx_next(nic.tx_cur), ..nic };
            let rest = answers.skip(1);
            state.lemma_run_full_chunks(moved, rest, (count - 1) as nat);
            assert(rest.skip(count - 1) =~= answers.skip(count as int));
            assert(tx_ahead(moved.tx_cur, count - 1) == tx_ahead(nic.tx_cur, count as int));
            lemma_chunk_stores_split(
                nic.tx_cur,
                self.phys,
                self.len as nat,
                self.filled as nat,
                count,
            );
            let first = chunk_stores(nic.tx_cur, self.phys, self.len as nat, self.filled as nat, 1);
            let later = chunk_stores(
                moved.tx_cur,
                self.phys,
                self.len as nat,
                state.filled as nat,
                (count - 1) as nat,
            );
            let after = TransmitModel {
                written: (self.written + count * TX_BUFF_SIZE) as usize,
                filled: (self.filled + count) as usize,
                ..self
            };
            let end = NicModel { tx_cur: tx_ahead(nic.tx_cur, count as int), ..nic };
            let tail = after.run(end, answers.skip(count as int));
            assert(state.run(moved, rest).commands == later + tail.commands);
            assert(run.commands == first + state.run(moved, rest).commands);
            assert(first + (later + tail.commands) =~= (first + later) + tail.commands);
        }
    }

    /// From a state that knows the descriptor under the cursor to be free:
    /// while the device is done with every descriptor asked for, the write
    /// fills one descriptor for each chunk that is left, moves the tail
    /// register behind the last, and accepts the whole buffer.
    proof fn lemma_run_free(self, nic: NicModel, answers: Seq<TxDesc>)
        requires
            self.wf(),
            nic.wf(),
            self.cur_free,
            chunk_count(self.len as nat) <= tx_budget(),
            answers.len() == chunk_count(self.len as nat) - self.filled,
            forall|i: int| 0 <= i < answers.len() ==> (#[trigger] answers[i]).done(),
        ensures
            ({
                let run = self.run(nic, answers);
                let left = (chunk_count(self.len as nat) - self.filled) as nat;
                let end = tx_ahead(nic.tx_cur, left as int);
                &&& run.commands == chunk_stores(
                    nic.tx_cur,
                    self.phys,
                    self.len as nat,
                    self.filled as nat,
                    left,
                ) + seq![Command::RegWrite { reg: REG_TDT, value: end as u32 }]
                &&& run.result == Some(self.len as u64)
                &&& run.nic == (NicModel { tx_cur: end, ..nic })
            }),
    {
        let left = (chunk_count(self.len as nat) - self.filled) as nat;
        let count = (left - 1) as nat;
        self.lemma_run_full_chunks(nic, answers, count);
        let after = TransmitModel {
            written: (self.written + count * TX_BUFF_SIZE) as usize,
            filled: (self.filled + count) as usize,
            ..self
        };
        let moved = NicModel { tx_cur: tx_ahead(nic.tx_cur, count as int), ..nic };
        let last = answers.skip(count as int);
        assert(last[0] == answers[count as int]);
        after.lemma_step_last_chunk(moved, last[0]);
        let end = tx_ahead(nic.tx_cur, left as int);
        assert(tx_next(moved.tx_cur) == end);
        let tail = after.run(moved, last);
        let stores = chunk_stores(nic.tx_cur, self.phys, self.len as nat, self.filled as nat, left);
        let fewer = chunk_stores(
            nic.tx_cur,
            self.phys,
            self.len as nat,
            self.filled as nat,
            count,
        );
        let single = chunk_stores(moved.tx_cur, self.phys, self.len as nat, after.filled as nat, 1);
        lemma_chunk_stores_join(
            nic.tx_cur,
            self.phys,
            self.len as nat,
            self.filled as nat,
            count,
            1,
        );
        assert(stores == fewer + single);
        let write = seq![Command::RegWrite { reg: REG_TDT, value: end as u32 }];
        assert(tail.commands == single + write);
        assert(fewer + (single + write) =~= (fewer + single) + write);
    }

    /// What a write does first on a ring whose descriptor under the cursor
    /// is free: it learns that, issues no command, and goes on to look at
    /// the descriptor behind the cursor.
    proof fn lemma_write_probes(nic: NicModel, phys: u64, len: usize, answers: Seq<TxDesc>)
        requires
            len > 0,
            answers.len() > 0,
            answers[0].done(),
        ensures
            ({
                let probed = TransmitModel { cur_free: true, ..TransmitModel::begin(phys, len) };
                TransmitModel::write(nic, phys, len, answers) == probed.run(nic, answers.skip(1))
            }),
    {
        let begin = TransmitModel::begin(phys, len);
        let probed = TransmitModel { cur_free: true, ..begin };
        let step = begin.on_desc(nic, answers[0]);
        assert(step.next == Next::<TransmitModel, u64>::Continue(probed));
        assert(step.commands =~= Seq::<Command>::empty());
        let rest = probed.run(nic, answers.skip(1));
        assert(step.commands + rest.commands =~= rest.commands);
    }

    /// Back-pressure. The device is done with the descriptor under the
    /// cursor and with the `free` descriptors behind it, but not with the
    /// one after those, and the buffer has more chunks than `free`: the
    /// write fills `free` descriptors with full chunks, none of them marked
    /// as the end of the packet, moves the tail register behind them if
    /// there are any, and accepts just the bytes of those chunks.
    pub proof fn lemma_write_stops_at_busy(
        nic: NicModel,
        phys: u64,
        len: usize,
        free: nat,
        answers: Seq<TxDesc>,
    )
        requires
            nic.wf(),
            phys + len <= u64::MAX,
            free < chunk_count(len as nat),
            free < tx_budget(),
            answers.len() == free + 2,
            forall|i: int| 0 <= i <= free ==> (#[trigger] answers[i]).done(),
            !answers[free as int + 1].done(),
        ensures
            ({
                let run = TransmitModel::write(nic, phys, len, answers);
                let end = tx_ahead(nic.tx_cur, free as int);
                &&& run.commands == chunk_stores(nic.tx_cur, phys, len as nat, 0, free) + if free
                    > 0 {
                    seq![Command::RegWrite { reg: REG_TDT, value: end as u32 }]
                } else {
                    Seq::empty()
                }
                &&& run.result == Some((free * TX_BUFF_SIZE) as u64)
                &&& run.nic == (NicModel { tx_cur: end, ..nic })
            }),
    {
        TransmitModel::lemma_write_probes(nic, phys, len, answers);
        let probed = TransmitModel { cur_free: true, ..TransmitModel::begin(phys, len) };
        let rest = answers.skip(1);
        assert forall|i: int| 0 <= i < free implies (#[trigger] rest[i]).done() by {
            assert(rest[i] == answers[i + 1]);
        }
        probed.lemma_run_full_chunks(nic, rest, free);
        let after = TransmitModel {
            written: (free * TX_BUFF_SIZE) as usize,
            filled: free as usize,
            ..probed
        };
        let moved = NicModel { tx_cur: tx_ahead(nic.tx_cur, free as int), ..nic };
        let last = rest.skip(free as int);
        assert(last[0] == answers[free as int + 1]);
        let tail = after.run(moved, last);
        assert(tail.commands == TransmitModel::finish(moved, after.written as nat, free).commands);
        assert(tx_ahead(nic.tx_cur, 0) == nic.tx_cur);
    }

    /// The budget. A buffer longer than one write can accept, onto a ring
    /// that the device is done with: the write fills one descriptor less
    /// than the ring has, each with a full chunk and none marked as the end
    /// of the packet, moves the tail register behind them, and accepts
    /// just the bytes of those chunks.
    pub proof fn lemma_write_stops_at_budget(
        nic: NicModel,
        phys: u64,
        len: usize,
        answers: Seq<TxDesc>,
    )
        requires
            nic.wf(),
            phys + len <= u64::MAX,
            len > write_limit(),
            answers.len() == tx_budget() + 1,
            forall|i: int| 0 <= i < answers.len() ==> (#[trigger] answers[i]).done(),
        ensures
            ({
                let run = TransmitModel::write(nic, phys, len, answers);
                let end = tx_ahead(nic.tx_cur, tx_budget() as int);
                &&& run.commands == chunk_stores(nic.tx_cur, phys, len as nat, 0, tx_budget())
                    + seq![Command::RegWrite { reg: REG_TDT, value: end as u32 }]
                &&& run.result == Some(write_limit() as u64)
                &&& run.nic == (NicModel { tx_cur: end, ..nic })
            }),
    {
        TransmitModel::lemma_write_probes(nic, phys, len, answers);
        let probed = TransmitModel { cur_free: true, ..TransmitModel::begin(phys, len) };
        let rest = answers.skip(1);
        let count = (tx_budget() - 1) as nat;
        assert forall|i: int| 0 <= i < count implies (#[trigger] rest[i]).done() by {
            assert(rest[i] == answers[i + 1]);
        }
        probed.lemma_run_full_chunks(nic, rest, count);
        let after = TransmitModel {
            written: (count * TX_BUFF_SIZE) as usize,
            filled: count as usize,
            ..probed
        };
        let moved = NicModel { tx_cur: tx_ahead(nic.tx_cur, count as int), ..nic };
        let last = rest.skip(count as int);
        assert(last[0] == answers[count as int + 1]);
        after.lemma_step_last_chunk(moved, last[0]);
        let end = tx_ahead(nic.tx_cur, tx_budget() as int);
        assert(tx_next(moved.tx_cur) == end);
        let tail = after.run(moved, last);
        let fewer = chunk_stores(nic.tx_cur, phys, len as nat, 0, count);
        let single = chunk_stores(moved.tx_cur, phys, len as nat, count, 1);
        lemma_chunk_stores_join(nic.tx_cur, phys, len as nat, 0, count, 1);
        let write = seq![Command::RegWrite { reg: REG_TDT, value: end as u32 }];
        assert(tail.commands == single + write);
        assert(fewer + (single + write) =~= (fewer + single) + write);
    }

    /// A write onto a full ring. When the device is not done with the
    /// descriptor under the cursor, or not with the one after it, the
    /// write accepts nothing, issues no command at all, so that the tail
    /// register stays as it is, and leaves the card as it was.
    pub proof fn lemma_write_full(nic: NicModel, phys: u64, len: usize, answers: Seq<TxDesc>)
        requires
            nic.wf(),
            len > 0,
            answers.len() >= 1,
            !answers[0].done() || (answers.len() >= 2 && !answers[1].done()),
        ensures
            ({
                let run = TransmitModel::write(nic, phys, len, answers);
                &&& run.commands == Seq::<Command>::empty()
                &&& run.result == Some(0u64)
                &&& run.nic == nic
                &&& register_after(run.commands, REG_TDT) is None
            }),
    {
        let begin = TransmitModel::begin(phys, len);
        let run = TransmitModel::write(nic, phys, len, answers);
        if answers[0].done() {
            let probed = TransmitModel { cur_free: true, ..begin };
            let rest = answers.skip(1);
            assert(rest[0] == answers[1]);
            assert(probed.run(nic, rest).commands =~= Seq::<Command>::empty());
            assert(run.commands =~= Seq::<Command>::empty());
        } else {
            assert(run.commands =~= Seq::<Command>::empty());
        }
    }
}

/// The stores of `count` chunks are the store of the first, then the
/// stores of the others.
proof fn lemma_chunk_stores_split(cur: nat, phys: u64, len: nat, first: nat, count: nat)
    requires
        count > 0,
        cur < TX_DESC_COUNT,
    ensures
        chunk_stores(cur, phys, len, first, count) == chunk_stores(cur, phys, len, first, 1)
            + chunk_stores(tx_next(cur), phys, len, first + 1, (count - 1) as nat),
{
    let all = chunk_stores(cur, phys, len, first, count);
    let head = chunk_stores(cur, phys, len, first, 1);
    let tail = chunk_stores(tx_next(cur), phys, len, first + 1, (count - 1) as nat);
    assert forall|j: int| 1 <= j < count implies all[j] == tail[j - 1] by {
        assert(tx_ahead(cur, j) == tx_ahead(tx_next(cur), j - 1));
        assert((first + j) * TX_BUFF_SIZE == (first + 1 + (j - 1)) * TX_BUFF_SIZE);
    }
    assert(all =~= head + tail);
}

/// The stores of `a + b` chunks are the stores of the first `a`, then the
/// stores of the next `b`.
proof fn lemma_chunk_stores_join(cur: nat, phys: u64, len: nat, first: nat, a: nat, b: nat)
    requires
        cur < TX_DESC_COUNT,
    ensures
        chunk_stores(cur, phys, len, first, a + b) == chunk_stores(cur, phys, len, first, a)
            + chunk_stores(tx_ahead(cur, a as int), phys, len, first + a, b),
{
    let all = chunk_stores(cur, phys, len, first, a + b);
    let head = chunk_stores(cur, phys, len, first, a);
    let tail = chunk_stores(tx_ahead(cur, a as int), phys, len, first + a, b);
    assert forall|j: int| a <= j < a + b implies all[j] == tail[j - a] by {
        assert(tx_ahead(cur, j) == tx_ahead(tx_ahead(cur, a as int), j - a));
        assert((first + j) * TX_BUFF_SIZE == (first + a + (j - a)) * TX_BUFF_SIZE);
    }
    assert(all =~= head + tail);
}

/// Chunk number `j` of a buffer of `len` bytes at `phys`, stored `j`
/// descriptors behind `cur`: every chunk but the last is `TX_BUFF_SIZE`
/// long and asks only for a status report; the last holds what is left,
/// marks the end of the packet and asks for the FCS.
pub open spec fn nth_chunk(cur: nat, phys: u64, len: nat, j: int) -> Command {
    Command::TxStore {
        index: tx_ahead(cur, j) as usize,
        desc: TxDesc {
            addr: (phys + j * TX_BUFF_SIZE) as u64,
            length: (if j + 1 == chunk_count(len) {
                len - j * TX_BUFF_SIZE
            } else {
                TX_BUFF_SIZE as int
            }) as u16,
            cso: 0,
            cmd: chunk_cmd(j + 1 == chunk_count(len)),
            status: 0,
            css: 0,
            special: 0,
        },
    }
}

/// The number of bytes in the first `count` chunks of a buffer of `len`
/// bytes.
pub open spec fn bytes_in_chunks(len: nat, count: nat) -> nat {
    if count == chunk_count(len) {
        len
    } else {
        count * (TX_BUFF_SIZE as nat)
    }
}

/// The stores of a write are its chunks, one after the other, and all the
/// chunks together hold as many bytes as the buffer.
pub proof fn lemma_chunk_stores_bytes(cur: nat, phys: u64, len: nat, count: nat)
    requires
        0 < len <= write_limit(),
        count <= chunk_count(len),
    ensures
        forall|j: int|
            0 <= j < count ==> (#[trigger] chunk_stores(cur, phys, len, 0, count)[j]) == nth_chunk(
                cur,
                phys,
                len,
                j,
            ),
        accepted_bytes(chunk_stores(cur, phys, len, 0, count)) == bytes_in_chunks(len, count),
    decreases count,
{
    let stores = chunk_stores(cur, phys, len, 0, count);
    if count > 0 {
        lemma_chunk_stores_bytes(cur, phys, len, (count - 1) as nat);
        let fewer = chunk_stores(cur, phys, len, 0, (count - 1) as nat);
        assert(stores.drop_last() =~= fewer);
    }
}

/// The command flags of a chunk, bit by bit: every chunk asks for a status
/// report; only the last also marks the end of the packet and asks for the
/// FCS.
pub proof fn lemma_chunk_cmd_bits()
    ensures
        chunk_cmd(false) == TX_CMD_RS,
        chunk_cmd(true) == 0x0b,
        chunk_cmd(true) & TX_CMD_RS == TX_CMD_RS,
        chunk_cmd(true) & TX_CMD_EOP == TX_CMD_EOP,
        chunk_cmd(true) & TX_CMD_IFCS == TX_CMD_IFCS,
        chunk_cmd(false) & TX_CMD_EOP == 0,
        chunk_cmd(false) & TX_CMD_IFCS == 0,
{
    let last: u8 = 0x08u8 | 0x01u8 | 0x02u8;
    assert(last == chunk_cmd(true));
    assert(last == 0x0b) by (bit_vector)
        requires
            last == 0x08u8 | 0x01u8 | 0x02u8,
    ;
    assert(0x0bu8 & 0x08 == 0x08) by (bit_vector);
    assert(0x0bu8 & 0x01 == 0x01) by (bit_vector);
    assert(0x0bu8 & 0x02 == 0x02) by (bit_vector);
    assert(0x08u8 & 0x01 == 0) by (bit_vector);
    assert(0x08u8 & 0x02 == 0) by (bit_vector);
}

/// What every step of a write keeps. The card stays well formed; the
/// transmit cursor stays or moves to the next slot of the ring; nothing
/// else of the card changes; a write that goes on is well formed; and a
/// descriptor is filled only in a step that finds the device done with the
/// descriptor it asked for.
pub proof fn lemma_write_step_keeps(tx: TransmitModel, nic: NicModel, desc: TxDesc)
    requires
        tx.wf(),
        nic.wf(),
    ensures
        ({
            let step = tx.on_desc(nic, desc);
            &&& step.nic.wf()
            &&& step.nic.tx_cur == nic.tx_cur || step.nic.tx_cur == tx_next(nic.tx_cur)
            &&& step.nic == (NicModel { tx_cur: step.nic.tx_cur, ..nic })
            &&& step.next matches Next::Continue(state) ==> state.wf()
            &&& forall|i: int|
                0 <= i < step.commands.len() && (#[trigger] step.commands[i]) is TxStore
                    ==> desc.done() && tx.cur_free
        }),
{
}

} // verus!
