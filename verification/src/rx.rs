//! The receive path as a model: what each step of a read decides.
//!
//! A read walks the receive ring from the card's cursor. It takes a
//! descriptor only whole: a frame that does not fit into what is left of
//! the caller's buffer stays in the ring for the next read.

use vstd::prelude::*;
use crate::desc::RxDesc;
use crate::model::NicModel;
use crate::platform::{Command, Next, Query};
use crate::regs::{REG_RDT, RX_BUFF_SIZE, RX_DESC_COUNT};

verus! {

/// A read in progress, as contracts speak of it.
pub struct ReceiveModel {
    /// Length of the caller's buffer.
    pub capacity: usize,
    /// Number of bytes copied into the buffer so far.
    pub copied: usize,
    /// Number of descriptors taken so far, copied or discarded.
    pub walked: usize,
    /// Index of the descriptor taken last, if any was taken.
    pub last: Option<usize>,
    /// Length of the frame whose bytes the read waits for, if it waits for
    /// any.
    pub fetching: Option<u16>,
}

/// What a step of a read decides.
pub struct ReceiveStep {
    /// The commands to carry out.
    pub commands: Seq<Command>,
    /// The card after the step.
    pub nic: NicModel,
    /// Where the read stands: a state to continue from, or the number of
    /// bytes copied and whether more data is pending.
    pub next: Next<ReceiveModel, (u64, bool)>,
}

/// The index that follows `i` in the receive ring.
pub open spec fn rx_next(i: nat) -> nat {
    (i + 1) % (RX_DESC_COUNT as nat)
}

/// One more discarded packet on a counter that stops at its largest value.
pub open spec fn count_up(n: nat) -> nat {
    if n < u64::MAX {
        n + 1
    } else {
        n
    }
}

/// Whether the device reported an error for the descriptor, or a length
/// that no packet buffer can hold.
pub open spec fn rx_faulty(desc: RxDesc) -> bool {
    desc.errors != 0 || desc.length > RX_BUFF_SIZE
}

/// The command that moves the receive tail register to the descriptor
/// taken last; none where no descriptor was taken.
pub open spec fn publish(last: Option<usize>) -> Seq<Command> {
    match last {
        Some(l) => seq![Command::RegWrite { reg: REG_RDT, value: l as u32 }],
        None => Seq::empty(),
    }
}

impl ReceiveModel {
    /// What holds of every read in progress.
    pub open spec fn wf(self) -> bool {
        &&& self.copied <= self.capacity
        &&& self.walked <= RX_DESC_COUNT
        &&& (self.last matches Some(l) ==> l < RX_DESC_COUNT)
        &&& (self.fetching matches Some(len) ==> self.walked < RX_DESC_COUNT && self.copied + len
            <= self.capacity && len <= RX_BUFF_SIZE)
    }

    /// The state in which a read into a buffer of `capacity` bytes begins.
    pub open spec fn begin(capacity: usize) -> ReceiveModel {
        ReceiveModel { capacity, copied: 0, walked: 0, last: None, fetching: None }
    }

    /// The query whose answer the next step takes: the descriptor under the
    /// card's cursor, or the bytes of its frame.
    pub open spec fn awaits(self, nic: NicModel) -> Query {
        match self.fetching {
            Some(len) => Query::RxFetch { index: nic.rx_cur as usize, len: len as usize },
            None => Query::RxLoad { index: nic.rx_cur as usize },
        }
    }

    /// The end of a read: the tail register is moved to the descriptor
    /// taken last, if any was taken, and the read reports what it copied.
    pub open spec fn finish(self, nic: NicModel, more: bool) -> ReceiveStep {
        ReceiveStep {
            commands: publish(self.last),
            nic,
            next: Next::Done((self.copied as u64, more)),
        }
    }

    /// The commands that hand the descriptor under the cursor back to the
    /// device.
    pub open spec fn hand_back(nic: NicModel) -> Seq<Command> {
        seq![
            Command::RxSetStatus { index: nic.rx_cur as usize, status: 0 },
            Command::InvalidateRxDesc { index: nic.rx_cur as usize },
        ]
    }

    /// The read after the descriptor under the cursor has been taken with
    /// `len` bytes copied from it.
    pub open spec fn taken(self, nic: NicModel, len: nat) -> ReceiveModel {
        ReceiveModel {
            capacity: self.capacity,
            copied: (self.copied + len) as usize,
            walked: (self.walked + 1) as usize,
            last: Some(nic.rx_cur as usize),
            fetching: None,
        }
    }

    /// The step on the descriptor `desc` that sits under the cursor.
    ///
    /// The read ends when it has gone once round the ring, when the buffer
    /// is full, when the descriptor is not done, or when its frame does not
    /// fit into the rest of the buffer. More data is pending exactly if the
    /// descriptor at which the read ends is done. A faulty descriptor is
    /// handed back and counted, its frame dropped. Otherwise the read asks
    /// for the frame's bytes.
    pub open spec fn on_desc(self, nic: NicModel, desc: RxDesc) -> ReceiveStep {
        if self.fetching is Some {
            ReceiveStep { commands: Seq::empty(), nic, next: Next::Continue(self) }
        } else if self.walked >= RX_DESC_COUNT || self.copied >= self.capacity || !desc.done() {
            self.finish(nic, desc.done())
        } else if rx_faulty(desc) {
            ReceiveStep {
                commands: ReceiveModel::hand_back(nic),
                nic: NicModel {
                    rx_cur: rx_next(nic.rx_cur),
                    rx_discarded: count_up(nic.rx_discarded),
                    ..nic
                },
                next: Next::Continue(self.taken(nic, 0)),
            }
        } else if desc.length > self.capacity - self.copied {
            self.finish(nic, true)
        } else {
            ReceiveStep {
                commands: seq![Command::InvalidateRxBuffer { index: nic.rx_cur as usize }],
                nic,
                next: Next::Continue(ReceiveModel { fetching: Some(desc.length), ..self }),
            }
        }
    }

    /// The caller's buffer after `frame` has been copied to where the read
    /// stands.
    pub open spec fn place(self, buf: Seq<u8>, frame: Seq<u8>) -> Seq<u8> {
        buf.subrange(0, self.copied as int) + frame + buf.subrange(
            self.copied + frame.len(),
            buf.len() as int,
        )
    }

    /// The step on the bytes `frame` of the descriptor under the cursor:
    /// the descriptor is handed back and the cursor moves on. Where the
    /// read did not ask for a frame, nothing happens.
    pub open spec fn on_frame(self, nic: NicModel, frame: Seq<u8>) -> ReceiveStep {
        if self.fetching is None {
            ReceiveStep { commands: Seq::empty(), nic, next: Next::Continue(self) }
        } else {
            ReceiveStep {
                commands: ReceiveModel::hand_back(nic),
                nic: NicModel { rx_cur: rx_next(nic.rx_cur), ..nic },
                next: Next::Continue(self.taken(nic, frame.len())),
            }
        }
    }
}

/// What the platform finds at a slot of the receive ring: the descriptor,
/// and the bytes of its packet buffer.
pub struct RxSlot {
    /// The descriptor.
    pub desc: RxDesc,
    /// The contents of the packet buffer.
    pub data: Seq<u8>,
}

/// All that a read does, from its first step to its last.
pub struct ReceiveRun {
    /// The commands of all steps, in order.
    pub commands: Seq<Command>,
    /// The card after the last step.
    pub nic: NicModel,
    /// The caller's buffer after the last step.
    pub buf: Seq<u8>,
    /// The number of bytes copied and whether more data is pending, if the
    /// answers took the read to its end.
    pub result: Option<(u64, bool)>,
}

/// The index `k` slots after `i` in the receive ring.
pub open spec fn rx_ahead(i: nat, k: int) -> nat {
    ((i + k) % (RX_DESC_COUNT as int)) as nat
}

/// The frames one after the other, as one byte string.
pub open spec fn joined(frames: Seq<Seq<u8>>) -> Seq<u8>
    decreases frames.len(),
{
    if frames.len() == 0 {
        Seq::empty()
    } else {
        frames[0] + joined(frames.skip(1))
    }
}

/// Whether the device has delivered `frame` into `slot`: the descriptor is
/// done and free of errors, its length is that of the frame, and the
/// buffer begins with the frame's bytes. A frame has at least one byte and
/// fits into a packet buffer.
pub open spec fn delivers(slot: RxSlot, frame: Seq<u8>) -> bool {
    &&& slot.desc.done()
    &&& slot.desc.errors == 0
    &&& slot.desc.length == frame.len()
    &&& 0 < frame.len() <= RX_BUFF_SIZE
    &&& frame.len() <= slot.data.len()
    &&& slot.data.subrange(0, frame.len() as int) == frame
}

/// Whether a read ends at a descriptor: it has gone once round the ring,
/// the buffer is full, the device is not done with the descriptor, or the
/// descriptor holds a frame that is longer than the `room` left in the
/// buffer.
pub open spec fn ends_read(desc: RxDesc, room: int, walked: int) -> bool {
    ||| walked >= RX_DESC_COUNT
    ||| room <= 0
    ||| !desc.done()
    ||| !rx_faulty(desc) && desc.length > room
}

/// The commands by which a read takes `count` descriptors from index `cur`
/// on: for each in turn, the buffer's cache lines are invalidated before
/// the frame is read, then the status byte is cleared and the descriptor's
/// cache lines are invalidated.
pub open spec fn take_commands(cur: nat, count: nat) -> Seq<Command>
    decreases count,
{
    if count == 0 {
        Seq::empty()
    } else {
        seq![
            Command::InvalidateRxBuffer { index: cur as usize },
            Command::RxSetStatus { index: cur as usize, status: 0 },
            Command::InvalidateRxDesc { index: cur as usize },
        ] + take_commands(rx_next(cur), (count - 1) as nat)
    }
}

impl ReceiveModel {
    /// The read from this state on, when the platform finds `slots` at the
    /// cursor and behind it, one for each descriptor that the read looks
    /// at.
    pub open spec fn run(self, nic: NicModel, buf: Seq<u8>, slots: Seq<RxSlot>) -> ReceiveRun
        decreases slots.len(),
    {
        if slots.len() == 0 {
            ReceiveRun { commands: Seq::empty(), nic, buf, result: None }
        } else {
            let first = self.on_desc(nic, slots[0].desc);
            match first.next {
                Next::Done(r) => ReceiveRun {
                    commands: first.commands,
                    nic: first.nic,
                    buf,
                    result: Some(r),
                },
                Next::Continue(state) => match state.fetching {
                    Some(len) => {
                        let frame = slots[0].data.subrange(0, len as int);
                        let second = state.on_frame(first.nic, frame);
                        let rest = state.taken(first.nic, frame.len()).run(
                            second.nic,
                            state.place(buf, frame),
                            slots.skip(1),
                        );
                        ReceiveRun {
                            commands: first.commands + second.commands + rest.commands,
                            nic: rest.nic,
                            buf: rest.buf,
                            result: rest.result,
                        }
                    },
                    None => {
                        let rest = state.run(first.nic, buf, slots.skip(1));
                        ReceiveRun {
                            commands: first.commands + rest.commands,
                            nic: rest.nic,
                            buf: rest.buf,
                            result: rest.result,
                        }
                    },
                },
            }
        }
    }

    /// A whole read into `buf`, when the platform finds `slots` at the
    /// cursor and behind it.
    pub open spec fn read(nic: NicModel, buf: Seq<u8>, slots: Seq<RxSlot>) -> ReceiveRun {
        ReceiveModel::begin(buf.len() as usize).run(nic, buf, slots)
    }

    /// One delivered frame: the read takes the descriptor under the
    /// cursor, copies the frame, and goes on behind it.
    proof fn lemma_run_take(self, nic: NicModel, buf: Seq<u8>, slots: Seq<RxSlot>, frame: Seq<u8>)
        requires
            self.wf(),
            nic.wf(),
            self.fetching is None,
            buf.len() == self.capacity,
            self.walked < RX_DESC_COUNT,
            self.copied + frame.len() <= self.capacity,
            slots.len() > 0,
            delivers(slots[0], frame),
        ensures
            ({
                let after = self.taken(nic, frame.len());
                let moved = NicModel { rx_cur: rx_next(nic.rx_cur), ..nic };
                let rest = after.run(moved, self.place(buf, frame), slots.skip(1));
                let run = self.run(nic, buf, slots);
                &&& after.wf()
                &&& after.fetching is None
                &&& moved.wf()
                &&& run.commands == take_commands(nic.rx_cur, 1) + rest.commands
                &&& run.nic == rest.nic
                &&& run.buf == rest.buf
                &&& run.result == rest.result
            }),
    {
        let first = self.on_desc(nic, slots[0].desc);
        let state = ReceiveModel { fetching: Some(slots[0].desc.length), ..self };
        assert(first.next == Next::<ReceiveModel, (u64, bool)>::Continue(state));
        assert(slots[0].data.subrange(0, slots[0].desc.length as int) == frame);
        let after = self.taken(nic, frame.len());
        assert(state.taken(nic, frame.len()) == after);
        assert(state.place(buf, frame) == self.place(buf, frame));
        let moved = NicModel { rx_cur: rx_next(nic.rx_cur), ..nic };
        let rest = after.run(moved, self.place(buf, frame), slots.skip(1));
        reveal_with_fuel(take_commands, 2);
        assert(take_commands(nic.rx_cur, 1) =~= seq![
            Command::InvalidateRxBuffer { index: nic.rx_cur as usize },
            Command::RxSetStatus { index: nic.rx_cur as usize, status: 0 },
            Command::InvalidateRxDesc { index: nic.rx_cur as usize },
        ]);
        assert(self.run(nic, buf, slots).commands =~= take_commands(nic.rx_cur, 1)
            + rest.commands);
    }

    /// Copying a frame behind what was copied, and then more bytes behind
    /// the frame, puts the frame and those bytes behind what was copied.
    proof fn lemma_place_then(self, buf: Seq<u8>, frame: Seq<u8>, tail: Seq<u8>)
        requires
            buf.len() == self.capacity,
            self.copied + frame.len() + tail.len() <= self.capacity,
        ensures
            ({
                let placed = self.place(buf, frame);
                let at = self.copied + frame.len();
                placed.subrange(0, at) + tail + placed.subrange(at + tail.len(), buf.len() as int)
                    == buf.subrange(0, self.copied as int) + (frame + tail) + buf.subrange(
                    at + tail.len(),
                    buf.len() as int,
                )
            }),
    {
        let placed = self.place(buf, frame);
        let at = self.copied + frame.len();
        assert(placed.subrange(0, at) + tail + placed.subrange(at + tail.len(), buf.len() as int)
            =~= buf.subrange(0, self.copied as int) + (frame + tail) + buf.subrange(
            at + tail.len(),
            buf.len() as int,
        ));
    }

    /// The commands that take `count` descriptors are those that take the
    /// first, then those that take the others.
    proof fn lemma_take_commands_split(cur: nat, count: nat)
        requires
            count > 0,
        ensures
            take_commands(cur, count) == take_commands(cur, 1) + take_commands(
                rx_next(cur),
                (count - 1) as nat,
            ),
    {
        reveal_with_fuel(take_commands, 2);
        assert(take_commands(rx_next(cur), 0) =~= Seq::<Command>::empty());
        assert(take_commands(cur, count) =~= take_commands(cur, 1) + take_commands(
            rx_next(cur),
            (count - 1) as nat,
        ));
    }

    /// From a state between two descriptors: when the device has delivered
    /// `frames` into the slots at the cursor and behind it, the rest of the
    /// buffer holds them all, and the read ends at the slot behind them,
    /// the read takes every one of them.
    #[verifier::rlimit(50)]
    proof fn lemma_run_frames(
        self,
        nic: NicModel,
        buf: Seq<u8>,
        frames: Seq<Seq<u8>>,
        slots: Seq<RxSlot>,
    )
        requires
            self.wf(),
            nic.wf(),
            self.fetching is None,
            buf.len() == self.capacity,
            self.walked + frames.len() <= RX_DESC_COUNT,
            self.copied + joined(frames).len() <= self.capacity,
            slots.len() == frames.len() + 1,
            forall|j: int| 0 <= j < frames.len() ==> delivers(#[trigger] slots[j], frames[j]),
            ends_read(
                slots[frames.len() as int].desc,
                self.capacity - self.copied - joined(frames).len(),
                self.walked + frames.len(),
            ),
        ensures
            ({
                let run = self.run(nic, buf, slots);
                let total = joined(frames).len();
                let last = if frames.len() == 0 {
                    self.last
                } else {
                    Some(rx_ahead(nic.rx_cur, frames.len() - 1) as usize)
                };
                &&& run.commands == take_commands(nic.rx_cur, frames.len()) + publish(last)
                &&& run.nic == (NicModel {
                    rx_cur: rx_ahead(nic.rx_cur, frames.len() as int),
                    ..nic
                })
                &&& run.buf == buf.subrange(0, self.copied as int) + joined(frames) + buf.subrange(
                    self.copied + total,
                    buf.len() as int,
                )
                &&& run.result == Some(
                    ((self.copied + total) as u64, slots[frames.len() as int].desc.done()),
                )
            }),
        decreases frames.len(),
    {
        let run = self.run(nic, buf, slots);
        if frames.len() == 0 {
            assert(joined(frames) =~= Seq::<u8>::empty());
            assert(buf =~= buf.subrange(0, self.copied as int) + joined(frames) + buf.subrange(
                self.copied + 0,
                buf.len() as int,
            ));
            assert(run.commands =~= take_commands(nic.rx_cur, 0) + publish(self.last));
            assert(rx_ahead(nic.rx_cur, 0) == nic.rx_cur);
        } else {
            let frame = frames[0];
            let later = frames.skip(1);
            let rest = slots.skip(1);
            assert(joined(frames) == frame + joined(later));
            self.lemma_run_take(nic, buf, slots, frame);
            let after = self.taken(nic, frame.len());
            let moved = NicModel { rx_cur: rx_next(nic.rx_cur), ..nic };
            let placed = self.place(buf, frame);
            assert forall|j: int| 0 <= j < later.len() implies delivers(
                #[trigger] rest[j],
                later[j],
            ) by {
                assert(rest[j] == slots[j + 1]);
                assert(later[j] == frames[j + 1]);
            }
            assert(rest[later.len() as int] == slots[frames.len() as int]);
            after.lemma_run_frames(moved, placed, later, rest);
            let inner = after.run(moved, placed, rest);
            assert(rx_ahead(moved.rx_cur, later.len() as int) == rx_ahead(
                nic.rx_cur,
                frames.len() as int,
            ));
            let last = Some(rx_ahead(nic.rx_cur, frames.len() - 1) as usize);
            assert(inner.commands == take_commands(moved.rx_cur, later.len()) + publish(last)) by {
                if later.len() > 0 {
                    assert(rx_ahead(moved.rx_cur, later.len() - 1) == rx_ahead(
                        nic.rx_cur,
                        frames.len() - 1,
                    ));
                } else {
                    assert(rx_ahead(nic.rx_cur, 0) == nic.rx_cur);
                }
            }
            ReceiveModel::lemma_take_commands_split(nic.rx_cur, frames.len());
            assert(run.commands =~= take_commands(nic.rx_cur, frames.len()) + publish(last));
            self.lemma_place_then(buf, frame, joined(later));
        }
    }

    /// A read of delivered frames. When the device has delivered `frames`
    /// into the slots at the cursor and behind it, the buffer is large
    /// enough for all of them, and the read ends at the slot behind them:
    /// the read copies exactly their concatenation to the front of the
    /// buffer, clears the status byte of every descriptor it took, moves
    /// the tail register to the last of them, and reports their total
    /// length; it reports more data pending exactly if the device is done
    /// with the descriptor at which the read ended.
    pub proof fn lemma_read_frames(
        nic: NicModel,
        buf: Seq<u8>,
        frames: Seq<Seq<u8>>,
        slots: Seq<RxSlot>,
    )
        requires
            nic.wf(),
            buf.len() <= usize::MAX,
            frames.len() <= RX_DESC_COUNT,
            joined(frames).len() <= buf.len(),
            slots.len() == frames.len() + 1,
            forall|j: int| 0 <= j < frames.len() ==> delivers(#[trigger] slots[j], frames[j]),
            ends_read(
                slots[frames.len() as int].desc,
                buf.len() - joined(frames).len(),
                frames.len() as int,
            ),
        ensures
            ({
                let run = ReceiveModel::read(nic, buf, slots);
                let total = joined(frames).len();
                let last = if frames.len() == 0 {
                    None
                } else {
                    Some(rx_ahead(nic.rx_cur, frames.len() - 1) as usize)
                };
                &&& run.commands == take_commands(nic.rx_cur, frames.len()) + publish(last)
                &&& run.nic == (NicModel {
                    rx_cur: rx_ahead(nic.rx_cur, frames.len() as int),
                    ..nic
                })
                &&& run.buf == joined(frames) + buf.subrange(total as int, buf.len() as int)
                &&& run.result == Some((total as u64, slots[frames.len() as int].desc.done()))
            }),
    {
        let begin = ReceiveModel::begin(buf.len() as usize);
        begin.lemma_run_frames(nic, buf, frames, slots);
        let run = ReceiveModel::read(nic, buf, slots);
        let total = joined(frames).len();
        assert(run.buf =~= joined(frames) + buf.subrange(total as int, buf.len() as int));
    }
}

/// Whether `command` writes to a receive descriptor.
pub open spec fn writes_rx_desc(command: Command) -> bool {
    command is RxSetStatus || command is RxStore
}

/// What every step of a read keeps. The card stays well formed; the
/// receive cursor stays or moves to the next slot of the ring; nothing else
/// of the card changes but the count of discarded packets, which never
/// falls; a read that goes on is well formed; and a descriptor is written
/// only when the device is done with it.
pub proof fn lemma_read_step_keeps(rx: ReceiveModel, nic: NicModel, desc: RxDesc, frame: Seq<u8>)
    requires
        rx.wf(),
        nic.wf(),
        rx.fetching matches Some(len) ==> frame.len() == len,
    ensures
        ({
            let step = rx.on_desc(nic, desc);
            &&& step.nic.wf()
            &&& step.nic.rx_cur == nic.rx_cur || step.nic.rx_cur == rx_next(nic.rx_cur)
            &&& step.nic.rx_discarded >= nic.rx_discarded
            &&& step.nic == (NicModel {
                rx_cur: step.nic.rx_cur,
                rx_discarded: step.nic.rx_discarded,
                ..nic
            })
            &&& step.next matches Next::Continue(state) ==> state.wf()
            &&& forall|i: int|
                0 <= i < step.commands.len() && writes_rx_desc(#[trigger] step.commands[i])
                    ==> desc.done()
        }),
        ({
            let step = rx.on_frame(nic, frame);
            &&& step.nic.wf()
            &&& step.nic.rx_cur == nic.rx_cur || step.nic.rx_cur == rx_next(nic.rx_cur)
            &&& step.nic == (NicModel { rx_cur: step.nic.rx_cur, ..nic })
            &&& step.next matches Next::Continue(state) ==> state.wf()
        }),
{
}

} // verus!
