//! The vocabulary between the driver core and the platform glue.
//!
//! A step of the core hands the platform a list of [`Command`]s to carry
//! out in order and then either a state to continue from or a result. A
//! state that is not finished has one pending [`Query`]; the platform
//! performs it and hands the answer to the next step.

use vstd::prelude::*;
use crate::desc::{RxDesc, TxDesc};

verus! {

/// An access that needs no answer.
#[allow(inconsistent_fields)]
#[derive(Clone, Copy, Debug, PartialEq, Eq)]
pub enum Command {
    /// Write `value` to the register at offset `reg` of BAR0.
    RegWrite { reg: u16, value: u32 },
    /// Write the whole receive descriptor `index`.
    RxStore { index: usize, desc: RxDesc },
    /// Write only the status byte of receive descriptor `index`.
    RxSetStatus { index: usize, status: u8 },
    /// Invalidate the cache lines that back the packet buffer of receive
    /// descriptor `index`. Nothing to do where DMA is cache coherent.
    InvalidateRxBuffer { index: usize },
    /// Invalidate the cache lines that back receive descriptor `index`.
    /// Nothing to do where DMA is cache coherent.
    InvalidateRxDesc { index: usize },
    /// Write the whole transmit descriptor `index`.
    TxStore { index: usize, desc: TxDesc },
    /// Give the `bytes` bytes of physically contiguous memory at `addr`
    /// back to the allocator.
    Free { addr: u64, bytes: usize },
}

/// An access whose answer the next step needs.
#[derive(Clone, Copy, Debug, PartialEq, Eq)]
pub enum Query {
    /// Read the register at offset `reg` of BAR0. Answer: its value.
    RegRead { reg: u16 },
    /// Read receive descriptor `index`. Answer: the descriptor.
    RxLoad { index: usize },
    /// Read the first `len` bytes of the packet buffer of receive
    /// descriptor `index`. Answer: those bytes.
    RxFetch { index: usize, len: usize },
    /// Read transmit descriptor `index`. Answer: the descriptor.
    TxLoad { index: usize },
    /// Allocate `bytes` bytes of zeroed, physically contiguous kernel
    /// memory. Answer: its physical address, or nothing when memory is
    /// short.
    Alloc { bytes: usize },
}

/// One interaction with the platform, as it appears in a trace.
#[derive(Clone, Copy, Debug, PartialEq, Eq)]
pub enum Io {
    /// The core asked the platform to carry out a command.
    Do(Command),
    /// The core asked the platform a question.
    Ask(Query),
}

/// Where an operation stands after a step.
#[derive(Debug)]
pub enum Next<S, T> {
    /// Not finished: perform the state's pending query and step again.
    Continue(S),
    /// Finished with this result.
    Done(T),
}

/// What a step of an operation hands back.
#[derive(Debug)]
pub struct Step<S, T> {
    /// Commands to carry out, in order, before anything else.
    pub commands: Vec<Command>,
    /// What follows the commands.
    pub next: Next<S, T>,
}

/// The commands of `list` as trace entries.
pub open spec fn done_all(list: Seq<Command>) -> Seq<Io> {
    list.map_values(|c: Command| Io::Do(c))
}

} // verus!
