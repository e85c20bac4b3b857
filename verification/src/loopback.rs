//! Transmit and receive together: what comes back when the device loops
//! every transmitted descriptor into the receive ring.

use vstd::prelude::*;
use crate::desc::TxDesc;
use crate::model::NicModel;
use crate::platform::Command;
use crate::regs::{REG_TDT, TX_BUFF_SIZE};
use crate::rx::{delivers, joined, ReceiveModel, RxSlot};
use crate::tx::{chunk_count, chunk_desc, chunk_len, chunk_stores, tx_ahead, write_limit,
    TransmitModel};

verus! {

/// The frames that a looping device makes of the transmit descriptors that
/// `commands` store: for each, the bytes of the buffer `data` at `phys`
/// that the descriptor points at.
pub open spec fn looped(data: Seq<u8>, phys: u64, commands: Seq<Command>) -> Seq<Seq<u8>>
    decreases commands.len(),
{
    if commands.len() == 0 {
        Seq::empty()
    } else {
        match commands[0] {
            Command::TxStore { desc, .. } => seq![
                data.subrange(desc.addr - phys, desc.addr - phys + desc.length),
            ] + looped(data, phys, commands.skip(1)),
            _ => looped(data, phys, commands.skip(1)),
        }
    }
}

/// The buffer `data` from byte `from` on, cut into chunks.
pub open spec fn pieces(data: Seq<u8>, from: nat) -> Seq<Seq<u8>>
    decreases data.len() - from,
{
    if from >= data.len() {
        Seq::empty()
    } else {
        seq![data.subrange(from as int, (from + chunk_len(data.len(), from)) as int)] + pieces(
            data,
            from + chunk_len(data.len(), from),
        )
    }
}

/// The offset at which chunk number `first` starts.
pub open spec fn chunk_start(first: nat) -> nat {
    first * (TX_BUFF_SIZE as nat)
}

/// The chunks of a buffer, one after the other, are the buffer; there are
/// as many as `chunk_count` says, none is empty and none is longer than a
/// packet buffer.
proof fn lemma_pieces(data: Seq<u8>, first: nat)
    requires
        chunk_start(first) <= data.len(),
        first <= chunk_count(data.len()),
    ensures
        joined(pieces(data, chunk_start(first))) == data.subrange(
            chunk_start(first) as int,
            data.len() as int,
        ),
        pieces(data, chunk_start(first)).len() == chunk_count(data.len()) - first,
        forall|j: int|
            0 <= j < pieces(data, chunk_start(first)).len() ==> 0 < (#[trigger] pieces(
                data,
                chunk_start(first),
            )[j]).len() <= TX_BUFF_SIZE,
    decreases data.len() - chunk_start(first),
{
    let from = chunk_start(first);
    let all = pieces(data, from);
    if from >= data.len() {
        assert(joined(all) =~= data.subrange(from as int, data.len() as int));
    } else {
        let chunk = chunk_len(data.len(), from);
        let head = data.subrange(from as int, (from + chunk) as int);
        if from + chunk == data.len() {
            let rest = pieces(data, from + chunk);
            assert(rest =~= Seq::<Seq<u8>>::empty());
            assert(all =~= seq![head]);
            assert(all.skip(1) =~= rest);
            assert(joined(rest) =~= Seq::<u8>::empty());
            assert(joined(all) =~= data.subrange(from as int, data.len() as int));
        } else {
            assert(from + chunk == chunk_start(first + 1));
            lemma_pieces(data, first + 1);
            let rest = pieces(data, chunk_start(first + 1));
            assert(all.skip(1) =~= rest);
            assert(all[0] == head);
            assert(joined(all) =~= data.subrange(from as int, data.len() as int));
            assert forall|j: int| 0 <= j < all.len() implies 0 < (#[trigger] all[j]).len()
                <= TX_BUFF_SIZE by {
                if j > 0 {
                    assert(all[j] == rest[j - 1]);
                }
            }
        }
    }
}

/// A looping device makes of the stores of a write the chunks of the
/// buffer.
proof fn lemma_looped_stores(data: Seq<u8>, phys: u64, cur: nat, first: nat, end: Seq<Command>)
    requires
        phys + data.len() <= u64::MAX,
        0 < data.len() <= write_limit(),
        first <= chunk_count(data.len()),
        end.len() == 1,
        end[0] is RegWrite,
    ensures
        looped(
            data,
            phys,
            chunk_stores(cur, phys, data.len(), first, (chunk_count(data.len()) - first) as nat)
                + end,
        ) == pieces(data, chunk_start(first)),
    decreases chunk_count(data.len()) - first,
{
    let count = (chunk_count(data.len()) - first) as nat;
    let stores = chunk_stores(cur, phys, data.len(), first, count);
    let commands = stores + end;
    let from = chunk_start(first);
    if count == 0 {
        assert(commands =~= end);
        assert(commands.skip(1) =~= Seq::<Command>::empty());
        assert(looped(data, phys, commands.skip(1)) =~= Seq::<Seq<u8>>::empty());
        assert(looped(data, phys, commands) =~= Seq::<Seq<u8>>::empty());
        assert(pieces(data, from) =~= Seq::<Seq<u8>>::empty());
    } else {
        let later = chunk_stores(cur + 1, phys, data.len(), first + 1, (count - 1) as nat);
        assert(commands.skip(1) =~= later + end) by {
            assert forall|j: int| 0 <= j < count - 1 implies stores[j + 1] == later[j] by {
                assert(tx_ahead(cur, j + 1) == tx_ahead(cur + 1, j));
                assert((first + (j + 1)) * TX_BUFF_SIZE == (first + 1 + j) * TX_BUFF_SIZE);
            }
        }
        lemma_looped_stores(data, phys, cur + 1, first + 1, end);
        let desc = chunk_desc(phys, data.len(), from);
        assert(commands[0] == Command::TxStore { index: tx_ahead(cur, 0) as usize, desc });
        assert(desc.addr - phys == from);
        assert(desc.length == chunk_len(data.len(), from));
        assert(from + chunk_len(data.len(), from) == chunk_start(first + 1) || from
            + chunk_len(data.len(), from) == data.len());
        if from + chunk_len(data.len(), from) == data.len() {
            assert(pieces(data, data.len()) =~= Seq::<Seq<u8>>::empty());
            assert(first + 1 == chunk_count(data.len()));
            assert(pieces(data, chunk_start(first + 1)) =~= Seq::<Seq<u8>>::empty());
        }
    }
}

/// The round trip. A buffer that is not empty and that one write can
/// accept whole is written onto a ring that the device is done with; the
/// device loops every descriptor stored into the receive ring, in order,
/// from the receive cursor on, and nothing else; a read into a buffer of
/// the same length then yields the bytes that were written, all of them,
/// and reports that nothing more is pending.
pub proof fn lemma_round_trip(
    nic: NicModel,
    phys: u64,
    data: Seq<u8>,
    answers: Seq<TxDesc>,
    buf: Seq<u8>,
    slots: Seq<RxSlot>,
)
    requires
        nic.wf(),
        0 < data.len() <= write_limit(),
        phys + data.len() <= u64::MAX,
        answers.len() == chunk_count(data.len()) + 1,
        forall|i: int| 0 <= i < answers.len() ==> (#[trigger] answers[i]).done(),
        buf.len() == data.len(),
        ({
            let sent = TransmitModel::write(nic, phys, data.len() as usize, answers);
            let frames = looped(data, phys, sent.commands);
            &&& slots.len() == frames.len() + 1
            &&& forall|j: int| 0 <= j < frames.len() ==> delivers(#[trigger] slots[j], frames[j])
            &&& !slots[frames.len() as int].desc.done()
        }),
    ensures
        ({
            let sent = TransmitModel::write(nic, phys, data.len() as usize, answers);
            let got = ReceiveModel::read(sent.nic, buf, slots);
            &&& sent.result == Some(data.len() as u64)
            &&& got.result == Some((data.len() as u64, false))
            &&& got.buf == data
        }),
{
    let len = data.len() as usize;
    TransmitModel::lemma_write_whole(nic, phys, len, answers);
    let sent = TransmitModel::write(nic, phys, len, answers);
    let chunks = chunk_count(data.len());
    let end = seq![
        Command::RegWrite { reg: REG_TDT, value: tx_ahead(nic.tx_cur, chunks as int) as u32 },
    ];
    lemma_looped_stores(data, phys, nic.tx_cur, 0, end);
    lemma_pieces(data, 0);
    let frames = looped(data, phys, sent.commands);
    assert(frames == pieces(data, 0));
    assert(joined(frames) =~= data);
    ReceiveModel::lemma_read_frames(sent.nic, buf, frames, slots);
    let got = ReceiveModel::read(sent.nic, buf, slots);
    assert(got.buf =~= data);
}

} // verus!
