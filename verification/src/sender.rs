//! Sending a file in windows of blocks, as a server does for a read and a
//! client for a write.
//!
//! A sender takes the blocks of the file until the window is full or the file
//! has ended, then waits for an acknowledgement. It keeps every block until it
//! is acknowledged, so that it can send it again.

use crate::blocks::{
    ahead, ahead_is_nearest, block_data, block_joins_on, blocks_ahead, blocks_per_window, covered,
    last_block, number_on_wire, short_block_is_last, window_len, window_room,
    window_room_shrinks, wire_number,
};
use crate::packet::{Packet, PacketView};
use crate::wire::{bytes_content, copy_from_slice, no_bytes};
use vstd::prelude::*;

verus! {

/// A file on its way: `base` blocks were acknowledged, `pending` holds the data
/// of those that were taken after them, `ended` says whether the last block is
/// among these, and `bytes` counts what all blocks held.
#[derive(Debug)]
pub struct Sender {
    pub blksize: u16,
    pub windowsize: u16,
    pub base: u64,
    pub pending: Vec<bytes::Bytes>,
    pub ended: bool,
    pub bytes: u64,
}

/// The content of a [`Sender`].
#[verifier::ext_equal]
pub struct SenderView {
    pub blksize: nat,
    pub window: nat,
    pub base: nat,
    pub pending: Seq<Seq<u8>>,
    pub ended: bool,
    pub bytes: nat,
}

/// The content of runs of bytes.
pub open spec fn contents(v: Seq<bytes::Bytes>) -> Seq<Seq<u8>> {
    Seq::new(v.len(), |i: int| bytes_content(v[i]))
}

impl View for Sender {
    type V = SenderView;

    open spec fn view(&self) -> SenderView {
        SenderView {
            blksize: self.blksize as nat,
            window: window_len(self.windowsize) as nat,
            base: self.base as nat,
            pending: contents(self.pending@),
            ended: self.ended,
            bytes: self.bytes as nat,
        }
    }
}

/// What an acknowledgement does to a sender.
#[derive(Debug, Clone, Copy, PartialEq, Eq, Structural)]
pub enum Acked {
    /// Nothing: it is for no block that is waited for, nor for the one before.
    Stale,
    /// It is for the block before those that are waited for: the receiver
    /// lacks all of them.
    Again,
    /// It is for some of the blocks: the receiver lacks the rest.
    Part,
    /// It is for all blocks.
    All,
}

/// A sender before the first block.
pub open spec fn sender_start(blksize: u16, windowsize: u16) -> SenderView {
    SenderView {
        blksize: blksize as nat,
        window: window_len(windowsize) as nat,
        base: 0,
        pending: Seq::empty(),
        ended: false,
        bytes: 0,
    }
}

/// Whether a sender fits its window.
pub open spec fn sender_ok(s: SenderView) -> bool {
    &&& 1 <= s.window <= 65535
    &&& s.pending.len() <= window_room(s.base as int, s.window as int)
}

/// Whether a sender takes another block: whether the file goes on and the
/// window is not full.
pub open spec fn takes_block(s: SenderView) -> bool {
    !s.ended && s.pending.len() < window_room(s.base as int, s.window as int)
}

/// A sender with one more block. A block that is shorter than the block size,
/// or empty, is the last one.
pub open spec fn with_block(s: SenderView, data: Seq<u8>) -> SenderView {
    SenderView {
        pending: s.pending.push(data),
        ended: data.len() < s.blksize || data.len() == 0,
        bytes: s.bytes + data.len(),
        ..s
    }
}

/// The packet that carries the pending block at place `i`.
pub open spec fn pending_packet(s: SenderView, i: int) -> PacketView {
    PacketView::Data { block: wire_number(s.base + 1 + i), data: s.pending[i] }
}

/// The packets that carry the pending blocks.
pub open spec fn pending_packets(s: SenderView) -> Seq<PacketView> {
    Seq::new(s.pending.len(), |i: int| pending_packet(s, i))
}

/// What the acknowledgement of number `b` does: it frees the blocks up to the
/// one that it is for.
pub open spec fn with_ack(s: SenderView, b: u16) -> (SenderView, Acked) {
    let d = ahead(s.base as int, b);
    if s.pending.len() == 0 || d > s.pending.len() {
        (s, Acked::Stale)
    } else {
        let t = SenderView { base: (s.base + d) as nat, pending: s.pending.skip(d), ..s };
        if d == 0 {
            (t, Acked::Again)
        } else if d < s.pending.len() {
            (t, Acked::Part)
        } else {
            (t, Acked::All)
        }
    }
}

impl Sender {
    /// A sender before the first block.
    pub fn new(blksize: u16, windowsize: u16) -> (s: Self)
        ensures
            s@ == sender_start(blksize, windowsize),
            sender_ok(s@),
    {
        let s = Sender {
            blksize,
            windowsize,
            base: 0,
            pending: Vec::new(),
            ended: false,
            bytes: 0,
        };
        assert(s@ =~= sender_start(blksize, windowsize));
        proof {
            window_room_shrinks(0, s@.window as int, 0);
        }
        s
    }

    /// Whether another block is to be taken before an acknowledgement is
    /// waited for.
    pub fn takes_block(&self) -> (r: bool)
        ensures
            r == takes_block(self@),
    {
        let window: u64 = blocks_per_window(self.windowsize);
        !self.ended && (self.pending.len() as u64) < window - self.base % window
    }

    /// Takes the next block of the file, empty at its end, and gives the packet
    /// that carries it.
    pub fn push(&mut self, chunk: &[u8]) -> (p: Packet)
        requires
            sender_ok(old(self)@),
            takes_block(old(self)@),
            old(self).base < u64::MAX - 65535,
            old(self).bytes + chunk@.len() <= u64::MAX,
        ensures
            final(self)@ == with_block(old(self)@, chunk@),
            sender_ok(final(self)@),
            p@ == pending_packet(final(self)@, old(self)@.pending.len() as int),
            final(self).base == old(self).base,
            final(self).blksize == old(self).blksize,
            final(self).windowsize == old(self).windowsize,
    {
        let ghost before = self@;
        proof {
            window_room_shrinks(self.base as int, before.window as int, 0);
        }
        let data = if chunk.len() == 0 {
            assert(chunk@ =~= Seq::<u8>::empty());
            no_bytes()
        } else {
            copy_from_slice(chunk)
        };
        let block: u16 = number_on_wire(self.base + 1 + self.pending.len() as u64);
        self.pending.push(data.clone());
        self.ended = chunk.len() < self.blksize as usize || chunk.len() == 0;
        self.bytes = self.bytes + chunk.len() as u64;
        assert(contents(self.pending@) =~= before.pending.push(chunk@));
        Packet::Data { block, data }
    }

    /// The packets that carry the blocks which are not acknowledged.
    pub fn packets(&self) -> (v: Vec<Packet>)
        requires
            sender_ok(self@),
            self.base < u64::MAX - 65535,
        ensures
            v@.len() == self@.pending.len(),
            forall|i: int| 0 <= i < v@.len() ==> (#[trigger] v@[i])@ == pending_packet(self@, i),
    {
        let mut v: Vec<Packet> = Vec::new();
        let mut i: usize = 0;
        proof {
            window_room_shrinks(self.base as int, self@.window as int, 0);
        }
        while i < self.pending.len()
            invariant
                i <= self.pending.len() <= 65535,
                v@.len() == i,
                self.base < u64::MAX - 65535,
                forall|j: int| 0 <= j < i ==> (#[trigger] v@[j])@ == pending_packet(self@, j),
            decreases self.pending.len() - i,
        {
            let block: u16 = number_on_wire(self.base + 1 + i as u64);
            let packet = Packet::Data { block, data: self.pending[i].clone() };
            assert(packet@ == pending_packet(self@, i as int));
            v.push(packet);
            i = i + 1;
        }
        v
    }

    /// Takes the acknowledgement of number `b`.
    pub fn ack(&mut self, b: u16) -> (r: Acked)
        requires
            sender_ok(old(self)@),
            old(self).base < u64::MAX - 65535,
        ensures
            final(self)@ == with_ack(old(self)@, b).0,
            r == with_ack(old(self)@, b).1,
            sender_ok(final(self)@),
            final(self).blksize == old(self).blksize,
            final(self).windowsize == old(self).windowsize,
            final(self).bytes == old(self).bytes,
            final(self).ended == old(self).ended,
    {
        let ghost before = self@;
        let d: u64 = blocks_ahead(self.base, b);
        let n: usize = self.pending.len();
        proof {
            ahead_is_nearest(before.base as int, b, 0);
            window_room_shrinks(before.base as int, before.window as int, 0);
        }
        if n == 0 || d > n as u64 {
            return Acked::Stale;
        }
        proof {
            window_room_shrinks(before.base as int, before.window as int, d as int);
        }
        let mut i: u64 = 0;
        assert(before.pending.skip(0) =~= before.pending);
        while i < d
            invariant
                i <= d <= n,
                n == before.pending.len(),
                self.pending@.len() == n - i,
                contents(self.pending@) == before.pending.skip(i as int),
                self.base == before.base,
                self.blksize == old(self).blksize,
                self.windowsize == old(self).windowsize,
                self.bytes == old(self).bytes,
                self.ended == old(self).ended,
            decreases d - i,
        {
            let ghost held = contents(self.pending@);
            self.pending.remove(0);
            assert(contents(self.pending@) =~= held.skip(1));
            assert(held.skip(1) =~= before.pending.skip(i + 1));
            i = i + 1;
        }
        self.base = self.base + d;
        assert(self@ =~= with_ack(before, b).0);
        if d == 0 {
            Acked::Again
        } else if d < n as u64 {
            Acked::Part
        } else {
            Acked::All
        }
    }
}

/// Whether a sender is on its way with `file`: what it holds are the blocks of
/// the file after those that were acknowledged.
pub open spec fn carries(s: SenderView, file: Seq<u8>) -> bool {
    let taken = s.base + s.pending.len();
    &&& s.blksize > 0
    &&& sender_ok(s)
    &&& forall|i: int|
        0 <= i < s.pending.len() ==> #[trigger] s.pending[i] == block_data(
            file,
            s.blksize,
            (s.base + 1 + i) as nat,
        )
    &&& taken <= last_block(file.len(), s.blksize)
    &&& s.ended <==> taken == last_block(file.len(), s.blksize)
    &&& s.bytes == covered(file.len(), s.blksize, taken)
    &&& !s.ended ==> taken * s.blksize <= file.len()
}

/// A sender of a file stays on its way with it, whatever it is sent: when it
/// takes the next block, and on any acknowledgement. So what it sends again are
/// blocks of the file under their numbers.
#[verifier::rlimit(50)]
pub proof fn senders_carry_the_file(s: SenderView, file: Seq<u8>, b: u16)
    requires
        carries(s, file),
    ensures
        takes_block(s) ==> carries(
            with_block(
                s,
                block_data(file, s.blksize, (s.base + s.pending.len() + 1) as nat),
            ),
            file,
        ),
        carries(with_ack(s, b).0, file),
        forall|i: int|
            0 <= i < s.pending.len() ==> (#[trigger] pending_packets(s)[i]) == (PacketView::Data {
                block: wire_number(s.base + 1 + i),
                data: block_data(file, s.blksize, (s.base + 1 + i) as nat),
            }),
{
    let d = ahead(s.base as int, b);
    ahead_is_nearest(s.base as int, b, 0);
    window_room_shrinks(s.base as int, s.window as int, 0);
    if takes_block(s) {
        let k = (s.base + s.pending.len() + 1) as nat;
        short_block_is_last(file, s.blksize, k);
        block_joins_on(file, s.blksize, k);
        let data = block_data(file, s.blksize, k);
        let a = covered(file.len(), s.blksize, (k - 1) as nat);
        let c = covered(file.len(), s.blksize, k);
        assert(file.take(a as int).len() + data.len() == file.take(c as int).len());
        let t = with_block(s, data);
        assert forall|i: int| 0 <= i < t.pending.len() implies #[trigger] t.pending[i]
            == block_data(file, t.blksize, (t.base + 1 + i) as nat) by {
            if i < s.pending.len() {
                assert(t.pending[i] == s.pending[i]);
            }
        }
    }
    if s.pending.len() > 0 && d <= s.pending.len() {
        window_room_shrinks(s.base as int, s.window as int, d);
        let t = with_ack(s, b).0;
        assert forall|i: int| 0 <= i < t.pending.len() implies #[trigger] t.pending[i]
            == block_data(file, t.blksize, (t.base + 1 + i) as nat) by {
            assert(t.pending[i] == s.pending[d + i]);
        }
    }
}

/// A sender before the first block is on its way with every file.
pub proof fn senders_start_with_any_file(blksize: u16, windowsize: u16, file: Seq<u8>)
    requires
        blksize > 0,
    ensures
        carries(sender_start(blksize, windowsize), file),
{
    let s = sender_start(blksize, windowsize);
    window_room_shrinks(0, s.window as int, 0);
    assert(covered(file.len(), s.blksize, 0) == 0) by (nonlinear_arith);
}

/// The acknowledgement of the block that was sent last frees all blocks; that
/// of an earlier one leaves the ones after it.
pub proof fn acknowledgements_free_blocks(s: SenderView, a: nat)
    requires
        sender_ok(s),
        s.pending.len() > 0,
        s.base <= a <= s.base + s.pending.len(),
    ensures
        with_ack(s, wire_number(a as int)).0 == (SenderView {
            base: a,
            pending: s.pending.skip(a - s.base),
            ..s
        }),
        with_ack(s, wire_number(a as int)).1 == (if a == s.base {
            Acked::Again
        } else if a < s.base + s.pending.len() {
            Acked::Part
        } else {
            Acked::All
        }),
{
    window_room_shrinks(s.base as int, s.window as int, 0);
    ahead_is_nearest(s.base as int, wire_number(a as int), a - s.base);
}

/// The sending of `file` after `k` of its blocks were taken, each full window
/// acknowledged.
pub open spec fn sender_after(blksize: u16, windowsize: u16, file: Seq<u8>, k: nat) -> SenderView
    decreases k,
{
    if k == 0 {
        sender_start(blksize, windowsize)
    } else {
        let s = with_block(
            sender_after(blksize, windowsize, file, (k - 1) as nat),
            block_data(file, blksize as nat, k),
        );
        if takes_block(s) {
            s
        } else {
            with_ack(s, wire_number(k as int)).0
        }
    }
}

/// A sender takes the blocks of a file one after the other, waits after each
/// full window and after the last block, and when the last block is
/// acknowledged it has sent the whole file.
#[verifier::rlimit(50)]
pub proof fn sender_sends_the_file(blksize: u16, windowsize: u16, file: Seq<u8>, k: nat)
    requires
        blksize > 0,
        k <= last_block(file.len(), blksize as nat),
    ensures
        ({
            let s = sender_after(blksize, windowsize, file, k);
            let last = last_block(file.len(), blksize as nat);
            let w = window_len(windowsize) as nat;
            &&& carries(s, file)
            &&& s.window == w
            &&& s.blksize == blksize
            &&& s.base + s.pending.len() == k
            &&& k < last ==> takes_block(s) && s.base % w == 0 && s.pending.len() == k % w
            &&& k == last ==> s.ended && s.pending.len() == 0 && s.bytes == file.len()
        }),
    decreases k,
{
    let size = blksize as nat;
    let last = last_block(file.len(), size);
    let w = window_len(windowsize) as nat;
    if k == 0 {
        senders_start_with_any_file(blksize, windowsize, file);
        window_room_shrinks(0, w as int, 0);
        assert(0int % (w as int) == 0) by (nonlinear_arith)
            requires
                w > 0,
        ;
    } else {
        sender_sends_the_file(blksize, windowsize, file, (k - 1) as nat);
        let before = sender_after(blksize, windowsize, file, (k - 1) as nat);
        senders_carry_the_file(before, file, 0);
        let s = with_block(before, block_data(file, size, k));
        assert(carries(s, file));
        window_room_shrinks(before.base as int, w as int, 0);
        window_room_shrinks(before.base as int, w as int, s.pending.len() as int);
        if !takes_block(s) {
            senders_carry_the_file(s, file, wire_number(k as int));
            acknowledgements_free_blocks(s, k);
            assert(s.pending.skip(k - s.base) =~= Seq::empty());
            short_block_is_last(file, size, k);
            if k < last {
                assert(k as int % w as int == 0);
                window_room_shrinks(k as int, w as int, 0);
            }
        } else {
            vstd::arithmetic::div_mod::lemma_fundamental_div_mod(before.base as int, w as int);
            vstd::arithmetic::div_mod::lemma_fundamental_div_mod_converse(
                k as int,
                w as int,
                before.base as int / w as int,
                s.pending.len() as int,
            );
        }
    }
}

/// A sender waits after the last block of a file, and after each block that
/// fills a window, and after no other.
pub proof fn senders_wait_after_windows(blksize: u16, windowsize: u16, file: Seq<u8>, k: nat)
    requires
        blksize > 0,
        1 <= k <= last_block(file.len(), blksize as nat),
    ensures
        ({
            let s = with_block(
                sender_after(blksize, windowsize, file, (k - 1) as nat),
                block_data(file, blksize as nat, k),
            );
            let w = window_len(windowsize) as nat;
            &&& carries(s, file)
            &&& s.base + s.pending.len() == k
            &&& s.ended <==> k == last_block(file.len(), blksize as nat)
            &&& !takes_block(s) <==> k == last_block(file.len(), blksize as nat) || k % w == 0
        }),
{
    let w = window_len(windowsize) as nat;
    sender_sends_the_file(blksize, windowsize, file, (k - 1) as nat);
    let before = sender_after(blksize, windowsize, file, (k - 1) as nat);
    senders_carry_the_file(before, file, 0);
    window_room_shrinks(before.base as int, w as int, 0);
    window_room_shrinks(k - 1, w as int, 1);
}

} // verus!
