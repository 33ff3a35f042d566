//! Laws of the client's transfers: reading a file and writing one.

use crate::blocks::{ahead_is_nearest, window_len, window_room_shrinks, wire_number};
use crate::client::{
    acknowledged, get_start, get_wait, window_complete, window_left, GetAction, GetSession,
    Progress, PutSession, PutStep,
};
use crate::error::{ErrorView, TftpError};
use crate::options::Negotiation;
use crate::packet::{packet_text, Packet, PacketView};
use crate::sender::{acknowledgements_free_blocks, sender_ok};
use crate::server::{write_acknowledged, WriteAction};
use crate::session::{ClientConfig, TransferStats};
use crate::transfer::wait_at;
use vstd::prelude::*;
use vstd::string::*;

verus! {

/// A read starts with the block after those that were fetched before, with
/// nothing stored and all its retries, of which there is at least one.
pub proof fn reads_start_after_what_was_fetched(
    cfg: &ClientConfig,
    neg: Negotiation,
    s: GetSession,
    at: u64,
    secs: u64,
)
    requires
        call_ensures(GetSession::new, (cfg, neg), s),
        cfg.resume_from_block < u64::MAX,
        call_ensures(GetSession::offset, (&s,), at),
        call_ensures(GetSession::wait, (&s,), secs),
    ensures
        s.neg == neg,
        s.resume_from_block == cfg.resume_from_block,
        s.expected_block == cfg.resume_from_block + 1,
        s.last_acked == cfg.resume_from_block % 65536,
        s.max_retries == (if cfg.retries == 0 {
            1
        } else {
            cfg.retries as int
        }),
        s.retries_left == s.max_retries,
        s.bytes == 0,
        s.blocks == 0,
        at == cfg.resume_from_block * neg.blksize,
        secs == neg.timeout,
        s == get_start(*cfg, neg),
{
}

/// What a block does to a read. The one that is due, under its number, is
/// stored; it is acknowledged where it fills a window, and where it is not full
/// it ends the file. One that can be on its way with the window, or that cannot
/// have come before, is answered with the last one that was stored; any other
/// came before and is acknowledged again. Neither is stored.
pub proof fn reads_store_the_block_that_is_due(
    s: &mut GetSession,
    p: &Packet,
    r: Result<GetAction, TftpError>,
    block: u16,
    data: Seq<u8>,
)
    requires
        call_ensures(GetSession::on_packet, (s, p), r),
        old(s).wf(),
        old(s).expected_block < u64::MAX,
        old(s).bytes + data.len() <= u64::MAX,
        p@ == (PacketView::Data { block, data }),
    ensures
        ({
            let x = *old(s);
            let y = *final(s);
            let window = if x.neg.windowsize == 0 {
                1
            } else {
                x.neg.windowsize as int
            };
            let ahead = (block - x.expected_block) % 65536;
            let left = window - x.blocks as int % window - 1;
            let last = ((x.expected_block - 1) % 65536) as u16;
            &&& y.neg == x.neg && y.resume_from_block == x.resume_from_block && y.max_retries
                == x.max_retries && y.retries_left == x.max_retries
            &&& x.expected_block % 65536 == block ==> {
                &&& y.expected_block == x.expected_block + 1
                &&& y.blocks == x.blocks + 1
                &&& y.bytes == x.bytes + data.len()
                &&& y.last_acked == block
                &&& r == Ok::<GetAction, TftpError>(
                    if data.len() < x.neg.blksize {
                        GetAction::Finish { ack: block }
                    } else if (x.blocks + 1) % window == 0 {
                        GetAction::Store { ack: Some(block) }
                    } else {
                        GetAction::Store { ack: None }
                    },
                )
            }
            &&& x.expected_block % 65536 != block ==> {
                &&& y.expected_block == x.expected_block && y.blocks == x.blocks && y.bytes
                    == x.bytes
                &&& y.last_acked == (if ahead <= left || 65536 - ahead > x.expected_block {
                    last
                } else {
                    block
                })
                &&& r == Ok::<GetAction, TftpError>(GetAction::Ack { block: y.last_acked })
            }
        }),
{
    let x = *old(s);
    ahead_is_nearest(x.expected_block as int, block, 0);
    assert(window_left(x) == window_len(x.neg.windowsize) - x.blocks as int % window_len(
        x.neg.windowsize,
    ) as int - 1);
    if x.neg.windowsize <= 1 {
        assert((x.blocks + 1) % 1 == 0);
    }
}

/// What other packets do to a read: an ERROR ends it with the code and the
/// message, an OACK before the first block is acknowledged again, and anything
/// else ends it as unexpected. Nothing is stored.
pub proof fn other_packets_store_nothing(
    s: &mut GetSession,
    p: &Packet,
    r: Result<GetAction, TftpError>,
)
    requires
        call_ensures(GetSession::on_packet, (s, p), r),
        !(p@ is Data),
    ensures
        *final(s) == (GetSession { retries_left: old(s).max_retries, ..*old(s) }),
        match p@ {
            PacketView::Error { code, message } => r matches Err(e) && e@ == (ErrorView::Remote {
                code,
                message,
            }),
            PacketView::Oack { .. } => if old(s).blocks == 0 {
                r == Ok::<GetAction, TftpError>(GetAction::Ack { block: old(s).last_acked })
            } else {
                r matches Err(e) && e@ == ErrorView::Protocol(
                    "unexpected packet during DATA: "@ + packet_text(p@),
                )
            },
            _ => r matches Err(e) && e@ == ErrorView::Protocol(
                "unexpected packet during DATA: "@ + packet_text(p@),
            ),
        },
{
}

/// When nothing comes, the last acknowledgement is sent again, as long as
/// retries are left; then the read ends with a timeout.
pub proof fn silence_repeats_the_last_acknowledgement(
    s: &mut GetSession,
    r: Result<u16, TftpError>,
)
    requires
        call_ensures(GetSession::on_silence, (s,), r),
    ensures
        old(s).retries_left > 0 ==> r == Ok::<u16, TftpError>(old(s).last_acked) && *final(s) == (
        GetSession { retries_left: (old(s).retries_left - 1) as u32, ..*old(s) }),
        old(s).retries_left == 0 ==> *final(s) == *old(s) && (r matches Err(e) && e@ == (
        ErrorView::Timeout { retries: old(s).max_retries })),
{
}

/// How long a read waits: the longer, the more waits were in vain.
pub proof fn reads_wait_longer_each_time(s: &GetSession, secs: u64)
    requires
        call_ensures(GetSession::wait, (s,), secs),
    ensures
        secs == wait_at(s.neg.timeout, (s.max_retries - s.retries_left) as u32),
        secs == get_wait(*s),
{
}

/// The account of a read and how far it has come.
pub proof fn reads_are_accounted_for(s: &GetSession, r: TransferStats, p: Progress)
    requires
        call_ensures(GetSession::stats, (s,), r),
        call_ensures(GetSession::progress, (s,), p),
    ensures
        r.bytes == s.bytes && r.blocks == s.blocks && r.total_bytes is None && r.duration_ms == 0,
        p.bytes == s.bytes && p.blocks == s.blocks && p.total_bytes == s.neg.tsize,
{
}

/// What an action acknowledges, and where windows are complete.
pub proof fn actions_acknowledge_their_block(
    a: GetAction,
    w: WriteAction,
    windowsize: u16,
    blocks: u64,
)
    ensures
        write_acknowledged(w) == (match w {
            WriteAction::Announce => None,
            WriteAction::Ack { block } => Some(block),
            WriteAction::Store { ack } => ack,
            WriteAction::Finish { ack } => Some(ack),
        }),
        acknowledged(a) == (match a {
            GetAction::Ack { block } => Some(block),
            GetAction::Store { ack } => ack,
            GetAction::Finish { ack } => Some(ack),
        }),
        window_complete(windowsize, blocks) <==> windowsize == 0 || blocks as int
            % windowsize as int == 0,
{
    if windowsize == 1 {
        assert(blocks as int % 1 == 0);
    }
}

/// A write starts with nothing sent.
pub proof fn writes_start_with_nothing_sent(neg: Negotiation, total: u64, s: PutSession)
    requires
        call_ensures(PutSession::new, (neg, total), s),
    ensures
        s.neg == neg,
        s.total_bytes == total,
        s.sender@.base == 0,
        s.sender@.pending.len() == 0,
        s.sender@.bytes == 0,
        !s.sender@.ended,
        s.sender@.blksize == neg.blksize,
        s.sender@.window == (if neg.windowsize == 0 {
            1
        } else {
            neg.windowsize as int
        }),
{
}

/// A write takes blocks until the file has ended or the window is full.
pub proof fn writes_take_blocks_until_the_window_is_full(s: &PutSession, r: bool)
    requires
        call_ensures(PutSession::takes_block, (s,), r),
        sender_ok(s.sender@),
    ensures
        r <==> !s.sender@.ended && (s.sender@.pending.len() == 0 || (s.sender@.base
            + s.sender@.pending.len()) % (s.sender@.window as nat) != 0),
{
    window_room_shrinks(s.sender@.base as int, s.sender@.window as int, 0);
    window_room_shrinks(
        s.sender@.base as int,
        s.sender@.window as int,
        s.sender@.pending.len() as int,
    );
}

/// A chunk waits behind those before it, and is the last one where it is not
/// full.
pub proof fn chunks_wait_in_order(s: &mut PutSession, chunk: &[u8])
    requires
        call_ensures(PutSession::on_chunk, (s, chunk), ()),
    ensures
        final(s).sender@.pending == old(s).sender@.pending.push(chunk@),
        final(s).sender@.base == old(s).sender@.base,
        final(s).sender@.bytes == old(s).sender@.bytes + chunk@.len(),
        final(s).sender@.ended <==> chunk@.len() < old(s).sender@.blksize || chunk@.len() == 0,
        final(s).sender@.window == old(s).sender@.window,
        final(s).neg == old(s).neg && final(s).total_bytes == old(s).total_bytes,
{
}

/// What a write sends are its waiting blocks, each under its number.
pub proof fn writes_send_waiting_blocks(s: &PutSession, v: Vec<Packet>, i: int)
    requires
        call_ensures(PutSession::packets, (s,), v),
    ensures
        v@.len() == s.sender@.pending.len(),
        0 <= i < v@.len() ==> v@[i]@ == (PacketView::Data {
            block: ((s.sender@.base + 1 + i) % 65536) as u16,
            data: s.sender@.pending[i],
        }),
{
}

/// What an answer does to a write: the acknowledgement of some of the waiting
/// blocks frees them and brings the rest again; that of all of them opens the
/// next window, or ends the write. Any other answer is a failure and frees
/// nothing.
pub proof fn answers_move_a_write(
    s: &mut PutSession,
    p: &Packet,
    r: Result<PutStep, TftpError>,
    a: int,
)
    requires
        call_ensures(PutSession::on_reply, (s, p), r),
        sender_ok(old(s).sender@),
        old(s).sender@.base < a <= old(s).sender@.base + old(s).sender@.pending.len(),
    ensures
        ({
            let x = old(s).sender@;
            let y = final(s).sender@;
            let n = x.pending.len();
            &&& final(s).neg == old(s).neg && final(s).total_bytes == old(s).total_bytes
            &&& p@ matches PacketView::Ack { block } ==> (a % 65536 == block ==> {
                &&& y.base == a
                &&& y.pending == x.pending.skip(a - x.base)
                &&& y.ended == x.ended && y.bytes == x.bytes
                &&& r == Ok::<PutStep, TftpError>(
                    if a < x.base + n {
                        PutStep::Again
                    } else if x.ended {
                        PutStep::Done
                    } else {
                        PutStep::Next
                    },
                )
            })
            &&& p@ matches PacketView::Ack { block } ==> ((forall|c: int|
                x.base < c <= x.base + n ==> #[trigger] wire_number(c) != block) ==> y == x && (
            r matches Err(e) && e@ == ErrorView::Protocol("unexpected ack"@)))
            &&& p@ matches PacketView::Error { code, message } ==> y == x && (r matches Err(e)
                && e@ == (ErrorView::Remote { code, message }))
            &&& !(p@ is Ack) && !(p@ is Error) ==> y == x && (r matches Err(e) && e@
                == ErrorView::Protocol("unexpected ack"@))
        }),
{
    let x = old(s).sender@;
    window_room_shrinks(x.base as int, x.window as int, 0);
    if let PacketView::Ack { block } = p@ {
        ahead_is_nearest(x.base as int, block, 0);
        if a % 65536 == block as int {
            assert(wire_number(a) == block);
            acknowledgements_free_blocks(x, a as nat);
        }
        if forall|c: int| x.base < c <= x.base + x.pending.len() ==> #[trigger] wire_number(c)
            != block {
            assert(wire_number(x.base + crate::blocks::ahead(x.base as int, block)) == block);
        }
    }
}

/// The account of a write and how far it has come: what was sent, how many
/// blocks were acknowledged, and the size of the file.
pub proof fn writes_are_accounted_for(s: &PutSession, r: TransferStats, p: Progress)
    requires
        call_ensures(PutSession::stats, (s,), r),
        call_ensures(PutSession::progress, (s,), p),
    ensures
        r.bytes == s.sender.bytes && r.blocks == s.sender.base && r.total_bytes is None
            && r.duration_ms == 0,
        p.bytes == s.sender.bytes && p.blocks == s.sender.base && p.total_bytes == Some(
            s.total_bytes,
        ),
{
}

} // verus!
