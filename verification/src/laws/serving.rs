//! Laws of the server: what a request opens, what is announced, and how files
//! are served and taken.

use crate::blocks::{
    ahead, ahead_is_nearest, block_data, blocks_ahead, blocks_per_window, covered, last_block,
    last_block_is_short, number_on_wire, window_len, window_room, window_room_shrinks,
    wire_number,
};
use crate::error::{ErrorView, TftpError, TftpErrorCode};
use crate::exchange::lemma_announced;
use crate::laws::negotiation::held;
use crate::laws::requests::settled_by;
use crate::options::{
    default_negotiation, insert_entry, insert_keeps_order, lookup, lookup_after_insert,
    oack_applied, option_names_differ, sorted, Entries, Negotiation, Options, BLKSIZE, TIMEOUT,
    TSIZE, WINDOWSIZE,
};
use crate::packet::{packet_text, Packet, PacketView};
use crate::peer::{mapped, Peer};
use crate::sender::{
    acknowledgements_free_blocks, pending_packet, pending_packets, sender_ok, sender_start,
    takes_block, with_ack, with_block, Acked, Sender,
};
use crate::server::{
    announced, answer_read, answer_write, clamp_negotiation, create_failure, granted,
    handle_one, open_failure, planned, read_after, read_chunk, read_ok, read_opening,
    read_reply, read_sends_the_file, read_start, read_step, wait_for, write_opening, Plan,
    PlanView, ReadPhase, ReadSession, ReadStep, ReadView, Resend, ServerConfig, WaitEvent,
    WaitStep, Wanted, WriteAction, WriteSession,
};
use crate::session::TransferStats;
use crate::text::decimal;
use crate::transfer::{delay_at, wait_at};
use vstd::prelude::*;
use vstd::string::*;

verus! {

/// How a file is cut: block number `k` holds the bytes from place
/// `(k - 1) * size` on, as many as fit or are left, and the last block is the
/// first one that is not full.
pub proof fn blocks_hold_their_bytes(file: Seq<u8>, size: nat, k: nat, j: int)
    requires
        size > 0,
        k >= 1,
    ensures
        k * size <= file.len() ==> block_data(file, size, k).len() == size,
        (k - 1) * size <= file.len() < k * size ==> block_data(file, size, k).len() == file.len()
            - (k - 1) * size,
        file.len() < (k - 1) * size ==> block_data(file, size, k).len() == 0,
        0 <= j < block_data(file, size, k).len() ==> block_data(file, size, k)[j] == file[(k - 1)
            * size + j],
        covered(file.len(), size, k) == (if k * size <= file.len() {
            k * size
        } else {
            file.len()
        }),
        (last_block(file.len(), size) - 1) * size <= file.len() < last_block(file.len(), size)
            * size,
{
    let len = file.len();
    assert(k * size == (k - 1) * size + size) by (nonlinear_arith)
        requires
            k >= 1,
    ;
    let q = len / size;
    vstd::arithmetic::div_mod::lemma_fundamental_div_mod(len as int, size as int);
    vstd::arithmetic::div_mod::lemma_mod_bound(len as int, size as int);
    assert(q * size <= len < (q + 1) * size) by (nonlinear_arith)
        requires
            len == size * q + len % size,
            0 <= len % size < size,
    ;
    if 0 <= j < block_data(file, size, k).len() {
        assert((k - 1) * size <= len);
        assert(((k - 1) as nat) * size == (k - 1) * size);
    }
}

/// Numbers on the wire count on from 0 after 65535; a window of no block is one
/// of a single block, and has room for what it does not hold yet.
pub proof fn numbers_wrap_on_the_wire(
    k: u64,
    b: u16,
    n: u16,
    d: u64,
    windowsize: u16,
    w: u64,
)
    requires
        call_ensures(number_on_wire, (k,), n),
        call_ensures(blocks_ahead, (k, b), d),
        call_ensures(blocks_per_window, (windowsize,), w),
    ensures
        n == k % 65536,
        n == wire_number(k as int),
        d < 65536,
        (k + d) % 65536 == b,
        d == ahead(k as int, b),
        w == (if windowsize == 0 {
            1
        } else {
            windowsize as int
        }),
        w == window_len(windowsize),
        window_room(k as int, w as int) == w - k % w,
{
    ahead_is_nearest(k as int, b, 0);
}

/// A sender before the first block.
pub proof fn senders_start_empty(blksize: u16, windowsize: u16, s: Sender)
    requires
        call_ensures(Sender::new, (blksize, windowsize), s),
    ensures
        s@.blksize == blksize,
        s@.window == (if windowsize == 0 {
            1
        } else {
            windowsize as int
        }),
        s@.base == 0,
        s@.pending.len() == 0,
        !s@.ended,
        s@.bytes == 0,
        s@ == sender_start(blksize, windowsize),
{
}

/// A sender takes another block unless the file has ended or the blocks that it
/// has taken fill a window.
pub proof fn senders_take_blocks_until_the_window_is_full(s: &Sender, r: bool)
    requires
        call_ensures(Sender::takes_block, (s,), r),
        sender_ok(s@),
    ensures
        r == takes_block(s@),
        r <==> !s@.ended && (s@.pending.len() == 0 || (s@.base + s@.pending.len()) % (
        s@.window as nat) != 0),
{
    window_room_shrinks(s@.base as int, s@.window as int, 0);
    window_room_shrinks(s@.base as int, s@.window as int, s@.pending.len() as int);
}

/// A block that is taken waits behind those before it, goes out under the
/// number after theirs, and is the last one where it is not full.
pub proof fn taken_blocks_wait_in_order(s: &mut Sender, chunk: &[u8], p: Packet)
    requires
        call_ensures(Sender::push, (s, chunk), p),
    ensures
        final(s)@.pending == old(s)@.pending.push(chunk@),
        final(s)@.ended <==> chunk@.len() < old(s)@.blksize || chunk@.len() == 0,
        final(s)@.bytes == old(s)@.bytes + chunk@.len(),
        final(s)@.base == old(s)@.base,
        final(s)@.blksize == old(s)@.blksize,
        final(s)@.window == old(s)@.window,
        p@ == (PacketView::Data {
            block: ((old(s)@.base + old(s)@.pending.len() + 1) % 65536) as u16,
            data: chunk@,
        }),
        final(s)@ == with_block(old(s)@, chunk@),
{
}

/// What goes out again are the blocks that wait, each under its number.
pub proof fn waiting_blocks_go_out_again(s: &Sender, v: Vec<Packet>, i: int)
    requires
        call_ensures(Sender::packets, (s,), v),
    ensures
        v@.len() == s@.pending.len(),
        0 <= i < v@.len() ==> v@[i]@ == (PacketView::Data {
            block: ((s@.base + 1 + i) % 65536) as u16,
            data: s@.pending[i],
        }),
        0 <= i < v@.len() ==> v@[i]@ == pending_packet(s@, i) && v@[i]@ == pending_packets(s@)[i],
{
}

/// An acknowledgement frees the blocks up to the one that it is for, and one
/// that is for none of those that wait, nor for the one before them, changes
/// nothing.
pub proof fn acknowledgements_free_what_they_are_for(s: &mut Sender, b: u16, r: Acked, a: int)
    requires
        call_ensures(Sender::ack, (s, b), r),
        sender_ok(old(s)@),
        old(s)@.base <= a <= old(s)@.base + old(s)@.pending.len(),
    ensures
        ({
            let x = old(s)@;
            let y = final(s)@;
            let n = x.pending.len();
            &&& y == with_ack(x, b).0 && r == with_ack(x, b).1
            &&& y.ended == x.ended && y.bytes == x.bytes && y.window == x.window && y.blksize
                == x.blksize
            &&& n > 0 && a % 65536 == b ==> {
                &&& y.base == a
                &&& y.pending == x.pending.skip(a - x.base)
                &&& r == (if a == x.base {
                    Acked::Again
                } else if a < x.base + n {
                    Acked::Part
                } else {
                    Acked::All
                })
            }
            &&& n == 0 || (forall|c: int|
                x.base <= c <= x.base + n ==> #[trigger] wire_number(c) != b) ==> y == x && r
                == Acked::Stale
        }),
{
    let x = old(s)@;
    window_room_shrinks(x.base as int, x.window as int, 0);
    ahead_is_nearest(x.base as int, b, 0);
    if x.pending.len() > 0 && a % 65536 == b {
        assert(wire_number(a) == b);
        acknowledgements_free_blocks(x, a as nat);
    }
    if forall|c: int|
        x.base <= c <= x.base + x.pending.len() ==> #[trigger] wire_number(c) != b {
        let d = ahead(x.base as int, b);
        assert(wire_number(x.base + d) == b);
    }
}

/// A read request opens a read of its file with its options, whatever the
/// server allows. A write request opens a write where that is allowed, and is
/// refused where it is not. Nothing else opens a transfer.
pub proof fn requests_open_what_they_ask_for(
    p: Packet,
    cfg: &ServerConfig,
    r: Result<Plan, TftpError>,
)
    requires
        call_ensures(handle_one, (p, cfg), r),
    ensures
        match p@ {
            PacketView::Rrq { filename, mode, options } => r matches Ok(plan) && plan@ == (
            PlanView::Read { filename, options }) && planned(p@, !cfg.allow_write) == Ok::<
                PlanView,
                ErrorView,
            >(PlanView::Read { filename, options }),
            PacketView::Wrq { filename, mode, options } => if cfg.allow_write {
                r matches Ok(plan) && plan@ == (PlanView::Write { filename, options })
            } else {
                r matches Ok(plan) && plan@ == (PlanView::Refuse {
                    answer: PacketView::Error {
                        code: TftpErrorCode::AccessViolation,
                        message: "writes disabled"@,
                    },
                })
            },
            other => r matches Err(e) && e@ == ErrorView::Protocol(
                "expected RRQ/WRQ, got "@ + packet_text(other),
            ),
        },
        r matches Ok(plan) ==> (plan@ is Read <==> p@ is Rrq) && (plan@ is Write <==> p@ is Wrq
            && cfg.allow_write) && (plan@ is Refuse <==> p@ is Wrq && !cfg.allow_write),
        match r {
            Ok(plan) => planned(p@, cfg.allow_write) == Ok::<PlanView, ErrorView>(plan@),
            Err(e) => planned(p@, cfg.allow_write) == Err::<PlanView, ErrorView>(e@),
        },
{
}

/// A server is set up with the directory and the permission that it is given.
pub proof fn servers_are_as_set_up(root: &str, allow: bool, c: ServerConfig, d: ServerConfig)
    requires
        call_ensures(ServerConfig::new, (root, allow), c),
        call_ensures(ServerConfig::clone, (&c,), d),
    ensures
        c.root@ == root@ && c.allow_write == allow,
        d.root@ == root@ && d.allow_write == allow,
{
}

/// Each parameter that is out of its range gives way to its default, and each
/// that is in it stays.
pub proof fn wild_parameters_give_way(n: Negotiation, r: Negotiation)
    requires
        call_ensures(clamp_negotiation, (n,), r),
    ensures
        r.blksize == (if 8 <= n.blksize <= 65464 {
            n.blksize
        } else {
            512
        }),
        r.timeout == (if 1 <= n.timeout <= 255 {
            n.timeout
        } else {
            5
        }),
        r.windowsize == (if n.windowsize >= 1 {
            n.windowsize
        } else {
            1
        }),
        r.tsize == n.tsize,
{
}

/// Whether parameters are what a request with these options is granted: what it
/// asks for where that is in range, and the defaults for the rest.
pub open spec fn grants(es: Entries, n: Negotiation) -> bool {
    &&& match held(es, "blksize"@, 65535) {
        Some(v) if 8 <= v <= 65464 => n.blksize == v,
        _ => n.blksize == 512,
    }
    &&& match held(es, "timeout"@, 65535) {
        Some(v) if 1 <= v <= 255 => n.timeout == v,
        _ => n.timeout == 5,
    }
    &&& match held(es, "windowsize"@, 65535) {
        Some(v) if 1 <= v => n.windowsize == v,
        _ => n.windowsize == 1,
    }
    &&& match held(es, "tsize"@, u64::MAX as nat) {
        Some(v) => n.tsize == Some(v as u64),
        None => n.tsize is None,
    }
}

/// Whether a request names an option that a server rules on.
pub open spec fn asks_for_a_ruling(es: Entries) -> bool {
    lookup(es, "blksize"@) is Some || lookup(es, "timeout"@) is Some || lookup(es, "tsize"@) is Some
        || lookup(es, "windowsize"@) is Some
}

/// Whether options tell the parameters of a transfer, and the size of the file
/// if it is given, and nothing else. A window of one block goes without saying.
pub open spec fn tells(es: Entries, n: Negotiation, size: Option<u64>, other: Seq<char>) -> bool {
    &&& lookup(es, "blksize"@) == Some(decimal(n.blksize as nat))
    &&& lookup(es, "timeout"@) == Some(decimal(n.timeout as nat))
    &&& lookup(es, "windowsize"@) == (if n.windowsize > 1 {
        Some(decimal(n.windowsize as nat))
    } else {
        None
    })
    &&& lookup(es, "tsize"@) == (match size {
        Some(v) => Some(decimal(v as nat)),
        None => None,
    })
    &&& other != "blksize"@ && other != "timeout"@ && other != "windowsize"@ && other != "tsize"@
        ==> lookup(es, other) is None
}

proof fn lemma_tells(n: Negotiation, size: Option<u64>, other: Seq<char>)
    ensures
        sorted(announced(n, size)),
        tells(announced(n, size), n, size, other),
{
    option_names_differ();
    lemma_told(n, size, BLKSIZE@);
    lemma_told(n, size, TIMEOUT@);
    lemma_told(n, size, WINDOWSIZE@);
    lemma_told(n, size, TSIZE@);
    lemma_told(n, size, other);
}

proof fn lemma_told(n: Negotiation, size: Option<u64>, name: Seq<char>)
    ensures
        sorted(announced(n, size)),
        lookup(announced(n, size), name) == (if size is Some && name == TSIZE@ {
            Some(decimal(size->0 as nat))
        } else if n.windowsize > 1 && name == WINDOWSIZE@ {
            Some(decimal(n.windowsize as nat))
        } else if name == TIMEOUT@ {
            Some(decimal(n.timeout as nat))
        } else if name == BLKSIZE@ {
            Some(decimal(n.blksize as nat))
        } else {
            None
        }),
{
    let e = Entries::empty();
    let a = insert_entry(e, BLKSIZE@, decimal(n.blksize as nat));
    let b = insert_entry(a, TIMEOUT@, decimal(n.timeout as nat));
    let c = insert_entry(b, WINDOWSIZE@, decimal(n.windowsize as nat));
    insert_keeps_order(e, BLKSIZE@, decimal(n.blksize as nat));
    insert_keeps_order(a, TIMEOUT@, decimal(n.timeout as nat));
    insert_keeps_order(b, WINDOWSIZE@, decimal(n.windowsize as nat));
    lookup_after_insert(e, BLKSIZE@, decimal(n.blksize as nat), name);
    lookup_after_insert(a, TIMEOUT@, decimal(n.timeout as nat), name);
    lookup_after_insert(b, WINDOWSIZE@, decimal(n.windowsize as nat), name);
    if let Some(v) = size {
        let d = if n.windowsize > 1 {
            c
        } else {
            b
        };
        insert_keeps_order(d, TSIZE@, decimal(v as nat));
        lookup_after_insert(d, TSIZE@, decimal(v as nat), name);
    }
}

/// The answer to a read request, whatever options it holds: the parameters are
/// those that it is granted. Where it names an option that the server rules on,
/// an OACK tells exactly these parameters, and the size of the file where that
/// was asked for and is known; a client that goes by it has the server's block
/// size, timeout and window. Otherwise there is no OACK.
pub proof fn answers_to_reads_tell_what_is_used(
    o: &Options,
    len: Option<u64>,
    r: (Negotiation, Option<Packet>),
    other: Seq<char>,
)
    requires
        call_ensures(answer_read, (o, len), r),
    ensures
        grants(o@, r.0),
        r.1 is Some <==> asks_for_a_ruling(o@),
        r.1 matches Some(p) ==> (p@ matches PacketView::Oack { options } && {
            let size = if held(o@, "tsize"@, u64::MAX as nat) is Some {
                len
            } else {
                None
            };
            &&& sorted(options)
            &&& tells(options, r.0, size, other)
            &&& settled_by(Negotiation { tsize: size, ..r.0 }, options)
            &&& oack_applied(default_negotiation(), options) == (Negotiation { tsize: size, ..r.0 })
        }),
        r.0 == granted(o@),
        match r.1 {
            Some(p) => read_opening(o@, len) == Some(p@),
            None => read_opening(o@, len) is None,
        },
{
    let size = if held(o@, "tsize"@, u64::MAX as nat) is Some {
        len
    } else {
        None
    };
    lemma_tells(r.0, size, other);
    lemma_announced(r.0, size);
}

/// The answer to a write request, whatever options it holds: the parameters are
/// those that it is granted. Where it names an option that the server rules on,
/// an OACK tells exactly these parameters; otherwise the answer is the
/// acknowledgement of block 0.
pub proof fn answers_to_writes_tell_what_is_used(
    o: &Options,
    r: (Negotiation, Packet),
    other: Seq<char>,
)
    requires
        call_ensures(answer_write, (o,), r),
    ensures
        grants(o@, r.0),
        !asks_for_a_ruling(o@) ==> r.1@ == (PacketView::Ack { block: 0 }),
        asks_for_a_ruling(o@) ==> (r.1@ matches PacketView::Oack { options } && {
            &&& sorted(options)
            &&& tells(options, r.0, None, other)
            &&& settled_by(Negotiation { tsize: None, ..r.0 }, options)
            &&& oack_applied(default_negotiation(), options) == (Negotiation { tsize: None, ..r.0 })
        }),
        r.0 == granted(o@),
        r.1@ == write_opening(o@),
{
    lemma_tells(r.0, None, other);
    lemma_announced(r.0, None);
}

/// The same of every set of options: what an opening OACK tells is what is
/// granted.
pub proof fn openings_tell_what_is_granted(es: Entries, len: Option<u64>)
    ensures
        grants(es, granted(es)),
        read_opening(es, len) matches Some(p) ==> (p matches PacketView::Oack { options } && {
            let n = oack_applied(default_negotiation(), options);
            n.blksize == granted(es).blksize && n.timeout == granted(es).timeout && n.windowsize
                == granted(es).windowsize
        }),
        read_opening(es, len) is Some <==> asks_for_a_ruling(es),
        write_opening(es) matches PacketView::Oack { options } ==> {
            let n = oack_applied(default_negotiation(), options);
            n.blksize == granted(es).blksize && n.timeout == granted(es).timeout && n.windowsize
                == granted(es).windowsize
        },
        write_opening(es) is Oack <==> asks_for_a_ruling(es),
{
    lemma_announced(granted(es), len);
    lemma_announced(granted(es), None);
}

/// A file that cannot be opened or created is reported: as not found where it
/// is missing, else as an access violation, with the reason.
pub proof fn files_out_of_reach_are_reported(
    missing: bool,
    reason: &str,
    p: Packet,
    q: Packet,
)
    requires
        call_ensures(open_failure, (missing, reason), p),
        call_ensures(create_failure, (reason,), q),
    ensures
        p@ matches PacketView::Error { code, message } && message == "cannot open file: "@
            + reason@ && (missing <==> code == TftpErrorCode::FileNotFound) && (!missing <==> code
            == TftpErrorCode::AccessViolation),
        q@ == (PacketView::Error {
            code: TftpErrorCode::AccessViolation,
            message: "cannot create file: "@ + reason@,
        }),
{
}

/// A wait ends with a packet of the wanted kind from the peer, or an ERROR from
/// it; other packets are passed over. It fails when the time is up or receiving
/// fails.
pub proof fn waits_end_with_what_is_wanted(
    peer: Peer,
    wanted: Wanted,
    event: WaitEvent,
    r: WaitStep,
)
    requires
        call_ensures(wait_for, (peer, wanted, event), r),
    ensures
        match event {
            WaitEvent::Deadline => r matches WaitStep::Fail(e) && e@ == ErrorView::Protocol(
                "timeout"@,
            ),
            WaitEvent::TimedOut => r matches WaitStep::Fail(e) && e@ == ErrorView::Protocol(
                "wait_for timeout"@,
            ),
            WaitEvent::Failed(e) => r == WaitStep::Fail(e),
            WaitEvent::Arrived { packet, from } => {
                let fits = packet@ is Error || (packet@ is Ack && wanted == Wanted::Ack) || (
                packet@ is Data && wanted == Wanted::Data);
                if fits && mapped(from) == mapped(peer) {
                    r == WaitStep::Found(packet)
                } else {
                    r is Continue
                }
            },
        },
{
}

/// The serving of a file starts with its first block, after the announcement
/// was acknowledged where there was one.
pub proof fn reads_start_with_nothing_sent(neg: Negotiation, len: u64, told: bool, s: ReadSession)
    requires
        call_ensures(ReadSession::new, (neg, len, told), s),
    ensures
        s.neg == neg,
        s.file_len == len,
        s.attempt == 0,
        s.phase == (if told {
            ReadPhase::Opening
        } else {
            ReadPhase::Open
        }),
        s.sender@ == sender_start(neg.blksize, neg.windowsize),
        s@ == read_start(neg, len, told),
{
}

/// What a read does next. While it is open and its window is not full it wants
/// a chunk of the file, of the negotiated block size (of nothing, for an empty
/// file); where it is done, nothing; else it waits, twice as long with every
/// attempt.
pub proof fn reads_ask_for_whole_blocks(s: &ReadSession, r: ReadStep)
    requires
        call_ensures(ReadSession::step, (s,), r),
        read_ok(s@),
    ensures
        r matches ReadStep::Chunk { len } ==> len == (if s.file_len == 0 {
            0
        } else {
            s.neg.blksize as int
        }),
        r is Chunk <==> s.phase == ReadPhase::Open && !s.sender@.ended && (
        s.sender@.pending.len() == 0 || (s.sender@.base + s.sender@.pending.len()) % (
        s.sender@.window as nat) != 0),
        r is Done <==> s.phase == ReadPhase::Done,
        r matches ReadStep::Wait { secs } ==> secs == wait_at(s.neg.timeout, s.attempt),
        r == read_step(s@),
{
    reveal_with_fuel(delay_at, 7);
    window_room_shrinks(s.sender@.base as int, s.sender@.window as int, 0);
    window_room_shrinks(
        s.sender@.base as int,
        s.sender@.window as int,
        s.sender@.pending.len() as int,
    );
}

/// The serving of `file` after `k` chunks, where at each chunk the caller hands
/// over as many bytes as were asked for, or what is left of the file, and each
/// wait is answered with the acknowledgement of all that was sent.
pub open spec fn fed(neg: Negotiation, file: Seq<u8>, k: nat) -> ReadView
    decreases k,
{
    if k == 0 {
        read_start(neg, file.len() as u64, false)
    } else {
        let s = fed(neg, file, (k - 1) as nat);
        let t = read_chunk(s, next_chunk(s, file)).0;
        if read_step(t) is Wait {
            read_reply(t, PacketView::Ack { block: wire_number(k as int) }).0
        } else {
            t
        }
    }
}

/// What the caller hands over: the bytes after those that were handed over, as
/// many as the read asks for, or what is left.
pub open spec fn next_chunk(s: ReadView, file: Seq<u8>) -> Seq<u8> {
    let from = s.sender.bytes as int;
    let asked = match read_step(s) {
        ReadStep::Chunk { len } => len as int,
        _ => 0,
    };
    if from + asked <= file.len() {
        file.subrange(from, from + asked)
    } else {
        file.subrange(from, file.len() as int)
    }
}

/// A caller that hands over what is asked for, as far as the file goes, hands
/// over the blocks of the file, each goes out under its number, and when the
/// read is done all of the file was sent.
pub proof fn what_is_asked_for_is_the_file(neg: Negotiation, file: Seq<u8>, k: nat)
    requires
        neg.blksize > 0,
        file.len() <= u64::MAX,
        k <= last_block(file.len(), neg.blksize as nat),
    ensures
        ({
            let s = fed(neg, file, k);
            let size = neg.blksize as nat;
            let last = last_block(file.len(), size);
            &&& k < last ==> {
                &&& read_step(s) == (ReadStep::Chunk {
                    len: if file.len() == 0 {
                        0
                    } else {
                        neg.blksize as usize
                    },
                })
                &&& next_chunk(s, file) == block_data(file, size, k + 1)
                &&& read_chunk(s, next_chunk(s, file)).1 == (PacketView::Data {
                    block: ((k + 1) % 65536) as u16,
                    data: block_data(file, size, k + 1),
                })
            }
            &&& k == last ==> read_step(s) == ReadStep::Done && s.sender.bytes == file.len()
            &&& s == read_after(neg, file, k)
        }),
    decreases k,
{
    let size = neg.blksize as nat;
    let last = last_block(file.len(), size);
    read_sends_the_file(neg, file, k);
    if k > 0 {
        what_is_asked_for_is_the_file(neg, file, (k - 1) as nat);
    }
    if k < last {
        let s = fed(neg, file, k);
        last_block_is_short(file, size, k + 1);
        assert((k + 1) * size == k * size + size) by (nonlinear_arith);
        assert(s.sender.bytes == k * size);
        assert(next_chunk(s, file) =~= block_data(file, size, k + 1));
    }
}

/// A chunk goes out as the next block, and waits for its acknowledgement.
pub proof fn chunks_go_out_as_blocks(s: &mut ReadSession, chunk: &[u8], p: Packet)
    requires
        call_ensures(ReadSession::on_chunk, (s, chunk), p),
    ensures
        p@ == (PacketView::Data {
            block: ((old(s).sender@.base + old(s).sender@.pending.len() + 1) % 65536) as u16,
            data: chunk@,
        }),
        final(s).sender@.pending == old(s).sender@.pending.push(chunk@),
        final(s).sender@.base == old(s).sender@.base,
        final(s).sender@.bytes == old(s).sender@.bytes + chunk@.len(),
        final(s).sender@.ended <==> chunk@.len() < old(s).sender@.blksize || chunk@.len() == 0,
        final(s).neg == old(s).neg,
        final(s).file_len == old(s).file_len,
        final(s).attempt == old(s).attempt,
        final(s).phase == old(s).phase,
{
    assert(final(s)@.sender == final(s).sender@);
    assert(final(s)@.neg == final(s).neg && final(s)@.phase == final(s).phase);
}

/// What a read sends again are its waiting blocks, each under its number.
pub proof fn reads_send_waiting_blocks_again(s: &ReadSession, v: Vec<Packet>, i: int)
    requires
        call_ensures(ReadSession::packets, (s,), v),
    ensures
        v@.len() == s.sender@.pending.len(),
        0 <= i < v@.len() ==> v@[i]@ == (PacketView::Data {
            block: ((s.sender@.base + 1 + i) % 65536) as u16,
            data: s.sender@.pending[i],
        }),
{
}

/// What an answer does to a read. After the announcement only the
/// acknowledgement of block 0 opens the file. An acknowledgement of waiting
/// blocks frees them and starts the attempts anew; the rest goes out again, and
/// where all are freed the next window opens, or the read is done. Others are
/// passed over. An ERROR ends the read, well where only an answer to an empty
/// last block was missing.
pub proof fn answers_move_a_read(
    s: &mut ReadSession,
    p: &Packet,
    r: Result<Resend, TftpError>,
    a: int,
)
    requires
        call_ensures(ReadSession::on_reply, (s, p), r),
        read_ok(old(s)@),
        old(s).sender@.base <= a <= old(s).sender@.base + old(s).sender@.pending.len(),
    ensures
        ({
            let x = old(s)@;
            let y = final(s)@;
            let n = x.sender.pending.len();
            &&& y.neg == x.neg && y.file_len == x.file_len
            &&& p@ matches PacketView::Ack { block } ==> (x.phase == ReadPhase::Opening ==> {
                &&& r == Ok::<Resend, TftpError>(Resend::Nothing)
                &&& y.sender == x.sender
                &&& block == 0 ==> y.phase == ReadPhase::Open && y.attempt == 0
                &&& block != 0 ==> y == x
            })
            &&& p@ matches PacketView::Ack { block } ==> (x.phase == ReadPhase::Open && n > 0 && a
                % 65536 == block ==> {
                &&& y.sender.base == a
                &&& y.sender.pending == x.sender.pending.skip(a - x.sender.base)
                &&& y.sender.ended == x.sender.ended && y.sender.bytes == x.sender.bytes
                &&& y.attempt == (if a == x.sender.base {
                    x.attempt
                } else {
                    0
                })
                &&& r == Ok::<Resend, TftpError>(
                    if a < x.sender.base + n {
                        Resend::Blocks
                    } else {
                        Resend::Nothing
                    },
                )
                &&& y.phase == (if a == x.sender.base + n && x.sender.ended {
                    ReadPhase::Done
                } else {
                    ReadPhase::Open
                })
            })
            &&& p@ matches PacketView::Ack { block } ==> (x.phase == ReadPhase::Open && (n == 0 || (
            forall|c: int|
                x.sender.base <= c <= x.sender.base + n ==> #[trigger] wire_number(c) != block))
                ==> y == x && r == Ok::<Resend, TftpError>(Resend::Nothing))
            &&& x.phase == ReadPhase::Done && p@ is Ack ==> y == x && r == Ok::<Resend, TftpError>(
                Resend::Nothing,
            )
            &&& p@ matches PacketView::Error { code, message } ==> {
                let closing = x.phase == ReadPhase::Open && x.sender.ended && n == 1
                    && x.sender.pending[0].len() == 0;
                &&& closing ==> r == Ok::<Resend, TftpError>(Resend::Nothing) && y == (ReadView {
                    phase: ReadPhase::Done,
                    ..x
                })
                &&& !closing ==> y == x && (r matches Err(e) && e@ == (ErrorView::Remote {
                    code,
                    message,
                }))
            }
        }),
{
    let x = old(s)@.sender;
    window_room_shrinks(x.base as int, x.window as int, 0);
    if let PacketView::Ack { block } = p@ {
        ahead_is_nearest(x.base as int, block, 0);
        if x.pending.len() > 0 && a % 65536 == block as int {
            assert(wire_number(a) == block);
            acknowledgements_free_blocks(x, a as nat);
            assert(x.pending.skip(0) =~= x.pending);
        }
        if forall|c: int|
            x.base <= c <= x.base + x.pending.len() ==> #[trigger] wire_number(c) != block {
            assert(wire_number(x.base + ahead(x.base as int, block)) == block);
        }
    }
}

/// What a wait in vain does to a read: a failure that is worth another attempt
/// brings what is not acknowledged again, until six were in vain; then the read
/// ends with a timeout. Any other failure ends it at once, well only for an
/// empty file whose block was sent.
pub proof fn waits_in_vain_move_a_read(
    s: &mut ReadSession,
    e: TftpError,
    r: Result<Resend, TftpError>,
)
    requires
        call_ensures(ReadSession::on_wait_failed, (s, e), r),
    ensures
        ({
            let x = old(s)@;
            let y = final(s)@;
            let again = e is Timeout || e is Protocol;
            &&& y.sender == x.sender && y.neg == x.neg && y.file_len == x.file_len
            &&& again && x.attempt < 5 ==> {
                &&& y.attempt == x.attempt + 1
                &&& y.phase == x.phase
                &&& r == Ok::<Resend, TftpError>(
                    if x.phase == ReadPhase::Opening {
                        Resend::Announcement
                    } else {
                        Resend::Blocks
                    },
                )
            }
            &&& again && x.attempt >= 5 ==> y == x && (r matches Err(t) && t@ == (
            ErrorView::Timeout { retries: 6 }))
            &&& !again && x.phase == ReadPhase::Open && x.file_len == 0 ==> r == Ok::<
                Resend,
                TftpError,
            >(Resend::Nothing) && y == (ReadView { phase: ReadPhase::Done, ..x })
            &&& !again && !(x.phase == ReadPhase::Open && x.file_len == 0) ==> y == x && (
            r matches Err(t) && t@ == e@)
        }),
{
}

/// The account of a read that was served: the size of the file, and how many
/// full blocks were sent. An empty file leaves it empty.
pub proof fn served_files_are_accounted_for(s: &ReadSession, r: TransferStats)
    requires
        call_ensures(ReadSession::stats, (s,), r),
        s.neg.blksize > 0,
    ensures
        r.duration_ms == 0,
        s.file_len == 0 ==> r.bytes == 0 && r.blocks == 0 && r.total_bytes is None,
        s.file_len > 0 ==> r.bytes == s.file_len && r.total_bytes == Some(s.file_len) && r.blocks
            == s.sender.bytes as int / s.neg.blksize as int,
{
}

/// The taking of a file starts with block 1.
pub proof fn writes_start_with_the_first_block(neg: Negotiation, s: WriteSession, secs: u64)
    requires
        call_ensures(WriteSession::new, (neg,), s),
        call_ensures(WriteSession::wait, (&s,), secs),
    ensures
        s.neg == neg,
        s.expected_block == 1,
        s.received == 0,
        s.attempt == 0,
        secs == neg.timeout,
{
}

/// How long a write waits.
pub proof fn writes_wait_longer_each_time(s: &WriteSession, secs: u64)
    requires
        call_ensures(WriteSession::wait, (s,), secs),
    ensures
        secs == wait_at(s.neg.timeout, s.attempt),
{
}

/// What a packet does to a write. The block that is due, under its number, is
/// stored; it is acknowledged where it fills a window, and where it is not full
/// it ends the file. Any other block changes nothing and is answered with the
/// last one that was stored. An ERROR ends the write.
pub proof fn writes_store_the_block_that_is_due(
    s: &mut WriteSession,
    p: &Packet,
    r: Result<WriteAction, TftpError>,
)
    requires
        call_ensures(WriteSession::on_packet, (s, p), r),
        old(s).expected_block >= 1,
    ensures
        ({
            let x = *old(s);
            let y = *final(s);
            let window = if x.neg.windowsize == 0 {
                1
            } else {
                x.neg.windowsize as int
            };
            &&& p@ matches PacketView::Data { block, data } ==> (x.expected_block % 65536 == block
                && x.expected_block < u64::MAX && x.received + data.len() <= u64::MAX ==> {
                &&& y.expected_block == x.expected_block + 1
                &&& y.received == x.received + data.len()
                &&& y.attempt == 0
                &&& y.neg == x.neg
                &&& r == Ok::<WriteAction, TftpError>(
                    if data.len() < x.neg.blksize {
                        WriteAction::Finish { ack: block }
                    } else if x.expected_block as int % window == 0 {
                        WriteAction::Store { ack: Some(block) }
                    } else {
                        WriteAction::Store { ack: None }
                    },
                )
            })
            &&& p@ matches PacketView::Data { block, data } ==> (x.expected_block % 65536 != block
                ==> y == x && r == Ok::<WriteAction, TftpError>(
                WriteAction::Ack { block: ((x.expected_block - 1) % 65536) as u16 },
            ))
            &&& p@ matches PacketView::Error { code, message } ==> y == x && (r matches Err(e)
                && e@ == (ErrorView::Remote { code, message }))
        }),
{
}

/// What a wait in vain does to a write: a failure that is worth another attempt
/// brings the last answer again, until six were in vain; then the write ends
/// with a timeout. Any other failure ends it at once.
pub proof fn waits_in_vain_move_a_write(
    s: &mut WriteSession,
    e: TftpError,
    r: Result<WriteAction, TftpError>,
)
    requires
        call_ensures(WriteSession::on_wait_failed, (s, e), r),
        old(s).expected_block >= 1,
    ensures
        ({
            let x = *old(s);
            let y = *final(s);
            let again = e is Timeout || e is Protocol;
            &&& again && x.attempt < 5 ==> {
                &&& y == (WriteSession { attempt: (x.attempt + 1) as u32, ..x })
                &&& r == Ok::<WriteAction, TftpError>(
                    if x.expected_block == 1 {
                        WriteAction::Announce
                    } else {
                        WriteAction::Ack { block: ((x.expected_block - 1) % 65536) as u16 }
                    },
                )
            }
            &&& again && x.attempt >= 5 ==> y == x && (r matches Err(t) && t@ == (
            ErrorView::Timeout { retries: 6 }))
            &&& !again ==> y == x && (r matches Err(t) && t@ == e@)
        }),
{
}

/// The account of a write: the bytes that came, and how many full blocks they
/// make.
pub proof fn taken_files_are_accounted_for(s: &WriteSession, r: TransferStats)
    requires
        call_ensures(WriteSession::stats, (s,), r),
        s.neg.blksize > 0,
    ensures
        r.bytes == s.received,
        r.blocks == s.received as int / s.neg.blksize as int,
        r.total_bytes is None,
        r.duration_ms == 0,
{
}

} // verus!
