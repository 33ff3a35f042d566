//! A client and a server of this crate talking to each other: over a channel
//! that loses nothing, and after losses.

use crate::blocks::{
    ahead, ahead_is_nearest, block_data, block_joins_on, covered, last_block, last_block_is_short,
    near_numbers_differ, window_len, window_room_shrinks, wire_number,
};
use crate::client::{
    acknowledged, asked_for, get_event, get_opened, get_settled, get_step, put_reply, put_request,
    put_settled, reads_stay_sound, request_options, window_left, GetAction, GetEvent, GetProgress,
    GetSession, PutStep,
};
use crate::error::ErrorView;
use crate::options::{
    default_negotiation, in_range, insert_entry, insert_keeps_order, lookup_after_insert,
    oack_applied, option_names_differ, option_u16, option_u64, set_number_reads_back, sorted,
    Entries, Negotiation, BLKSIZE, TIMEOUT, TSIZE, WINDOWSIZE,
};
use crate::packet::PacketView;
use crate::sender::{
    acknowledgements_free_blocks, carries, pending_packet, sender_after, sender_sends_the_file,
    sender_start, senders_wait_after_windows, takes_block, with_ack, with_block, Acked, SenderView,
};
use crate::server::{
    announced, granted, holds_known_option, read_after, read_chunk, read_opening, read_reply,
    read_sends_the_file, read_start, read_step, valid_requests_are_granted, write_acknowledged,
    write_event, write_opened, write_opening, write_step, ReadStep, ReadView, WriteEvent,
    WriteProgress, WriteSession,
};
use crate::session::ClientConfig;
use crate::text::decimal;
use vstd::prelude::*;

verus! {

/// Setting one of the four options: what each of them then holds.
proof fn lemma_set_u16(es: Entries, name: Seq<char>, v: u16)
    requires
        sorted(es),
    ensures
        sorted(insert_entry(es, name, decimal(v as nat))),
        option_u16(insert_entry(es, name, decimal(v as nat)), name) == Some(v),
        forall|other: Seq<char>|
            other != name ==> #[trigger] option_u16(
                insert_entry(es, name, decimal(v as nat)),
                other,
            ) == option_u16(es, other),
        forall|other: Seq<char>|
            other != name ==> #[trigger] option_u64(
                insert_entry(es, name, decimal(v as nat)),
                other,
            ) == option_u64(es, other),
{
    let out = insert_entry(es, name, decimal(v as nat));
    insert_keeps_order(es, name, decimal(v as nat));
    set_number_reads_back(es, name, v as nat, u16::MAX as nat, name);
    assert forall|other: Seq<char>| other != name implies #[trigger] option_u16(out, other)
        == option_u16(es, other) by {
        lookup_after_insert(es, name, decimal(v as nat), other);
    }
    assert forall|other: Seq<char>| other != name implies #[trigger] option_u64(out, other)
        == option_u64(es, other) by {
        lookup_after_insert(es, name, decimal(v as nat), other);
    }
}

/// What the options of a request hold; the server has something to rule on.
pub proof fn request_holds_what_is_asked_for(cfg: ClientConfig)
    ensures
        sorted(request_options(cfg)),
        holds_known_option(request_options(cfg)),
        oack_applied(default_negotiation(), request_options(cfg)) == asked_for(cfg),
{
    option_names_differ();
    let a = insert_entry(Entries::empty(), BLKSIZE@, decimal(cfg.blksize as nat));
    let b = insert_entry(a, TIMEOUT@, decimal(cfg.timeout_secs as nat));
    lemma_set_u16(Entries::empty(), BLKSIZE@, cfg.blksize);
    lemma_set_u16(a, TIMEOUT@, cfg.timeout_secs);
    lemma_set_u16(b, WINDOWSIZE@, cfg.windowsize);
    lookup_after_insert(b, WINDOWSIZE@, decimal(cfg.windowsize as nat), WINDOWSIZE@);
}

/// What the options of an announcement hold.
pub(crate) proof fn lemma_announced(n: Negotiation, tsize: Option<u64>)
    ensures
        option_u16(announced(n, tsize), BLKSIZE@) == Some(n.blksize),
        option_u16(announced(n, tsize), TIMEOUT@) == Some(n.timeout),
        option_u16(announced(n, tsize), WINDOWSIZE@) == (if n.windowsize > 1 {
            Some(n.windowsize)
        } else {
            None
        }),
        option_u64(announced(n, tsize), TSIZE@) == tsize,
{
    option_names_differ();
    let a = insert_entry(Entries::empty(), BLKSIZE@, decimal(n.blksize as nat));
    let base = insert_entry(a, TIMEOUT@, decimal(n.timeout as nat));
    lemma_set_u16(Entries::empty(), BLKSIZE@, n.blksize);
    lemma_set_u16(a, TIMEOUT@, n.timeout);
    lemma_set_u16(base, WINDOWSIZE@, n.windowsize);
    let windowed = if n.windowsize > 1 {
        insert_entry(base, WINDOWSIZE@, decimal(n.windowsize as nat))
    } else {
        base
    };
    assert(option_u16(base, BLKSIZE@) == Some(n.blksize));
    assert(option_u16(windowed, BLKSIZE@) == Some(n.blksize));
    assert(option_u16(windowed, TIMEOUT@) == Some(n.timeout));
    assert(option_u16(a, WINDOWSIZE@) is None && option_u16(base, WINDOWSIZE@) is None);
    assert(option_u64(a, TSIZE@) is None && option_u64(base, TSIZE@) is None);
    if let Some(len) = tsize {
        set_number_reads_back(windowed, TSIZE@, len as nat, u64::MAX as nat, TSIZE@);
        lookup_after_insert(windowed, TSIZE@, decimal(len as nat), BLKSIZE@);
        lookup_after_insert(windowed, TSIZE@, decimal(len as nat), TIMEOUT@);
        lookup_after_insert(windowed, TSIZE@, decimal(len as nat), WINDOWSIZE@);
    }
}

/// Client and server settle on the same parameters: what the client makes of
/// the server's announcement is what the server granted, and the size of the
/// file is what the server announced. What the client asked for is granted
/// where it is in range.
pub proof fn negotiation_agrees(cfg: ClientConfig, tsize: Option<u64>)
    ensures
        ({
            let n = granted(request_options(cfg));
            let reply = PacketView::Oack { options: announced(n, tsize) };
            &&& in_range(n)
            &&& in_range(asked_for(cfg)) ==> n == asked_for(cfg)
            &&& get_settled(reply) == Ok::<(Negotiation, bool), ErrorView>(
                (Negotiation { tsize, ..n }, true),
            )
            &&& put_settled(reply) == Ok::<Negotiation, ErrorView>(Negotiation { tsize, ..n })
        }),
{
    request_holds_what_is_asked_for(cfg);
    lemma_announced(granted(request_options(cfg)), tsize);
}

/// Where a request holds nothing that the server rules on, the server answers
/// without an announcement, and both sides go by the defaults.
pub proof fn defaults_need_no_announcement(es: Entries, file_len: Option<u64>, data: Seq<u8>)
    requires
        !holds_known_option(es),
    ensures
        read_opening(es, file_len) is None,
        get_settled(PacketView::Data { block: 1, data }) == Ok::<(Negotiation, bool), ErrorView>(
            (granted(es), false),
        ),
        put_settled(write_opening(es)) == Ok::<Negotiation, ErrorView>(granted(es)),
{
    valid_requests_are_granted(es);
}

/// The announcement of the size of a file in a write request reaches the
/// server, and changes no other parameter.
pub proof fn put_request_announces_size(cfg: ClientConfig, file: Seq<char>, total: u64)
    ensures
        put_request(cfg, file, total) matches PacketView::Wrq { options, .. } && granted(options)
            == (Negotiation { tsize: Some(total), ..granted(request_options(cfg)) })
            && holds_known_option(options),
{
    option_names_differ();
    request_holds_what_is_asked_for(cfg);
    let es = request_options(cfg);
    set_number_reads_back(es, TSIZE@, total as nat, u64::MAX as nat, TSIZE@);
    lookup_after_insert(es, TSIZE@, decimal(total as nat), BLKSIZE@);
    lookup_after_insert(es, TSIZE@, decimal(total as nat), TIMEOUT@);
    lookup_after_insert(es, TSIZE@, decimal(total as nat), WINDOWSIZE@);
    lookup_after_insert(es, TSIZE@, decimal(total as nat), TSIZE@);
}

/// A server that serves a file and a client that reads it, after `k` blocks:
/// each block reaches the client, and what the client acknowledges reaches the
/// server where it waits for an answer.
pub open spec fn read_exchange(
    server: Negotiation,
    cfg: ClientConfig,
    client: Negotiation,
    file: Seq<u8>,
    k: nat,
) -> (ReadView, GetProgress)
    decreases k,
{
    if k == 0 {
        (read_start(server, file.len() as u64, false), get_opened(cfg, client))
    } else {
        let (s, c) = read_exchange(server, cfg, client, file, (k - 1) as nat);
        let (sent, packet) = read_chunk(s, block_data(file, server.blksize as nat, k));
        let c2 = get_event(c, GetEvent::Arrived(packet));
        let s2 = match get_step(c.session, packet).1 {
            Ok(a) => match acknowledged(a) {
                Some(b) => if read_step(sent) is Wait {
                    read_reply(sent, PacketView::Ack { block: b }).0
                } else {
                    sent
                },
                None => sent,
            },
            Err(_) => sent,
        };
        (s2, c2)
    }
}

/// A file reaches the client whole: the client acknowledges a block exactly
/// where the server waits for that, so neither side ever waits for the other,
/// and after the last block both are done and the client has stored the file.
#[verifier::rlimit(50)]
pub proof fn read_exchange_moves_the_file(
    server: Negotiation,
    cfg: ClientConfig,
    client: Negotiation,
    file: Seq<u8>,
    k: nat,
)
    requires
        server.blksize > 0,
        client.blksize == server.blksize,
        window_len(client.windowsize) == window_len(server.windowsize),
        cfg.resume_from_block == 0,
        file.len() <= u64::MAX,
        last_block(file.len(), server.blksize as nat) < u64::MAX,
        k <= last_block(file.len(), server.blksize as nat),
    ensures
        ({
            let (s, c) = read_exchange(server, cfg, client, file, k);
            let size = server.blksize as nat;
            let last = last_block(file.len(), size);
            &&& s == read_after(server, file, k)
            &&& c.session.neg == client
            &&& c.session.resume_from_block == 0
            &&& c.session.expected_block == k + 1
            &&& c.session.blocks == k
            &&& c.session.bytes == covered(file.len(), size, k)
            &&& c.file == file.take(covered(file.len(), size, k) as int)
            &&& !c.failed
            &&& k < last ==> {
                let (sent, packet) = read_chunk(s, block_data(file, size, k + 1));
                &&& read_step(s) is Chunk
                &&& !c.complete
                &&& get_step(c.session, packet).1 matches Ok(a) && acknowledged(a) == (
                if read_step(sent) is Wait {
                    Some(wire_number((k + 1) as int))
                } else {
                    None
                })
            }
            &&& k == last ==> read_step(s) == ReadStep::Done && c.complete && c.file == file
        }),
    decreases k,
{
    let size = server.blksize as nat;
    let last = last_block(file.len(), size);
    read_sends_the_file(server, file, k);
    if k == 0 {
        assert(covered(file.len(), size, 0) == 0) by (nonlinear_arith);
        assert(file.take(0) =~= Seq::<u8>::empty());
    } else {
        read_exchange_moves_the_file(server, cfg, client, file, (k - 1) as nat);
        let (s, c) = read_exchange(server, cfg, client, file, (k - 1) as nat);
        last_block_is_short(file, size, k);
        block_joins_on(file, size, k);
        let chunk = block_data(file, size, k);
        let (sent, packet) = read_chunk(s, chunk);
        read_sends_the_file(server, file, (k - 1) as nat);
        ahead_is_nearest(k as int, wire_number(k as int), 0);
        let c2 = get_event(c, GetEvent::Arrived(packet));
        assert(c2.file == c.file + chunk);
        let before = file.take(covered(file.len(), size, (k - 1) as nat) as int);
        assert((before + chunk).len() == before.len() + chunk.len());
        if k == last {
            assert(c2.file =~= file);
        }
    }
    if k < last {
        let (s, c) = read_exchange(server, cfg, client, file, k);
        last_block_is_short(file, size, k + 1);
        senders_wait_after_windows(server.blksize, server.windowsize, file, k + 1);
        ahead_is_nearest((k + 1) as int, wire_number((k + 1) as int), 0);
    }
}

/// A read after the first `i` blocks that `s` has sent, or sent again, came.
pub open spec fn read_delivered(g: GetProgress, s: SenderView, i: nat) -> GetProgress
    decreases i,
{
    if i == 0 {
        g
    } else {
        get_event(
            read_delivered(g, s, (i - 1) as nat),
            GetEvent::Arrived(pending_packet(s, i - 1)),
        )
    }
}

/// What a block that came before does to a read.
#[verifier::spinoff_prover]
#[verifier::rlimit(50)]
proof fn lemma_old_block(c: GetSession, k: int, data: Seq<u8>)
    requires
        c.wf(),
        0 <= k < c.expected_block <= k + 65535,
        c.expected_block < u64::MAX,
    ensures
        ({
            let (t, r) = get_step(c, PacketView::Data { block: wire_number(k), data });
            &&& t.wf()
            &&& r matches Ok(GetAction::Ack { block }) && t == (GetSession {
                last_acked: block,
                retries_left: c.max_retries,
                ..c
            }) && (k == c.expected_block - 1 ==> block == wire_number(k))
        }),
{
    let e = c.expected_block as int;
    let block = wire_number(k);
    let d = k + 65536 - e;
    reads_stay_sound(c, PacketView::Data { block, data });
    assert(window_left(c) < 65535) by {
        window_room_shrinks(c.blocks as int, window_len(c.neg.windowsize) as int, 0);
    }
    assert(ahead(e, block) == d) by {
        assert(block == wire_number(k + 65536));
        ahead_is_nearest(e, block, d);
    }
    assert(1 <= d && 65536 - d <= e);
}

/// What the block that is expected does to a read.
#[verifier::spinoff_prover]
#[verifier::rlimit(50)]
proof fn lemma_expected_block(c: GetSession, data: Seq<u8>)
    requires
        c.wf(),
        c.expected_block < u64::MAX,
        c.bytes + data.len() <= u64::MAX,
    ensures
        ({
            let b = wire_number(c.expected_block as int);
            let (t, r) = get_step(c, PacketView::Data { block: b, data });
            let short = data.len() < c.neg.blksize;
            let full = (c.blocks + 1) % window_len(c.neg.windowsize) as int == 0;
            &&& t.wf()
            &&& t.neg == c.neg
            &&& t.resume_from_block == c.resume_from_block
            &&& t.expected_block == c.expected_block + 1
            &&& t.bytes == c.bytes + data.len()
            &&& r matches Ok(a) && (a is Finish <==> short) && (a is Store <==> !short)
                && acknowledged(a) == (if short || full {
                Some(b)
            } else {
                None
            })
        }),
{
    let b = wire_number(c.expected_block as int);
    reads_stay_sound(c, PacketView::Data { block: b, data });
    ahead_is_nearest(c.expected_block as int, b, 0);
}

/// Whether a read has stored exactly the first `stored` blocks of the file that
/// `s` carries.
pub open spec fn read_has(t: GetProgress, s: SenderView, file: Seq<u8>, stored: nat) -> bool {
    &&& t.session.wf()
    &&& t.session.neg.blksize == s.blksize
    &&& window_len(t.session.neg.windowsize) == s.window
    &&& t.session.resume_from_block == 0
    &&& t.session.expected_block == stored + 1
    &&& t.session.bytes == t.file.len()
    &&& t.file == file.take(covered(file.len(), s.blksize, stored) as int)
    &&& !t.failed
    &&& t.complete <==> stored == last_block(file.len(), s.blksize)
}

/// What one of the blocks does to a read that has the blocks before it.
#[verifier::rlimit(50)]
proof fn lemma_resent_block(t: GetProgress, s: SenderView, file: Seq<u8>, stored: nat, i: nat)
    requires
        carries(s, file),
        !takes_block(s),
        read_has(t, s, file, stored),
        !t.complete,
        file.len() <= u64::MAX,
        last_block(file.len(), s.blksize) < u64::MAX,
        1 <= i <= s.pending.len(),
        s.base + i - 1 <= stored <= s.base + s.pending.len(),
    ensures
        ({
            let packet = pending_packet(s, i - 1);
            let next = if stored >= s.base + i {
                stored
            } else {
                s.base + i
            };
            &&& read_has(get_event(t, GetEvent::Arrived(packet)), s, file, next)
            &&& i == s.pending.len() ==> (get_step(t.session, packet).1 matches Ok(a)
                && acknowledged(a) == Some(wire_number((s.base + i) as int)))
        }),
{
    let size = s.blksize;
    let w = s.window as int;
    let k = s.base + i;
    let data = block_data(file, size, k);
    assert(s.pending[i - 1] == data);
    window_room_shrinks(s.base as int, w, 0);
    last_block_is_short(file, size, k);
    if stored >= k {
        lemma_old_block(t.session, k as int, data);
    } else {
        block_joins_on(file, size, k);
        let front = file.take(covered(file.len(), size, (k - 1) as nat) as int);
        assert((front + data).len() == front.len() + data.len());
        lemma_expected_block(t.session, data);
        if i == s.pending.len() && !s.ended {
            window_room_shrinks(s.base as int, w, i as int);
        }
    }
}

/// Whatever was lost before: when the blocks that a server waits for an answer
/// to are sent again and come, the client has stored all of them, and its
/// answer to the last one frees them all at the server.
#[verifier::rlimit(50)]
pub proof fn resent_blocks_complete_a_read(
    g: GetProgress,
    s: SenderView,
    file: Seq<u8>,
    stored: nat,
    i: nat,
)
    requires
        carries(s, file),
        s.pending.len() > 0,
        !takes_block(s),
        read_has(g, s, file, stored),
        s.base <= stored <= s.base + s.pending.len(),
        !g.complete,
        file.len() <= u64::MAX,
        last_block(file.len(), s.blksize) < u64::MAX,
        i <= s.pending.len(),
    ensures
        read_has(
            read_delivered(g, s, i),
            s,
            file,
            if stored >= s.base + i {
                stored
            } else {
                s.base + i
            },
        ),
        i == s.pending.len() ==> ({
            let before = read_delivered(g, s, (i - 1) as nat).session;
            let b = wire_number((s.base + i) as int);
            &&& get_step(before, pending_packet(s, i - 1)).1 matches Ok(a) && acknowledged(a)
                == Some(b)
            &&& with_ack(s, b).1 == Acked::All
        }),
    decreases i,
{
    if i > 0 {
        resent_blocks_complete_a_read(g, s, file, stored, (i - 1) as nat);
        let before = read_delivered(g, s, (i - 1) as nat);
        let at = if stored >= s.base + i - 1 {
            stored
        } else {
            (s.base + i - 1) as nat
        };
        lemma_resent_block(before, s, file, at, i);
        if i == s.pending.len() {
            acknowledgements_free_blocks(s, s.base + i);
        }
    }
}

/// A client that writes a file and a server that takes it, after `k` blocks:
/// each block reaches the server, and what the server acknowledges reaches the
/// client where it waits for an answer. The flag says whether the client is
/// done.
pub open spec fn write_exchange(
    server: Negotiation,
    client: Negotiation,
    file: Seq<u8>,
    k: nat,
) -> (SenderView, bool, WriteProgress)
    decreases k,
{
    if k == 0 {
        (sender_start(client.blksize, client.windowsize), false, write_opened(server))
    } else {
        let (c, _, w) = write_exchange(server, client, file, (k - 1) as nat);
        let sent = with_block(c, block_data(file, client.blksize as nat, k));
        let packet = pending_packet(sent, c.pending.len() as int);
        let w2 = write_event(w, WriteEvent::Arrived(packet));
        match write_step(w.session, packet).1 {
            Ok(a) => match write_acknowledged(a) {
                Some(b) => if takes_block(sent) {
                    (sent, false, w2)
                } else {
                    let (c2, r) = put_reply(sent, PacketView::Ack { block: b });
                    (c2, r == Ok::<PutStep, ErrorView>(PutStep::Done), w2)
                },
                None => (sent, false, w2),
            },
            Err(_) => (sent, false, w2),
        }
    }
}

/// What the next block does where client and server are in step.
#[verifier::rlimit(50)]
proof fn lemma_next_block_is_taken(
    server: Negotiation,
    client: Negotiation,
    file: Seq<u8>,
    k: nat,
    session: WriteSession,
)
    requires
        server.blksize > 0,
        client.blksize == server.blksize,
        window_len(client.windowsize) == window_len(server.windowsize),
        k < last_block(file.len(), server.blksize as nat) < u64::MAX,
        session.neg == server,
        session.expected_block == k + 1,
    ensures
        ({
            let c = sender_after(client.blksize, client.windowsize, file, k);
            let data = block_data(file, server.blksize as nat, k + 1);
            let sent = with_block(c, data);
            let packet = pending_packet(sent, c.pending.len() as int);
            let last = k + 1 == last_block(file.len(), server.blksize as nat);
            &&& takes_block(c)
            &&& packet == (PacketView::Data { block: wire_number((k + 1) as int), data })
            &&& sent.ended == last
            &&& !takes_block(sent) ==> put_reply(
                sent,
                PacketView::Ack { block: wire_number((k + 1) as int) },
            ) == (
                sender_after(client.blksize, client.windowsize, file, k + 1),
                Ok::<PutStep, ErrorView>(
                    if last {
                        PutStep::Done
                    } else {
                        PutStep::Next
                    },
                ),
            )
            &&& takes_block(sent) ==> !last && sent == sender_after(
                client.blksize,
                client.windowsize,
                file,
                k + 1,
            )
            &&& write_step(session, packet).1 matches Ok(a) && (a is Finish <==> last) && (
            a is Store <==> !last) && write_acknowledged(a) == (if takes_block(sent) {
                None
            } else {
                Some(wire_number((k + 1) as int))
            })
        }),
{
    sender_sends_the_file(client.blksize, client.windowsize, file, k);
    last_block_is_short(file, server.blksize as nat, k + 1);
    senders_wait_after_windows(client.blksize, client.windowsize, file, k + 1);
    let c = sender_after(client.blksize, client.windowsize, file, k);
    let sent = with_block(c, block_data(file, server.blksize as nat, k + 1));
    acknowledgements_free_blocks(sent, k + 1);
}

/// A file reaches the server whole: each block that the client sends is the
/// one that the server expects, the server acknowledges a block exactly where
/// the client waits for that, and both are done with the last block.
#[verifier::rlimit(50)]
pub proof fn write_exchange_moves_the_file(
    server: Negotiation,
    client: Negotiation,
    file: Seq<u8>,
    k: nat,
)
    requires
        server.blksize > 0,
        client.blksize == server.blksize,
        window_len(client.windowsize) == window_len(server.windowsize),
        file.len() <= u64::MAX,
        last_block(file.len(), server.blksize as nat) < u64::MAX,
        k <= last_block(file.len(), server.blksize as nat),
    ensures
        ({
            let (c, done, w) = write_exchange(server, client, file, k);
            let size = server.blksize as nat;
            let last = last_block(file.len(), size);
            &&& c == sender_after(client.blksize, client.windowsize, file, k)
            &&& w.session.neg == server
            &&& w.session.expected_block == k + 1
            &&& w.session.received == covered(file.len(), size, k)
            &&& w.file == file.take(covered(file.len(), size, k) as int)
            &&& !w.failed
            &&& k < last ==> {
                let sent = with_block(c, block_data(file, size, k + 1));
                let packet = pending_packet(sent, c.pending.len() as int);
                &&& takes_block(c)
                &&& !done
                &&& !w.complete
                &&& write_step(w.session, packet).1 matches Ok(a) && write_acknowledged(a) == (
                if takes_block(sent) {
                    None
                } else {
                    Some(wire_number((k + 1) as int))
                })
            }
            &&& k == last ==> done && w.complete && w.file == file
        }),
    decreases k,
{
    let size = server.blksize as nat;
    let last = last_block(file.len(), size);
    if k == 0 {
        assert(covered(file.len(), size, 0) == 0) by (nonlinear_arith);
        assert(file.take(0) =~= Seq::<u8>::empty());
    } else {
        write_exchange_moves_the_file(server, client, file, (k - 1) as nat);
        let (c, _, w) = write_exchange(server, client, file, (k - 1) as nat);
        lemma_next_block_is_taken(server, client, file, (k - 1) as nat, w.session);
        block_joins_on(file, size, k);
        last_block_is_short(file, size, k);
        let chunk = block_data(file, size, k);
        let before = file.take(covered(file.len(), size, (k - 1) as nat) as int);
        assert((before + chunk).len() == before.len() + chunk.len());
        assert(k == last ==> file.take(file.len() as int) =~= file);
    }
    if k < last {
        let w = write_exchange(server, client, file, k).2;
        lemma_next_block_is_taken(server, client, file, k, w.session);
    }
}

/// A write after the first `i` blocks that `s` has sent, or sent again, came.
pub open spec fn write_delivered(w: WriteProgress, s: SenderView, i: nat) -> WriteProgress
    decreases i,
{
    if i == 0 {
        w
    } else {
        write_event(
            write_delivered(w, s, (i - 1) as nat),
            WriteEvent::Arrived(pending_packet(s, i - 1)),
        )
    }
}

/// Whether a write has stored exactly the first `stored` blocks of the file
/// that `s` carries.
pub open spec fn write_has(t: WriteProgress, s: SenderView, file: Seq<u8>, stored: nat) -> bool {
    &&& t.session.wf()
    &&& t.session.neg.blksize == s.blksize
    &&& window_len(t.session.neg.windowsize) == s.window
    &&& t.session.expected_block == stored + 1
    &&& t.session.received == t.file.len()
    &&& t.file == file.take(covered(file.len(), s.blksize, stored) as int)
    &&& !t.failed
    &&& t.complete <==> stored == last_block(file.len(), s.blksize)
}

/// Whatever was lost before: when the blocks that a client waits for an answer
/// to are sent again and come, the server has stored all of them, and its
/// answer to the last one frees them all at the client.
#[verifier::rlimit(50)]
pub proof fn resent_blocks_complete_a_write(
    w: WriteProgress,
    s: SenderView,
    file: Seq<u8>,
    stored: nat,
    i: nat,
)
    requires
        carries(s, file),
        s.pending.len() > 0,
        !takes_block(s),
        write_has(w, s, file, stored),
        s.base <= stored <= s.base + s.pending.len(),
        !w.complete,
        file.len() <= u64::MAX,
        last_block(file.len(), s.blksize) < u64::MAX,
        i <= s.pending.len(),
    ensures
        write_has(
            write_delivered(w, s, i),
            s,
            file,
            if stored >= s.base + i {
                stored
            } else {
                s.base + i
            },
        ),
        i == s.pending.len() ==> ({
            let before = write_delivered(w, s, (i - 1) as nat).session;
            let b = wire_number((s.base + i) as int);
            &&& write_step(before, pending_packet(s, i - 1)).1 matches Ok(a)
                && write_acknowledged(a) == Some(b)
            &&& put_reply(s, PacketView::Ack { block: b }).1 == Ok::<PutStep, ErrorView>(
                if s.ended {
                    PutStep::Done
                } else {
                    PutStep::Next
                },
            )
        }),
    decreases i,
{
    let size = s.blksize;
    window_room_shrinks(s.base as int, s.window as int, 0);
    if i > 0 {
        let k = s.base + i;
        resent_blocks_complete_a_write(w, s, file, stored, (i - 1) as nat);
        let before = write_delivered(w, s, (i - 1) as nat);
        let data = block_data(file, size, k);
        assert(s.pending[i - 1] == data);
        last_block_is_short(file, size, k);
        if stored >= k {
            near_numbers_differ(k as int, before.session.expected_block as int);
        } else {
            block_joins_on(file, size, k);
            let front = file.take(covered(file.len(), size, (k - 1) as nat) as int);
            assert((front + data).len() == front.len() + data.len());
            if i == s.pending.len() && !s.ended {
                window_room_shrinks(s.base as int, s.window as int, i as int);
            }
        }
        if i == s.pending.len() {
            acknowledgements_free_blocks(s, k);
        }
    }
}

proof fn lemma_blocks_can_be_counted(n: Negotiation, len: nat)
    requires
        in_range(n),
        len <= u64::MAX,
    ensures
        last_block(len, n.blksize as nat) < u64::MAX,
{
    vstd::arithmetic::div_mod::lemma_div_is_ordered_by_denominator(
        len as int,
        8,
        n.blksize as int,
    );
}

/// A client that asks a server for a file gets it: the two settle on
/// parameters, the client's acknowledgement of the server's announcement opens
/// the transfer, and when the blocks of the file have gone over, both are done
/// and the client has stored the file.
pub proof fn get_brings_the_file(cfg: ClientConfig, file: Seq<u8>)
    requires
        cfg.resume_from_block == 0,
        file.len() <= u64::MAX,
    ensures
        ({
            let n = granted(request_options(cfg));
            let len = file.len() as u64;
            let last = last_block(file.len(), n.blksize as nat);
            &&& read_opening(request_options(cfg), Some(len)) matches Some(reply) && get_settled(
                reply,
            ) == Ok::<(Negotiation, bool), ErrorView>((n, true))
            &&& read_reply(read_start(n, len, true), PacketView::Ack { block: 0 }).0 == read_start(
                n,
                len,
                false,
            )
            &&& ({
                let (s, g) = read_exchange(n, cfg, n, file, last);
                read_step(s) == ReadStep::Done && g.complete && g.file == file
            })
        }),
{
    let n = granted(request_options(cfg));
    request_holds_what_is_asked_for(cfg);
    negotiation_agrees(cfg, None);
    lemma_blocks_can_be_counted(n, file.len());
    read_exchange_moves_the_file(n, cfg, n, file, last_block(file.len(), n.blksize as nat));
}

/// A client that offers a server a file delivers it: the two settle on
/// parameters, and when the blocks of the file have gone over, both are done
/// and the server has stored the file.
pub proof fn put_delivers_the_file(cfg: ClientConfig, name: Seq<char>, file: Seq<u8>)
    requires
        file.len() <= u64::MAX,
    ensures
        put_request(cfg, name, file.len() as u64) matches PacketView::Wrq { options, .. } && ({
            let n = granted(options);
            let c = Negotiation { tsize: None, ..n };
            let last = last_block(file.len(), n.blksize as nat);
            &&& put_settled(write_opening(options)) == Ok::<Negotiation, ErrorView>(c)
            &&& ({
                let (_, done, w) = write_exchange(n, c, file, last);
                done && w.complete && w.file == file
            })
        }),
{
    let total = file.len() as u64;
    put_request_announces_size(cfg, name, total);
    negotiation_agrees(cfg, None);
    let base = granted(request_options(cfg));
    let n = Negotiation { tsize: Some(total), ..base };
    assert(announced(n, None) == announced(base, None));
    lemma_blocks_can_be_counted(base, file.len());
    write_exchange_moves_the_file(
        n,
        Negotiation { tsize: None, ..n },
        file,
        last_block(file.len(), n.blksize as nat),
    );
}

} // verus!
