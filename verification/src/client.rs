//! The client: requests, negotiation, and the state machines of the two kinds
//! of transfer.
//!
//! A caller sends what the state machines ask for and hands them what comes
//! back. [`GetSession`] reads a file, [`PutSession`] writes one.

use crate::blocks::{
    ahead, ahead_is_nearest, block_data, block_joins_on, blocks_ahead, blocks_per_window, covered,
    expected_number_is_expected_block, is_block, is_near_block, last_block, last_block_is_short,
    number_on_wire, short_block_is_last, window_len, window_room, window_room_shrinks, wire_number,
};
use crate::error::{ErrorView, TftpError};
use crate::options::{
    default_negotiation, insert_entry, oack_applied, Entries, Negotiation, Options, BLKSIZE,
    TIMEOUT, TSIZE, WINDOWSIZE,
};
use crate::packet::{packet_text, Packet, PacketView};
use crate::sender::{
    carries, pending_packet, pending_packets, sender_ok, sender_start, senders_carry_the_file,
    takes_block, with_ack, with_block, Acked, Sender, SenderView,
};
use crate::session::{ClientConfig, TransferStats};
use crate::text::decimal;
use crate::transfer::{
    parse_target, payload_len, retryable, target_parts, wait_at, wait_secs, waits_double,
};
use crate::wire::as_slice;
use crate::Mode;
use vstd::prelude::*;
use vstd::string::*;

verus! {

/// How far a transfer has come. `total_bytes` is the size of the file where it
/// is known.
#[derive(Debug, Clone, Copy, PartialEq, Eq, Structural)]
pub struct Progress {
    pub bytes: u64,
    pub blocks: u64,
    pub total_bytes: Option<u64>,
}

/// A client: what it asks for, and whether it prefers version 6 addresses.
#[derive(Debug, Clone, Copy, PartialEq, Eq, Structural)]
pub struct Client {
    pub cfg: ClientConfig,
    pub prefer_v6: bool,
}

/// The options that every request of a client carries.
pub open spec fn request_options(cfg: ClientConfig) -> Entries {
    insert_entry(
        insert_entry(
            insert_entry(Entries::empty(), BLKSIZE@, decimal(cfg.blksize as nat)),
            TIMEOUT@,
            decimal(cfg.timeout_secs as nat),
        ),
        WINDOWSIZE@,
        decimal(cfg.windowsize as nat),
    )
}

/// The request to read `file`.
pub open spec fn get_request(cfg: ClientConfig, file: Seq<char>) -> PacketView {
    PacketView::Rrq { filename: file, mode: "octet"@, options: request_options(cfg) }
}

/// The request to write `file` with `total` bytes.
pub open spec fn put_request(cfg: ClientConfig, file: Seq<char>, total: u64) -> PacketView {
    PacketView::Wrq {
        filename: file,
        mode: "octet"@,
        options: insert_entry(request_options(cfg), TSIZE@, decimal(total as nat)),
    }
}

/// The parameters that a client asks for, as a server reads them.
pub open spec fn asked_for(cfg: ClientConfig) -> Negotiation {
    Negotiation {
        blksize: cfg.blksize,
        timeout: cfg.timeout_secs,
        windowsize: cfg.windowsize,
        tsize: None,
    }
}

/// What the answer to a read request settles: the parameters, and whether the
/// answer is to be acknowledged as block 0. Only what the server rules on
/// changes a default. An answer that is not to be acknowledged is the first
/// block of the file.
pub open spec fn get_settled(reply: PacketView) -> Result<(Negotiation, bool), ErrorView> {
    match reply {
        PacketView::Oack { options } => Ok((oack_applied(default_negotiation(), options), true)),
        PacketView::Data { block: 1, .. } => Ok((default_negotiation(), false)),
        PacketView::Error { code, message } => Err(ErrorView::Remote { code, message }),
        other => Err(ErrorView::Protocol("unexpected reply: "@ + packet_text(other))),
    }
}

/// What the answer to a write request settles. Only what the server rules on
/// changes a default.
pub open spec fn put_settled(reply: PacketView) -> Result<Negotiation, ErrorView> {
    match reply {
        PacketView::Oack { options } => Ok(oack_applied(default_negotiation(), options)),
        PacketView::Ack { block: 0 } => Ok(default_negotiation()),
        PacketView::Error { code, message } => Err(ErrorView::Remote { code, message }),
        other => Err(ErrorView::Protocol("unexpected reply: "@ + packet_text(other))),
    }
}

/// The failure that an ERROR packet or an unexpected one means.
fn refusal(context: &str, p: &Packet) -> (e: TftpError)
    ensures
        e@ == (match p@ {
            PacketView::Error { code, message } => ErrorView::Remote { code, message },
            other => ErrorView::Protocol(context@ + packet_text(other)),
        }),
{
    match p {
        Packet::Error { code, message } => TftpError::Remote {
            code: *code,
            message: message.clone(),
        },
        other => TftpError::Protocol(context.to_owned().concat(other.describe().as_str())),
    }
}

impl Client {
    /// A client that asks for `cfg` and prefers version 4 addresses.
    pub fn new(cfg: ClientConfig) -> (c: Self)
        ensures
            c == (Client { cfg, prefer_v6: false }),
    {
        Self { cfg, prefer_v6: false }
    }

    /// The client with the given preference for version 6 addresses.
    pub fn prefer_ipv6(self, v: bool) -> (c: Self)
        ensures
            c == (Client { prefer_v6: v, ..self }),
    {
        Self { cfg: self.cfg, prefer_v6: v }
    }

    /// What the client asks for.
    pub fn config(&self) -> (cfg: &ClientConfig)
        ensures
            *cfg == self.cfg,
    {
        &self.cfg
    }

    /// The options that every request carries.
    fn options(&self) -> (o: Options)
        ensures
            o@ == request_options(self.cfg),
    {
        let mut o = Options::new();
        o.set_blksize(self.cfg.blksize);
        o.set_timeout(self.cfg.timeout_secs);
        o.set_windowsize(self.cfg.windowsize);
        o
    }

    /// Opens the reading of a target: the host to send to, and the request to
    /// send.
    pub fn get(&self, target: &str) -> (r: Result<(String, Packet), TftpError>)
        ensures
            match (r, target_parts(target@)) {
                (Ok((host, rrq)), Ok((h, file))) => host@ == h && rrq@ == get_request(
                    self.cfg,
                    file,
                ),
                (Err(e), Err(x)) => e@ == x,
                _ => false,
            },
    {
        match parse_target(target) {
            Err(e) => Err(e),
            Ok((host, file)) => Ok(
                (
                    host,
                    Packet::Rrq {
                        filename: file,
                        mode: Mode::Octet.as_str().to_owned(),
                        options: self.options(),
                    },
                ),
            ),
        }
    }

    /// Opens the writing of `total_bytes` bytes to a target: the host to send
    /// to, and the request to send.
    pub fn put(&self, target: &str, total_bytes: u64) -> (r: Result<(String, Packet), TftpError>)
        ensures
            match (r, target_parts(target@)) {
                (Ok((host, wrq)), Ok((h, file))) => host@ == h && wrq@ == put_request(
                    self.cfg,
                    file,
                    total_bytes,
                ),
                (Err(e), Err(x)) => e@ == x,
                _ => false,
            },
    {
        match parse_target(target) {
            Err(e) => Err(e),
            Ok((host, file)) => {
                let mut options = self.options();
                options.set_tsize(total_bytes);
                Ok(
                    (
                        host,
                        Packet::Wrq {
                            filename: file,
                            mode: Mode::Octet.as_str().to_owned(),
                            options,
                        },
                    ),
                )
            },
        }
    }

    /// Takes the answer to a read request: the parameters of the transfer,
    /// and whether the answer is to be acknowledged as block 0. One that is not
    /// is the first block, and goes to the session.
    pub fn negotiate_get(&self, reply: &Packet) -> (r: Result<(Negotiation, bool), TftpError>)
        ensures
            match r {
                Ok(x) => get_settled(reply@) == Ok::<(Negotiation, bool), ErrorView>(x),
                Err(e) => get_settled(reply@) == Err::<(Negotiation, bool), ErrorView>(e@),
            },
    {
        match reply {
            Packet::Oack { options } => Ok((Negotiation::defaults().apply_oack(options), true)),
            Packet::Data { block, .. } if *block == 1 => Ok((Negotiation::defaults(), false)),
            other => Err(refusal("unexpected reply: ", other)),
        }
    }

    /// Takes the answer to a write request: the parameters of the transfer.
    pub fn negotiate_put(&self, reply: &Packet) -> (r: Result<Negotiation, TftpError>)
        ensures
            match r {
                Ok(n) => put_settled(reply@) == Ok::<Negotiation, ErrorView>(n),
                Err(e) => put_settled(reply@) == Err::<Negotiation, ErrorView>(e@),
            },
    {
        match reply {
            Packet::Oack { options } => Ok(Negotiation::defaults().apply_oack(options)),
            Packet::Ack { block } if *block == 0 => Ok(Negotiation::defaults()),
            other => Err(refusal("unexpected reply: ", other)),
        }
    }
}

/// The reading of a file. `expected_block` is the number of the block that
/// comes next, `last_acked` that of the block to acknowledge again when
/// nothing comes, `retries_left` how many more times that may happen in a row.
#[derive(Debug, Clone, Copy, PartialEq, Eq, Structural)]
pub struct GetSession {
    pub neg: Negotiation,
    pub resume_from_block: u64,
    pub expected_block: u64,
    pub last_acked: u16,
    pub max_retries: u32,
    pub retries_left: u32,
    pub bytes: u64,
    pub blocks: u64,
}

/// What to do about a packet that arrived during a read.
#[derive(Debug, Clone, Copy, PartialEq, Eq, Structural)]
pub enum GetAction {
    /// Acknowledge the block; nothing new came.
    Ack { block: u16 },
    /// Append the data to the file, then acknowledge the block if there is one
    /// to acknowledge.
    Store { ack: Option<u16> },
    /// Append the data to the file and acknowledge the block; the file is
    /// complete.
    Finish { ack: u16 },
}

/// The start of a read with the negotiated parameters.
pub open spec fn get_start(cfg: ClientConfig, neg: Negotiation) -> GetSession {
    let max_retries = if cfg.retries > 1 {
        cfg.retries
    } else {
        1
    };
    GetSession {
        neg,
        resume_from_block: cfg.resume_from_block,
        expected_block: (cfg.resume_from_block + 1) as u64,
        last_acked: (cfg.resume_from_block % 65536) as u16,
        max_retries,
        retries_left: max_retries,
        bytes: 0,
        blocks: 0,
    }
}

/// Whether a window is complete after `blocks` blocks.
pub open spec fn window_complete(windowsize: u16, blocks: u64) -> bool {
    windowsize <= 1 || blocks % (windowsize as u64) == 0
}

/// How many blocks after the expected one can be on their way: those of the
/// same window.
pub open spec fn window_left(s: GetSession) -> int {
    window_room(s.blocks as int, window_len(s.neg.windowsize) as int) - 1
}

/// What a packet does to a read. The expected block is stored, and acknowledged
/// where it completes a window or the file. One that comes too early is
/// answered with the last block that was stored: one that can be on its way
/// with the window, and one that cannot have come before. Any other came
/// before and is acknowledged again, and so is an OACK that is sent again
/// before the first block came.
pub open spec fn get_step(s: GetSession, p: PacketView) -> (
    GetSession,
    Result<GetAction, ErrorView>,
) {
    let s = GetSession { retries_left: s.max_retries, ..s };
    match p {
        PacketView::Error { code, message } => (s, Err(ErrorView::Remote { code, message })),
        PacketView::Data { block, data } => {
            let d = ahead(s.expected_block as int, block);
            if d == 0 {
                let t = GetSession {
                    bytes: (s.bytes + data.len()) as u64,
                    blocks: (s.blocks + 1) as u64,
                    expected_block: (s.expected_block + 1) as u64,
                    last_acked: block,
                    ..s
                };
                if data.len() < s.neg.blksize {
                    (t, Ok(GetAction::Finish { ack: block }))
                } else if window_complete(s.neg.windowsize, t.blocks) {
                    (t, Ok(GetAction::Store { ack: Some(block) }))
                } else {
                    (t, Ok(GetAction::Store { ack: None }))
                }
            } else if d <= window_left(s) || 65536 - d > s.expected_block {
                let prev = wire_number(s.expected_block - 1);
                (GetSession { last_acked: prev, ..s }, Ok(GetAction::Ack { block: prev }))
            } else {
                (GetSession { last_acked: block, ..s }, Ok(GetAction::Ack { block }))
            }
        },
        other => if other is Oack && s.blocks == 0 {
            (s, Ok(GetAction::Ack { block: s.last_acked }))
        } else {
            (
                s,
                Err(ErrorView::Protocol("unexpected packet during DATA: "@ + packet_text(other))),
            )
        },
    }
}

/// What a failure to receive does to a read: the last block is to be
/// acknowledged again, as long as retries are left.
pub open spec fn get_silence(s: GetSession) -> (GetSession, Result<u16, ErrorView>) {
    if s.retries_left == 0 {
        (s, Err(ErrorView::Timeout { retries: s.max_retries }))
    } else {
        (GetSession { retries_left: (s.retries_left - 1) as u32, ..s }, Ok(s.last_acked))
    }
}

/// How long a read waits for the next packet: twice as long each time that
/// nothing usable arrived, and the negotiated time again once something did.
pub open spec fn get_wait(s: GetSession) -> int {
    wait_at(s.neg.timeout, (s.max_retries - s.retries_left) as u32)
}

impl GetSession {
    /// The bookkeeping of a read.
    pub open spec fn wf(self) -> bool {
        &&& self.expected_block == self.resume_from_block + 1 + self.blocks
        &&& ahead(self.expected_block as int, self.last_acked) > window_left(self)
        &&& 1 <= self.max_retries
        &&& self.retries_left <= self.max_retries
    }

    /// Starts a read with the negotiated parameters.
    pub fn new(cfg: &ClientConfig, neg: Negotiation) -> (s: Self)
        requires
            cfg.resume_from_block < u64::MAX,
        ensures
            s == get_start(*cfg, neg),
            s.wf(),
    {
        let max_retries: u32 = if cfg.retries > 1 {
            cfg.retries
        } else {
            1
        };
        proof {
            lemma_previous_is_not_ahead(cfg.resume_from_block + 1);
            window_room_shrinks(0, window_len(neg.windowsize) as int, 0);
        }
        Self {
            neg,
            resume_from_block: cfg.resume_from_block,
            expected_block: cfg.resume_from_block + 1,
            last_acked: (cfg.resume_from_block % 65536) as u16,
            max_retries,
            retries_left: max_retries,
            bytes: 0,
            blocks: 0,
        }
    }

    /// Where in the file the first block goes.
    pub fn offset(&self) -> (n: u64)
        requires
            self.resume_from_block * self.neg.blksize <= u64::MAX,
        ensures
            n == self.resume_from_block * self.neg.blksize,
    {
        self.resume_from_block * (self.neg.blksize as u64)
    }

    /// Takes a packet that arrived.
    pub fn on_packet(&mut self, p: &Packet) -> (r: Result<GetAction, TftpError>)
        requires
            old(self).wf(),
            old(self).expected_block < u64::MAX,
            old(self).bytes + payload_len(p@) <= u64::MAX,
        ensures
            final(self).wf(),
            *final(self) == get_step(*old(self), p@).0,
            match r {
                Ok(a) => get_step(*old(self), p@).1 == Ok::<GetAction, ErrorView>(a),
                Err(e) => get_step(*old(self), p@).1 == Err::<GetAction, ErrorView>(e@),
            },
    {
        self.retries_left = self.max_retries;
        match p {
            Packet::Data { block, data } => {
                let block: u16 = *block;
                let len: usize = as_slice(data).len();
                let d: u64 = blocks_ahead(self.expected_block, block);
                let window: u64 = blocks_per_window(self.neg.windowsize);
                let left: u64 = window - self.blocks % window - 1;
                proof {
                    lemma_previous_is_not_ahead(self.expected_block as int);
                    lemma_previous_is_not_ahead(self.expected_block + 1);
                    ahead_is_nearest(self.expected_block as int, block, 0);
                    window_room_shrinks(self.blocks as int, window as int, 0);
                    window_room_shrinks(self.blocks + 1, window as int, 0);
                }
                if d == 0 {
                    self.bytes = self.bytes + len as u64;
                    self.blocks = self.blocks + 1;
                    self.expected_block = self.expected_block + 1;
                    self.last_acked = block;
                    if len < self.neg.blksize as usize {
                        return Ok(GetAction::Finish { ack: block });
                    }
                    if self.neg.windowsize <= 1 || self.blocks % (self.neg.windowsize as u64) == 0 {
                        return Ok(GetAction::Store { ack: Some(block) });
                    }
                    return Ok(GetAction::Store { ack: None });
                }
                if d <= left || 65536 - d > self.expected_block {
                    let prev: u16 = number_on_wire(self.expected_block - 1);
                    self.last_acked = prev;
                    return Ok(GetAction::Ack { block: prev });
                }
                self.last_acked = block;
                Ok(GetAction::Ack { block })
            },
            Packet::Oack { .. } => {
                if self.blocks == 0 {
                    return Ok(GetAction::Ack { block: self.last_acked });
                }
                Err(refusal("unexpected packet during DATA: ", p))
            },
            other => Err(refusal("unexpected packet during DATA: ", other)),
        }
    }

    /// How long to wait for the next packet, in seconds.
    pub fn wait(&self) -> (secs: u64)
        requires
            self.wf(),
        ensures
            secs == get_wait(*self),
    {
        wait_secs(self.neg.timeout, self.max_retries - self.retries_left)
    }

    /// Takes note that nothing usable arrived: the block to acknowledge again,
    /// or a timeout where no retry is left.
    pub fn on_silence(&mut self) -> (r: Result<u16, TftpError>)
        requires
            old(self).wf(),
        ensures
            final(self).wf(),
            *final(self) == get_silence(*old(self)).0,
            match r {
                Ok(b) => get_silence(*old(self)).1 == Ok::<u16, ErrorView>(b),
                Err(e) => get_silence(*old(self)).1 == Err::<u16, ErrorView>(e@),
            },
    {
        if self.retries_left == 0 {
            return Err(TftpError::Timeout { retries: self.max_retries });
        }
        self.retries_left = self.retries_left - 1;
        Ok(self.last_acked)
    }

    /// The account of the read so far.
    pub fn stats(&self) -> (s: TransferStats)
        ensures
            s == (TransferStats {
                bytes: self.bytes,
                blocks: self.blocks,
                total_bytes: None,
                duration_ms: 0,
            }),
    {
        TransferStats { bytes: self.bytes, blocks: self.blocks, total_bytes: None, duration_ms: 0 }
    }

    /// How far the read has come.
    pub fn progress(&self) -> (p: Progress)
        ensures
            p == (Progress {
                bytes: self.bytes,
                blocks: self.blocks,
                total_bytes: self.neg.tsize,
            }),
    {
        Progress { bytes: self.bytes, blocks: self.blocks, total_bytes: self.neg.tsize }
    }
}

/// The block that an action acknowledges, if it does.
pub open spec fn acknowledged(a: GetAction) -> Option<u16> {
    match a {
        GetAction::Ack { block } => Some(block),
        GetAction::Store { ack } => ack,
        GetAction::Finish { ack } => Some(ack),
    }
}

proof fn lemma_previous_is_not_ahead(e: int)
    requires
        e >= 1,
    ensures
        ahead(e, wire_number(e - 1)) == 65535,
{
}

/// Every packet, and every silence, leaves the bookkeeping of a read sound.
pub proof fn reads_stay_sound(s: GetSession, p: PacketView)
    requires
        s.wf(),
        s.expected_block < u64::MAX,
    ensures
        get_step(s, p).0.wf(),
        get_silence(s).0.wf(),
{
    let w = window_len(s.neg.windowsize) as int;
    lemma_previous_is_not_ahead(s.expected_block as int);
    lemma_previous_is_not_ahead(s.expected_block + 1);
    window_room_shrinks(s.blocks as int, w, 0);
    window_room_shrinks(s.blocks + 1, w, 0);
    if let PacketView::Data { block, .. } = p {
        ahead_is_nearest(s.expected_block as int, block, 0);
    }
}

/// No acknowledgement of a read is taken for a block that the read has not
/// stored: a sender in the same window, which has had `base` blocks
/// acknowledged and has sent `sent`, takes it for one before the next expected
/// block, if for any.
pub proof fn acknowledgements_are_not_mistaken(
    s: GetSession,
    p: PacketView,
    base: int,
    sent: int,
    a: int,
)
    requires
        s.wf(),
        s.expected_block < u64::MAX,
        ({
            let t = get_step(s, p).0;
            0 <= base < t.expected_block && sent <= t.expected_block + window_left(t)
        }),
        base <= a <= sent,
    ensures
        get_step(s, p).1 matches Ok(x) ==> acknowledged(x) matches Some(b) ==> wire_number(a) == b
            ==> a < get_step(s, p).0.expected_block,
        ({
            let t = get_step(s, p).0;
            get_silence(t).1 matches Ok(b) ==> wire_number(a) == b ==> a < t.expected_block
        }),
{
    reads_stay_sound(s, p);
    let t = get_step(s, p).0;
    window_room_shrinks(t.blocks as int, window_len(t.neg.windowsize) as int, 0);
    if a >= t.expected_block {
        ahead_is_nearest(t.expected_block as int, t.last_acked, a - t.expected_block);
    }
}

/// A read after nothing usable arrived `k` times in a row, as long as it has
/// not failed.
pub open spec fn get_silences(s: GetSession, k: nat) -> GetSession
    decreases k,
{
    if k == 0 {
        s
    } else {
        get_silence(get_silences(s, (k - 1) as nat)).0
    }
}

/// A read bears as many silences in a row as it has retries left, each time
/// acknowledging the same block again; the next one ends it with a timeout.
pub proof fn silences_use_up_retries(s: GetSession, k: nat)
    requires
        k <= s.retries_left,
    ensures
        get_silences(s, k) == (GetSession { retries_left: (s.retries_left - k) as u32, ..s }),
        k < s.retries_left ==> get_silence(get_silences(s, k)).1 == Ok::<u16, ErrorView>(
            s.last_acked,
        ),
        k == s.retries_left ==> get_silence(get_silences(s, k)).1 == Err::<u16, ErrorView>(
            ErrorView::Timeout { retries: s.max_retries },
        ),
    decreases k,
{
    if k > 0 {
        silences_use_up_retries(s, (k - 1) as nat);
    }
}

/// The waits of a read double while nothing comes, up to 64 times the
/// negotiated time, which holds at the start and again after every packet.
pub proof fn silences_double_the_wait(cfg: ClientConfig, s: GetSession, p: PacketView, k: nat)
    requires
        s.wf(),
        s.retries_left == s.max_retries,
        k <= s.max_retries,
    ensures
        get_wait(get_start(cfg, s.neg)) == s.neg.timeout,
        get_wait(get_step(s, p).0) == s.neg.timeout,
        get_wait(get_silences(s, k)) == wait_at(s.neg.timeout, k as u32),
        k < s.max_retries ==> get_wait(get_silences(s, k + 1)) == (if k < 6 {
            2 * get_wait(get_silences(s, k))
        } else {
            64 * s.neg.timeout
        }),
{
    silences_use_up_retries(s, k);
    waits_double(s.neg.timeout, k as u32);
    if k < s.max_retries {
        silences_use_up_retries(s, k + 1);
        waits_double(s.neg.timeout, (k + 1) as u32);
    }
}

/// A block that comes again after it was stored is acknowledged again and not
/// stored again, so an acknowledgement that was lost is made good. A block of
/// the same window that comes too early is answered with the last one that was
/// stored.
pub proof fn repeated_blocks_are_acknowledged_again(s: GetSession, k: int, data: Seq<u8>)
    requires
        s.wf(),
        0 <= k,
        s.expected_block - 65536 + window_left(s) < k <= s.expected_block + window_left(s),
        k != s.expected_block,
    ensures
        ({
            let (t, r) = get_step(s, PacketView::Data { block: wire_number(k), data });
            &&& k < s.expected_block ==> r == Ok::<GetAction, ErrorView>(
                GetAction::Ack { block: wire_number(k) },
            )
            &&& k > s.expected_block ==> r == Ok::<GetAction, ErrorView>(
                GetAction::Ack { block: wire_number(s.expected_block - 1) },
            )
            &&& t.expected_block == s.expected_block
            &&& t.bytes == s.bytes
        }),
{
    let e = s.expected_block as int;
    window_room_shrinks(s.blocks as int, window_len(s.neg.windowsize) as int, 0);
    if k > e {
        ahead_is_nearest(e, wire_number(k), k - e);
    } else {
        assert(wire_number(k) == wire_number(k + 65536));
        ahead_is_nearest(e, wire_number(k), k + 65536 - e);
    }
}

/// An OACK that is sent again before the first block came is acknowledged
/// again, so an acknowledgement of it that was lost is made good.
pub proof fn repeated_announcements_are_acknowledged_again(
    cfg: ClientConfig,
    neg: Negotiation,
    options: Entries,
)
    requires
        cfg.resume_from_block == 0,
    ensures
        get_step(get_start(cfg, neg), PacketView::Oack { options }) == (
            get_start(cfg, neg),
            Ok::<GetAction, ErrorView>(GetAction::Ack { block: 0 }),
        ),
{
}

/// The block that a read waits for is stored whenever it comes.
pub proof fn expected_blocks_are_stored(s: GetSession, data: Seq<u8>)
    requires
        s.wf(),
        s.expected_block < u64::MAX,
        s.bytes + data.len() <= u64::MAX,
    ensures
        ({
            let b = wire_number(s.expected_block as int);
            let (t, r) = get_step(s, PacketView::Data { block: b, data });
            &&& r matches Ok(a) && (a is Store || a is Finish)
            &&& r == Ok::<GetAction, ErrorView>(GetAction::Finish { ack: b }) <==> data.len()
                < s.neg.blksize
            &&& t.expected_block == s.expected_block + 1
            &&& t.bytes == s.bytes + data.len()
        }),
{
    ahead_is_nearest(s.expected_block as int, wire_number(s.expected_block as int), 0);
}

/// Something that happens during a read.
pub enum GetEvent {
    Arrived(PacketView),
    Silence,
}

/// A read under way: its state, the file so far, and whether it has ended.
pub struct GetProgress {
    pub session: GetSession,
    pub file: Seq<u8>,
    pub complete: bool,
    pub failed: bool,
}

/// The read after one more event. Once it has ended, nothing changes it.
pub open spec fn get_event(g: GetProgress, e: GetEvent) -> GetProgress {
    if g.complete || g.failed {
        g
    } else {
        match e {
            GetEvent::Silence => {
                let (t, r) = get_silence(g.session);
                GetProgress { session: t, failed: r is Err, ..g }
            },
            GetEvent::Arrived(p) => {
                let (t, r) = get_step(g.session, p);
                match (r, p) {
                    (Err(_), _) => GetProgress { session: t, failed: true, ..g },
                    (Ok(GetAction::Store { .. }), PacketView::Data { data, .. }) => GetProgress {
                        session: t,
                        file: g.file + data,
                        ..g
                    },
                    (Ok(GetAction::Finish { .. }), PacketView::Data { data, .. }) => GetProgress {
                        session: t,
                        file: g.file + data,
                        complete: true,
                        ..g
                    },
                    (Ok(_), _) => GetProgress { session: t, ..g },
                }
            },
        }
    }
}

/// The read after events, one after the other.
pub open spec fn get_events(g: GetProgress, events: Seq<GetEvent>) -> GetProgress
    decreases events.len(),
{
    if events.len() == 0 {
        g
    } else {
        get_event(get_events(g, events.drop_last()), events.last())
    }
}

/// Whether an event fits a server that serves `file` in blocks of `size` bytes
/// to a read that expects block number `expected`: a DATA packet carries a
/// block of the file that is fewer than 65536 blocks away, under its number.
/// Otherwise the packets may come in any order, any number of times, or not at
/// all.
pub open spec fn fits_file(file: Seq<u8>, size: nat, expected: int, e: GetEvent) -> bool {
    match e {
        GetEvent::Arrived(PacketView::Data { block, data }) => is_near_block(
            file,
            size,
            expected,
            block,
            data,
        ),
        _ => true,
    }
}

/// Whether events, one after the other, fit a server that serves `file`.
pub open spec fn events_fit(g: GetProgress, file: Seq<u8>, events: Seq<GetEvent>) -> bool
    decreases events.len(),
{
    if events.len() == 0 {
        true
    } else {
        let front = events.drop_last();
        events_fit(g, file, front) && fits_file(
            file,
            g.session.neg.blksize as nat,
            get_events(g, front).session.expected_block as int,
            events.last(),
        )
    }
}

/// What holds of a read at all times.
spec fn get_sound(g: GetProgress, file: Seq<u8>) -> bool {
    let size = g.session.neg.blksize as nat;
    let from = g.session.resume_from_block as nat;
    let to = (g.session.expected_block - 1) as nat;
    &&& g.session.wf()
    &&& from * size <= file.len()
    &&& covered(file.len(), size, from) <= covered(file.len(), size, to) <= file.len()
    &&& g.file == file.subrange(
        covered(file.len(), size, from) as int,
        covered(file.len(), size, to) as int,
    )
    &&& !g.complete ==> to * size <= file.len()
    &&& g.complete ==> covered(file.len(), size, to) == file.len() && to == last_block(
        file.len(),
        size,
    )
    &&& g.session.bytes == g.file.len()
}

#[verifier::rlimit(50)]
proof fn lemma_get_event_sound(g: GetProgress, file: Seq<u8>, e: GetEvent)
    requires
        get_sound(g, file),
        g.session.neg.blksize > 0,
        file.len() <= u64::MAX,
        last_block(file.len(), g.session.neg.blksize as nat) < u64::MAX,
        fits_file(
            file,
            g.session.neg.blksize as nat,
            g.session.expected_block as int,
            e,
        ),
    ensures
        get_sound(get_event(g, e), file),
        get_event(g, e).session.neg == g.session.neg,
        get_event(g, e).session.resume_from_block == g.session.resume_from_block,
{
    let size = g.session.neg.blksize as nat;
    if !g.complete && !g.failed {
        let x = g.session.expected_block as nat;
        short_block_is_last(file, size, x);
        reads_stay_sound(g.session, PacketView::Ack { block: 0 });
        if let GetEvent::Arrived(p) = e {
            reads_stay_sound(g.session, p);
            if let PacketView::Data { block, data } = p {
                ahead_is_nearest(x as int, block, 0);
                if ahead(x as int, block) == 0 {
                    expected_number_is_expected_block(file, size, x, block, data);
                    block_joins_on(file, size, x);
                    let a = covered(file.len(), size, g.session.resume_from_block as nat) as int;
                    let b = covered(file.len(), size, (x - 1) as nat) as int;
                    let c = covered(file.len(), size, x) as int;
                    let t = get_event(g, e);
                    assert(file.take(b).len() + data.len() == file.take(c).len());
                    assert(t.file =~= file.subrange(a, c));
                }
            }
        }
    }
}

/// The read before anything happened.
pub open spec fn get_opened(cfg: ClientConfig, neg: Negotiation) -> GetProgress {
    GetProgress {
        session: get_start(cfg, neg),
        file: Seq::empty(),
        complete: false,
        failed: false,
    }
}

/// However the packets of an honest server arrive, what a read has stored is
/// always a run of the served file, from the first block that it wanted on,
/// and when it ends complete it has stored the file from there to its end. A
/// read from the beginning has then stored exactly the served file, in as many
/// blocks as the file has.
pub proof fn get_stores_the_served_file(
    cfg: ClientConfig,
    neg: Negotiation,
    file: Seq<u8>,
    events: Seq<GetEvent>,
)
    requires
        cfg.resume_from_block < u64::MAX,
        cfg.resume_from_block * neg.blksize <= file.len(),
        neg.blksize > 0,
        file.len() <= u64::MAX,
        last_block(file.len(), neg.blksize as nat) < u64::MAX,
        events_fit(get_opened(cfg, neg), file, events),
    ensures
        ({
            let g = get_events(get_opened(cfg, neg), events);
            let size = neg.blksize as nat;
            let from = cfg.resume_from_block as nat;
            &&& g.file == file.subrange(
                (from * size) as int,
                covered(file.len(), size, from + g.session.blocks as nat) as int,
            )
            &&& g.session.bytes == g.file.len()
            &&& g.complete ==> g.file == file.skip((from * size) as int) && from
                + g.session.blocks == last_block(file.len(), size)
            &&& g.complete && from == 0 ==> g.file == file
        }),
{
    let start = get_opened(cfg, neg);
    let size = neg.blksize as nat;
    let from = cfg.resume_from_block as nat;
    let a = covered(file.len(), size, from) as int;
    assert(a == from * size);
    assert(file.subrange(a, a) =~= Seq::<u8>::empty());
    lemma_previous_is_not_ahead(cfg.resume_from_block + 1);
    window_room_shrinks(0, window_len(neg.windowsize) as int, 0);
    assert(get_sound(start, file));
    lemma_get_events_sound(start, file, events);
    let g = get_events(start, events);
    assert(g.complete ==> g.file =~= file.skip(a));
    if from == 0 {
        assert(from * size == 0) by (nonlinear_arith)
            requires
                from == 0,
        ;
        assert(file.skip(0) =~= file);
    }
}

proof fn lemma_get_events_sound(g: GetProgress, file: Seq<u8>, events: Seq<GetEvent>)
    requires
        get_sound(g, file),
        g.session.neg.blksize > 0,
        file.len() <= u64::MAX,
        last_block(file.len(), g.session.neg.blksize as nat) < u64::MAX,
        events_fit(g, file, events),
    ensures
        get_sound(get_events(g, events), file),
        get_events(g, events).session.neg == g.session.neg,
        get_events(g, events).session.resume_from_block == g.session.resume_from_block,
    decreases events.len(),
{
    if events.len() > 0 {
        let front = events.drop_last();
        lemma_get_events_sound(g, file, front);
        lemma_get_event_sound(get_events(g, front), file, events.last());
    }
}

/// Of a file of at most 65535 blocks the packets may come in any order at all:
/// whatever number above 0 a DATA packet has, it is enough that it carries the
/// block of that number.
pub proof fn small_files_bear_any_order(
    cfg: ClientConfig,
    neg: Negotiation,
    file: Seq<u8>,
    events: Seq<GetEvent>,
)
    requires
        cfg.resume_from_block == 0,
        neg.blksize > 0,
        file.len() <= u64::MAX,
        last_block(file.len(), neg.blksize as nat) <= u16::MAX,
        forall|i: int|
            0 <= i < events.len() ==> ((#[trigger] events[i]) matches GetEvent::Arrived(
                PacketView::Data { block, data },
            ) ==> block > 0 && data == block_data(file, neg.blksize as nat, block as nat)),
    ensures
        events_fit(get_opened(cfg, neg), file, events),
        get_events(get_opened(cfg, neg), events).complete ==> get_events(
            get_opened(cfg, neg),
            events,
        ).file == file,
    decreases events.len(),
{
    let start = get_opened(cfg, neg);
    let size = neg.blksize as nat;
    assert(0 * size == 0) by (nonlinear_arith);
    lemma_previous_is_not_ahead(1);
    window_room_shrinks(0, window_len(neg.windowsize) as int, 0);
    assert(file.subrange(0, 0) =~= Seq::<u8>::empty());
    assert(get_sound(start, file));
    if events.len() > 0 {
        let front = events.drop_last();
        assert forall|i: int| 0 <= i < front.len() implies ((
        #[trigger] front[i]) matches GetEvent::Arrived(PacketView::Data { block, data }) ==> block
            > 0 && data == block_data(file, neg.blksize as nat, block as nat)) by {
            assert(front[i] == events[i]);
        }
        small_files_bear_any_order(cfg, neg, file, front);
        lemma_get_events_sound(start, file, front);
        let g = get_events(start, front);
        if !g.complete {
            short_block_is_last(file, size, g.session.expected_block as nat);
        }
        assert(events[events.len() - 1] == events.last());
        if let GetEvent::Arrived(PacketView::Data { block, data }) = events.last() {
            assert(is_block(file, size, block as nat, block, data));
        }
    }
    get_stores_the_served_file(cfg, neg, file, events);
}

/// The writing of a file of `total_bytes` bytes.
#[derive(Debug)]
pub struct PutSession {
    pub neg: Negotiation,
    pub sender: Sender,
    pub total_bytes: u64,
}

/// How a write goes on after an answer.
#[derive(Debug, Clone, Copy, PartialEq, Eq, Structural)]
pub enum PutStep {
    /// Send the blocks that are not acknowledged again.
    Again,
    /// Take the next blocks of the file.
    Next,
    /// The file is complete.
    Done,
}

/// What an answer means to a write that waits for one: the acknowledgement of
/// all blocks or of some, or a failure.
pub open spec fn put_reply(s: SenderView, p: PacketView) -> (
    SenderView,
    Result<PutStep, ErrorView>,
) {
    match p {
        PacketView::Ack { block } => match with_ack(s, block) {
            (t, Acked::All) => (
                t,
                Ok(
                    if s.ended {
                        PutStep::Done
                    } else {
                        PutStep::Next
                    },
                ),
            ),
            (t, Acked::Part) => (t, Ok(PutStep::Again)),
            _ => (s, Err(ErrorView::Protocol("unexpected ack"@))),
        },
        PacketView::Error { code, message } => (s, Err(ErrorView::Remote { code, message })),
        _ => (s, Err(ErrorView::Protocol("unexpected ack"@))),
    }
}

impl PutSession {
    /// Starts a write of `total_bytes` bytes with the negotiated parameters.
    pub fn new(neg: Negotiation, total_bytes: u64) -> (s: Self)
        ensures
            s.neg == neg,
            s.sender@ == sender_start(neg.blksize, neg.windowsize),
            sender_ok(s.sender@),
            s.total_bytes == total_bytes,
    {
        Self { neg, sender: Sender::new(neg.blksize, neg.windowsize), total_bytes }
    }

    /// Whether another block is to be taken before an answer is waited for.
    pub fn takes_block(&self) -> (r: bool)
        ensures
            r == takes_block(self.sender@),
    {
        self.sender.takes_block()
    }

    /// Takes the next block of the file, empty at its end.
    pub fn on_chunk(&mut self, chunk: &[u8])
        requires
            sender_ok(old(self).sender@),
            takes_block(old(self).sender@),
            old(self).sender.base < u64::MAX - 65535,
            old(self).sender.bytes + chunk@.len() <= u64::MAX,
        ensures
            final(self).sender@ == with_block(old(self).sender@, chunk@),
            sender_ok(final(self).sender@),
            final(self).sender.base == old(self).sender.base,
            final(self).neg == old(self).neg,
            final(self).total_bytes == old(self).total_bytes,
    {
        let _ = self.sender.push(chunk);
    }

    /// The packets to send: those that carry the blocks which are not
    /// acknowledged.
    pub fn packets(&self) -> (v: Vec<Packet>)
        requires
            sender_ok(self.sender@),
            self.sender.base < u64::MAX - 65535,
        ensures
            v@.len() == self.sender@.pending.len(),
            forall|i: int|
                0 <= i < v@.len() ==> (#[trigger] v@[i])@ == pending_packet(self.sender@, i),
    {
        self.sender.packets()
    }

    /// Takes an answer to the blocks on their way.
    pub fn on_reply(&mut self, p: &Packet) -> (r: Result<PutStep, TftpError>)
        requires
            sender_ok(old(self).sender@),
            old(self).sender.base < u64::MAX - 65535,
        ensures
            final(self).sender@ == put_reply(old(self).sender@, p@).0,
            match r {
                Ok(x) => put_reply(old(self).sender@, p@).1 == Ok::<PutStep, ErrorView>(x),
                Err(e) => put_reply(old(self).sender@, p@).1 == Err::<PutStep, ErrorView>(e@),
            },
            sender_ok(final(self).sender@),
            final(self).neg == old(self).neg,
            final(self).total_bytes == old(self).total_bytes,
    {
        match p {
            Packet::Ack { block } => {
                let ghost before = self.sender@;
                match self.sender.ack(*block) {
                    Acked::All => Ok(
                        if self.sender.ended {
                            PutStep::Done
                        } else {
                            PutStep::Next
                        },
                    ),
                    Acked::Part => Ok(PutStep::Again),
                    _ => {
                        assert(before.pending.skip(0) =~= before.pending);
                        Err(TftpError::protocol("unexpected ack"))
                    },
                }
            },
            Packet::Error { code, message } => Err(
                TftpError::Remote { code: *code, message: message.clone() },
            ),
            _ => Err(TftpError::protocol("unexpected ack")),
        }
    }

    /// The account of the write so far.
    pub fn stats(&self) -> (s: TransferStats)
        ensures
            s == (TransferStats {
                bytes: self.sender.bytes,
                blocks: self.sender.base,
                total_bytes: None,
                duration_ms: 0,
            }),
    {
        TransferStats {
            bytes: self.sender.bytes,
            blocks: self.sender.base,
            total_bytes: None,
            duration_ms: 0,
        }
    }

    /// How far the write has come.
    pub fn progress(&self) -> (p: Progress)
        ensures
            p == (Progress {
                bytes: self.sender.bytes,
                blocks: self.sender.base,
                total_bytes: Some(self.total_bytes),
            }),
    {
        Progress {
            bytes: self.sender.bytes,
            blocks: self.sender.base,
            total_bytes: Some(self.total_bytes),
        }
    }
}

/// An answer to the blocks of a write that acknowledges none of them is worth
/// sending them again, unless it is an ERROR, which ends the write. With
/// windows of one block only the acknowledgement of that block will do.
pub proof fn unexpected_answers_are_retried(s: SenderView, p: PacketView)
    requires
        sender_ok(s),
        s.pending.len() > 0,
    ensures
        put_reply(s, p).1 matches Err(e) ==> put_reply(s, p).0 == s && (retryable(e) <==> !(
        p is Error)),
        put_reply(s, p).1 is Ok ==> p is Ack,
        s.pending.len() == 1 ==> (put_reply(s, p).1 is Ok <==> p == (PacketView::Ack {
            block: wire_number((s.base + 1) as int),
        })),
        put_reply(s, PacketView::Ack { block: wire_number((s.base + s.pending.len()) as int) }).1
            == Ok::<PutStep, ErrorView>(
            if s.ended {
                PutStep::Done
            } else {
                PutStep::Next
            },
        ),
{
    window_room_shrinks(s.base as int, s.window as int, 0);
    ahead_is_nearest(
        s.base as int,
        wire_number((s.base + s.pending.len()) as int),
        s.pending.len() as int,
    );
    if let PacketView::Ack { block } = p {
        ahead_is_nearest(s.base as int, block, 1);
        assert(s.pending.skip(0) =~= s.pending);
    }
}

/// Whatever answers come to a write, what it sends are blocks of the file
/// under their numbers; it goes on to the next blocks when those that it has
/// sent are acknowledged, and is done when the last one is.
#[verifier::rlimit(50)]
pub proof fn writes_keep_to_the_file(s: SenderView, file: Seq<u8>, p: PacketView)
    requires
        carries(s, file),
        s.pending.len() > 0,
    ensures
        ({
            let (t, r) = put_reply(s, p);
            let last = last_block(file.len(), s.blksize);
            &&& carries(t, file)
            &&& r == Ok::<PutStep, ErrorView>(PutStep::Done) <==> t.base == last
            &&& r == Ok::<PutStep, ErrorView>(PutStep::Done) ==> t.bytes == file.len()
            &&& r == Ok::<PutStep, ErrorView>(PutStep::Next) ==> takes_block(t)
            &&& r == Ok::<PutStep, ErrorView>(PutStep::Again) ==> t.pending.len() > 0
        }),
        forall|i: int|
            0 <= i < s.pending.len() ==> (#[trigger] pending_packets(s)[i]) == (PacketView::Data {
                block: wire_number(s.base + 1 + i),
                data: block_data(file, s.blksize, (s.base + 1 + i) as nat),
            }),
{
    let b = match p {
        PacketView::Ack { block } => block,
        _ => 0,
    };
    senders_carry_the_file(s, file, b);
    ahead_is_nearest(s.base as int, b, 0);
    let t = put_reply(s, p).0;
    window_room_shrinks(t.base as int, t.window as int, 0);
    if t.base == last_block(file.len(), s.blksize) {
        assert(t.pending.len() == 0);
        last_block_is_short(file, s.blksize, t.base);
    }
}

} // verus!
