//! The server: what to do about a request, and the state machines of the two
//! kinds of transfer.
//!
//! [`ReadSession`] serves a file to a client, [`WriteSession`] takes one from
//! it. A caller reads and writes the file, sends the packets, and hands back
//! what arrives.

use crate::blocks::{
    ahead_is_nearest, block_data, block_joins_on, blocks_per_window, covered,
    expected_number_is_expected_block, is_near_block, last_block, near_numbers_differ,
    number_on_wire, short_block_is_last, window_len, window_room_shrinks, wire_number,
};
use crate::error::{ErrorView, TftpError, TftpErrorCode};
use crate::options::{
    blksize_in_range, default_negotiation, in_range, insert_entry, lookup, oack_applied,
    option_u64, requested, timeout_in_range, windowsize_in_range, Entries, Negotiation, Options,
    BLKSIZE, TIMEOUT, TSIZE, WINDOWSIZE,
};
use crate::packet::{packet_text, Packet, PacketView};
use crate::peer::{mapped, peers_match, Peer};
use crate::sender::{
    acknowledgements_free_blocks, carries, pending_packet, pending_packets, sender_after,
    sender_ok, sender_sends_the_file, sender_start, senders_carry_the_file, takes_block, with_ack,
    with_block, Acked, Sender, SenderView,
};
use crate::session::{no_stats, TransferStats};
use crate::text::decimal;
use crate::transfer::{is_retryable, payload_len, retryable, wait_at, wait_secs, MAX_ATTEMPTS};
use crate::wire::as_slice;
use crate::{DEFAULT_BLOCK_SIZE, DEFAULT_TIMEOUT_SECS, DEFAULT_WINDOW_SIZE, MAX_BLOCK_SIZE};
use vstd::prelude::*;
use vstd::string::*;

verus! {

/// What a server serves: the directory `root`, and whether clients may write
/// to it.
#[derive(Debug, PartialEq, Eq)]
pub struct ServerConfig {
    pub root: String,
    pub allow_write: bool,
}

impl ServerConfig {
    /// A server of the directory `root`.
    pub fn new(root: &str, allow_write: bool) -> (c: Self)
        ensures
            c.root@ == root@,
            c.allow_write == allow_write,
    {
        Self { root: root.to_owned(), allow_write }
    }
}

impl Clone for ServerConfig {
    fn clone(&self) -> (c: Self)
        ensures
            c.root@ == self.root@,
            c.allow_write == self.allow_write,
    {
        Self { root: self.root.clone(), allow_write: self.allow_write }
    }
}

/// What to do about a packet that opens a transfer.
#[derive(Debug)]
pub enum Plan {
    /// Serve the file with these options.
    Read { filename: String, options: Options },
    /// Take the file with these options.
    Write { filename: String, options: Options },
    /// Send this packet, and no more.
    Refuse { answer: Packet },
}

/// The content of a [`Plan`].
pub enum PlanView {
    Read { filename: Seq<char>, options: Entries },
    Write { filename: Seq<char>, options: Entries },
    Refuse { answer: PacketView },
}

impl View for Plan {
    type V = PlanView;

    open spec fn view(&self) -> PlanView {
        match *self {
            Plan::Read { filename, options } => PlanView::Read {
                filename: filename@,
                options: options@,
            },
            Plan::Write { filename, options } => PlanView::Write {
                filename: filename@,
                options: options@,
            },
            Plan::Refuse { answer } => PlanView::Refuse { answer: answer@ },
        }
    }
}

/// What a server does about the packet that opens a transfer. Whatever the
/// mode of a request, it is served as octets.
pub open spec fn planned(p: PacketView, allow_write: bool) -> Result<PlanView, ErrorView> {
    match p {
        PacketView::Rrq { filename, options, .. } => Ok(PlanView::Read { filename, options }),
        PacketView::Wrq { filename, options, .. } => if allow_write {
            Ok(PlanView::Write { filename, options })
        } else {
            Ok(
                PlanView::Refuse {
                    answer: PacketView::Error {
                        code: TftpErrorCode::AccessViolation,
                        message: "writes disabled"@,
                    },
                },
            )
        },
        other => Err(ErrorView::Protocol("expected RRQ/WRQ, got "@ + packet_text(other))),
    }
}

/// Decides what to do about the packet that opens a transfer.
pub fn handle_one(p: Packet, cfg: &ServerConfig) -> (r: Result<Plan, TftpError>)
    ensures
        match r {
            Ok(plan) => planned(p@, cfg.allow_write) == Ok::<PlanView, ErrorView>(plan@),
            Err(e) => planned(p@, cfg.allow_write) == Err::<PlanView, ErrorView>(e@),
        },
{
    match p {
        Packet::Rrq { filename, mode: _, options } => Ok(Plan::Read { filename, options }),
        Packet::Wrq { filename, mode: _, options } => {
            if cfg.allow_write {
                Ok(Plan::Write { filename, options })
            } else {
                Ok(
                    Plan::Refuse {
                        answer: Packet::Error {
                            code: TftpErrorCode::AccessViolation,
                            message: "writes disabled".to_owned(),
                        },
                    },
                )
            }
        },
        other => Err(
            TftpError::Protocol(
                "expected RRQ/WRQ, got ".to_owned().concat(other.describe().as_str()),
            ),
        ),
    }
}

/// The parameters with the default in place of each one that is out of its
/// range.
pub open spec fn clamped(n: Negotiation) -> Negotiation {
    Negotiation {
        blksize: if blksize_in_range(n.blksize) {
            n.blksize
        } else {
            DEFAULT_BLOCK_SIZE
        },
        timeout: if timeout_in_range(n.timeout) {
            n.timeout
        } else {
            DEFAULT_TIMEOUT_SECS
        },
        windowsize: if windowsize_in_range(n.windowsize) {
            n.windowsize
        } else {
            DEFAULT_WINDOW_SIZE
        },
        tsize: n.tsize,
    }
}

/// Puts the default in place of each parameter that is out of its range.
pub fn clamp_negotiation(n: Negotiation) -> (r: Negotiation)
    ensures
        r == clamped(n),
{
    let mut n = n;
    if !(8 <= n.blksize && n.blksize <= MAX_BLOCK_SIZE) {
        n.blksize = DEFAULT_BLOCK_SIZE;
    }
    if n.timeout == 0 || n.timeout > 255 {
        n.timeout = DEFAULT_TIMEOUT_SECS;
    }
    if n.windowsize == 0 {
        n.windowsize = DEFAULT_WINDOW_SIZE;
    }
    n
}

/// The parameters of the transfer that a request with these options opens.
pub open spec fn granted(es: Entries) -> Negotiation {
    clamped(oack_applied(default_negotiation(), es))
}

/// Whether a request holds an option that the server rules on.
pub open spec fn holds_known_option(es: Entries) -> bool {
    lookup(es, BLKSIZE@) is Some || lookup(es, TIMEOUT@) is Some || lookup(es, TSIZE@) is Some
        || lookup(es, WINDOWSIZE@) is Some
}

fn has_known_option(options: &Options) -> (r: bool)
    ensures
        r == holds_known_option(options@),
{
    options.get(BLKSIZE).is_some() || options.get(TIMEOUT).is_some() || options.get(
        TSIZE,
    ).is_some() || options.get(WINDOWSIZE).is_some()
}

/// The options that announce the parameters of a transfer, and the size of
/// the file if it is given. A window of one block is not announced.
pub open spec fn announced(n: Negotiation, tsize: Option<u64>) -> Entries {
    let base = insert_entry(
        insert_entry(Entries::empty(), BLKSIZE@, decimal(n.blksize as nat)),
        TIMEOUT@,
        decimal(n.timeout as nat),
    );
    let windowed = if n.windowsize > 1 {
        insert_entry(base, WINDOWSIZE@, decimal(n.windowsize as nat))
    } else {
        base
    };
    match tsize {
        Some(len) => insert_entry(windowed, TSIZE@, decimal(len as nat)),
        None => windowed,
    }
}

fn announcement(n: Negotiation, tsize: Option<u64>) -> (p: Packet)
    ensures
        p@ == (PacketView::Oack { options: announced(n, tsize) }),
{
    let mut options = Options::new();
    options.set_blksize(n.blksize);
    options.set_timeout(n.timeout);
    if n.windowsize > 1 {
        options.set_windowsize(n.windowsize);
    }
    if let Some(len) = tsize {
        options.set_tsize(len);
    }
    Packet::Oack { options }
}

/// The size that the answer to a read request announces: that of the file,
/// where it is known and the request asked for it.
pub open spec fn announced_size(es: Entries, file_len: Option<u64>) -> Option<u64> {
    if option_u64(es, TSIZE@) is Some {
        file_len
    } else {
        None
    }
}

/// The packet that opens the answer to a read request, if there is one: a
/// request without options that the server rules on is answered with the first
/// block.
pub open spec fn read_opening(es: Entries, file_len: Option<u64>) -> Option<PacketView> {
    if holds_known_option(es) {
        Some(PacketView::Oack { options: announced(granted(es), announced_size(es, file_len)) })
    } else {
        None
    }
}

/// The packet that answers a write request.
pub open spec fn write_opening(es: Entries) -> PacketView {
    if holds_known_option(es) {
        PacketView::Oack { options: announced(granted(es), None) }
    } else {
        PacketView::Ack { block: 0 }
    }
}

/// Answers a read request with these options: the parameters of the transfer,
/// and the packet that announces them, if the request gives reason for one.
/// `file_len` is the size of the file, if it could be opened.
pub fn answer_read(options: &Options, file_len: Option<u64>) -> (r: (Negotiation, Option<Packet>))
    ensures
        r.0 == granted(options@),
        match r.1 {
            Some(p) => read_opening(options@, file_len) == Some(p@),
            None => read_opening(options@, file_len) is None,
        },
{
    let n = clamp_negotiation(Negotiation::defaults().apply_oack(options));
    if !has_known_option(options) {
        return (n, None);
    }
    let tsize = match options.tsize() {
        Some(_) => file_len,
        None => None,
    };
    (n, Some(announcement(n, tsize)))
}

/// Answers a write request with these options: the parameters of the transfer
/// and the packet that accepts it.
pub fn answer_write(options: &Options) -> (r: (Negotiation, Packet))
    ensures
        r.0 == granted(options@),
        r.1@ == write_opening(options@),
{
    let n = clamp_negotiation(Negotiation::defaults().apply_oack(options));
    if has_known_option(options) {
        (n, announcement(n, None))
    } else {
        (n, Packet::Ack { block: 0 })
    }
}

/// The packet that tells a client that the file to read cannot be opened.
/// `missing` says whether it does not exist, `reason` why it cannot be opened.
pub fn open_failure(missing: bool, reason: &str) -> (p: Packet)
    ensures
        p@ == (PacketView::Error {
            code: if missing {
                TftpErrorCode::FileNotFound
            } else {
                TftpErrorCode::AccessViolation
            },
            message: "cannot open file: "@ + reason@,
        }),
{
    Packet::Error {
        code: if missing {
            TftpErrorCode::FileNotFound
        } else {
            TftpErrorCode::AccessViolation
        },
        message: "cannot open file: ".to_owned().concat(reason),
    }
}

/// The packet that tells a client that the file to write cannot be created.
pub fn create_failure(reason: &str) -> (p: Packet)
    ensures
        p@ == (PacketView::Error {
            code: TftpErrorCode::AccessViolation,
            message: "cannot create file: "@ + reason@,
        }),
{
    Packet::Error {
        code: TftpErrorCode::AccessViolation,
        message: "cannot create file: ".to_owned().concat(reason),
    }
}

/// Clamping leads into the ranges, and leaves alone what is in them.
pub proof fn clamping_leads_into_range(n: Negotiation)
    ensures
        in_range(clamped(n)),
        in_range(n) ==> clamped(n) == n,
        clamped(clamped(n)) == clamped(n),
{
}

/// A request that is valid is granted as it is, and one without options that
/// the server rules on is served with the defaults.
pub proof fn valid_requests_are_granted(es: Entries)
    ensures
        requested(es) matches Ok(n) ==> granted(es) == n,
        in_range(granted(es)),
        !holds_known_option(es) ==> granted(es) == default_negotiation(),
{
}

/// The packets that a wait is for.
#[derive(Debug, Clone, Copy, PartialEq, Eq, Structural)]
pub enum Wanted {
    /// An acknowledgement.
    Ack,
    /// A block of data.
    Data,
}

/// Whether a packet ends a wait. An ERROR always does.
pub open spec fn is_wanted(wanted: Wanted, p: PacketView) -> bool {
    match p {
        PacketView::Error { .. } => true,
        PacketView::Ack { .. } => wanted == Wanted::Ack,
        PacketView::Data { .. } => wanted == Wanted::Data,
        _ => false,
    }
}

/// What happens during a wait.
#[derive(Debug)]
pub enum WaitEvent {
    /// The time was up before another packet was awaited.
    Deadline,
    /// Nothing came until the time was up.
    TimedOut,
    /// Receiving failed.
    Failed(TftpError),
    /// A packet came from an address.
    Arrived { packet: Packet, from: Peer },
}

/// How a wait goes on.
#[derive(Debug)]
pub enum WaitStep {
    /// Wait on.
    Continue,
    /// The packet that was waited for.
    Found(Packet),
    /// The wait failed.
    Fail(TftpError),
}

/// Takes an event of a wait for a packet from `peer`. Packets from others, and
/// packets that are not wanted, are passed over.
pub fn wait_for(peer: Peer, wanted: Wanted, event: WaitEvent) -> (r: WaitStep)
    ensures
        match event {
            WaitEvent::Deadline => r matches WaitStep::Fail(e) && e@ == ErrorView::Protocol(
                "timeout"@,
            ),
            WaitEvent::TimedOut => r matches WaitStep::Fail(e) && e@ == ErrorView::Protocol(
                "wait_for timeout"@,
            ),
            WaitEvent::Failed(e) => r == WaitStep::Fail(e),
            WaitEvent::Arrived { packet, from } => if mapped(from) == mapped(peer) && is_wanted(
                wanted,
                packet@,
            ) {
                r == WaitStep::Found(packet)
            } else {
                r == WaitStep::Continue
            },
        },
{
    match event {
        WaitEvent::Deadline => WaitStep::Fail(TftpError::protocol("timeout")),
        WaitEvent::TimedOut => WaitStep::Fail(TftpError::protocol("wait_for timeout")),
        WaitEvent::Failed(e) => WaitStep::Fail(e),
        WaitEvent::Arrived { packet, from } => {
            if !peers_match(from, peer) {
                return WaitStep::Continue;
            }
            let found = match &packet {
                Packet::Error { .. } => true,
                Packet::Ack { .. } => wanted == Wanted::Ack,
                Packet::Data { .. } => wanted == Wanted::Data,
                _ => false,
            };
            if found {
                WaitStep::Found(packet)
            } else {
                WaitStep::Continue
            }
        },
    }
}

/// How far the serving of a read has come.
#[derive(Debug, Clone, Copy, PartialEq, Eq, Structural)]
pub enum ReadPhase {
    /// The parameters were announced; their acknowledgement is waited for.
    Opening,
    /// The file is on its way.
    Open,
    /// Nothing more is to be done.
    Done,
}

/// The serving of a file of `file_len` bytes. `attempt` counts the waits that
/// have brought nothing since the last acknowledgement.
#[derive(Debug)]
pub struct ReadSession {
    pub neg: Negotiation,
    pub file_len: u64,
    pub sender: Sender,
    pub attempt: u32,
    pub phase: ReadPhase,
}

/// The content of a [`ReadSession`].
#[verifier::ext_equal]
pub struct ReadView {
    pub neg: Negotiation,
    pub file_len: u64,
    pub sender: SenderView,
    pub attempt: u32,
    pub phase: ReadPhase,
}

impl View for ReadSession {
    type V = ReadView;

    open spec fn view(&self) -> ReadView {
        ReadView {
            neg: self.neg,
            file_len: self.file_len,
            sender: self.sender@,
            attempt: self.attempt,
            phase: self.phase,
        }
    }
}

/// What a read that is served does next.
#[derive(Debug, Clone, Copy, PartialEq, Eq, Structural)]
pub enum ReadStep {
    /// Take the next chunk of the file, of `len` bytes or what is left.
    Chunk { len: usize },
    /// Wait for an answer, that many seconds.
    Wait { secs: u64 },
    /// Nothing more.
    Done,
}

/// What is to be sent after a wait.
#[derive(Debug, Clone, Copy, PartialEq, Eq, Structural)]
pub enum Resend {
    /// Nothing.
    Nothing,
    /// The announcement of the parameters.
    Announcement,
    /// The blocks that are not acknowledged.
    Blocks,
}

/// The bookkeeping of a read that is served.
pub open spec fn read_ok(s: ReadView) -> bool {
    &&& sender_ok(s.sender)
    &&& s.sender.blksize == s.neg.blksize
    &&& s.sender.window == window_len(s.neg.windowsize)
    &&& s.attempt < MAX_ATTEMPTS
    &&& s.phase == ReadPhase::Opening ==> s.sender.pending.len() == 0 && !s.sender.ended
    &&& s.phase == ReadPhase::Open && s.sender.ended ==> s.sender.pending.len() > 0
}

/// The serving of a file before its first block; `announced` says whether the
/// parameters were announced.
pub open spec fn read_start(neg: Negotiation, file_len: u64, announced: bool) -> ReadView {
    ReadView {
        neg,
        file_len,
        sender: sender_start(neg.blksize, neg.windowsize),
        attempt: 0,
        phase: if announced {
            ReadPhase::Opening
        } else {
            ReadPhase::Open
        },
    }
}

/// What a read does next: blocks are sent until the window is full or the file
/// has ended, then their acknowledgement is waited for.
pub open spec fn read_step(s: ReadView) -> ReadStep {
    match s.phase {
        ReadPhase::Done => ReadStep::Done,
        ReadPhase::Open if takes_block(s.sender) => ReadStep::Chunk {
            len: if s.file_len == 0 {
                0
            } else {
                s.neg.blksize as usize
            },
        },
        _ => ReadStep::Wait { secs: wait_at(s.neg.timeout, s.attempt) as u64 },
    }
}

/// What the next chunk of the file does: the packet that carries it goes out.
pub open spec fn read_chunk(s: ReadView, chunk: Seq<u8>) -> (ReadView, PacketView) {
    let sender = with_block(s.sender, chunk);
    (ReadView { sender, ..s }, pending_packet(sender, s.sender.pending.len() as int))
}

/// Whether all that is waited for is an answer to an empty block, with which
/// the file ends.
pub open spec fn only_end_is_pending(s: SenderView) -> bool {
    s.ended && s.pending.len() == 1 && s.pending[0].len() == 0
}

/// What an answer does to a read that waits for one.
pub open spec fn read_reply(s: ReadView, p: PacketView) -> (ReadView, Result<Resend, ErrorView>) {
    match p {
        PacketView::Ack { block } => match s.phase {
            ReadPhase::Opening => if block == 0 {
                (ReadView { phase: ReadPhase::Open, attempt: 0, ..s }, Ok(Resend::Nothing))
            } else {
                (s, Ok(Resend::Nothing))
            },
            ReadPhase::Open => match with_ack(s.sender, block) {
                (_, Acked::Stale) => (s, Ok(Resend::Nothing)),
                (_, Acked::Again) => (s, Ok(Resend::Blocks)),
                (sender, Acked::Part) => (
                    ReadView { sender, attempt: 0, ..s },
                    Ok(Resend::Blocks),
                ),
                (sender, Acked::All) => (
                    ReadView {
                        sender,
                        attempt: 0,
                        phase: if sender.ended {
                            ReadPhase::Done
                        } else {
                            ReadPhase::Open
                        },
                        ..s
                    },
                    Ok(Resend::Nothing),
                ),
            },
            ReadPhase::Done => (s, Ok(Resend::Nothing)),
        },
        PacketView::Error { code, message } => if s.phase == ReadPhase::Open
            && only_end_is_pending(s.sender) {
            (ReadView { phase: ReadPhase::Done, ..s }, Ok(Resend::Nothing))
        } else {
            (s, Err(ErrorView::Remote { code, message }))
        },
        _ => (s, Ok(Resend::Nothing)),
    }
}

/// What a wait that failed with `e` does to a read: what is not acknowledged
/// goes out again, and the next wait is twice as long, until the attempts are
/// used up. Where the failure is not worth another attempt, it stands, but an
/// empty file whose block was sent is well without an answer.
pub open spec fn read_unanswered(s: ReadView, e: ErrorView) -> (
    ReadView,
    Result<Resend, ErrorView>,
) {
    if retryable(e) && s.attempt + 1 < MAX_ATTEMPTS {
        (
            ReadView { attempt: (s.attempt + 1) as u32, ..s },
            Ok(
                if s.phase == ReadPhase::Opening {
                    Resend::Announcement
                } else {
                    Resend::Blocks
                },
            ),
        )
    } else if retryable(e) {
        (s, Err(ErrorView::Timeout { retries: MAX_ATTEMPTS }))
    } else if s.phase == ReadPhase::Open && s.file_len == 0 {
        (ReadView { phase: ReadPhase::Done, ..s }, Ok(Resend::Nothing))
    } else {
        (s, Err(e))
    }
}

impl ReadSession {
    /// Starts to serve a file of `file_len` bytes; `announced` says whether the
    /// parameters were announced.
    pub fn new(neg: Negotiation, file_len: u64, announced: bool) -> (s: Self)
        ensures
            s@ == read_start(neg, file_len, announced),
            read_ok(s@),
    {
        Self {
            neg,
            file_len,
            sender: Sender::new(neg.blksize, neg.windowsize),
            attempt: 0,
            phase: if announced {
                ReadPhase::Opening
            } else {
                ReadPhase::Open
            },
        }
    }

    /// What is to be done next.
    pub fn step(&self) -> (r: ReadStep)
        ensures
            r == read_step(self@),
    {
        let wait: u64 = wait_secs(self.neg.timeout, self.attempt);
        match self.phase {
            ReadPhase::Done => ReadStep::Done,
            ReadPhase::Opening => ReadStep::Wait { secs: wait },
            ReadPhase::Open => {
                if !self.sender.takes_block() {
                    ReadStep::Wait { secs: wait }
                } else if self.file_len == 0 {
                    ReadStep::Chunk { len: 0 }
                } else {
                    ReadStep::Chunk { len: self.neg.blksize as usize }
                }
            },
        }
    }

    /// Takes the next chunk of the file, empty at its end, and gives the
    /// packet to send.
    pub fn on_chunk(&mut self, chunk: &[u8]) -> (p: Packet)
        requires
            read_ok(old(self)@),
            old(self).phase == ReadPhase::Open,
            takes_block(old(self).sender@),
            old(self).sender.base < u64::MAX - 65535,
            old(self).sender.bytes + chunk@.len() <= u64::MAX,
        ensures
            final(self)@ == read_chunk(old(self)@, chunk@).0,
            p@ == read_chunk(old(self)@, chunk@).1,
            read_ok(final(self)@),
            final(self).sender.base == old(self).sender.base,
    {
        self.sender.push(chunk)
    }

    /// The packets that carry the blocks which are not acknowledged.
    pub fn packets(&self) -> (v: Vec<Packet>)
        requires
            read_ok(self@),
            self.sender.base < u64::MAX - 65535,
        ensures
            v@.len() == self@.sender.pending.len(),
            forall|i: int|
                0 <= i < v@.len() ==> (#[trigger] v@[i])@ == pending_packet(self@.sender, i),
    {
        self.sender.packets()
    }

    /// Takes an answer: an acknowledgement or an error.
    pub fn on_reply(&mut self, p: &Packet) -> (r: Result<Resend, TftpError>)
        requires
            read_ok(old(self)@),
            old(self).sender.base < u64::MAX - 65535,
            is_wanted(Wanted::Ack, p@),
        ensures
            final(self)@ == read_reply(old(self)@, p@).0,
            match r {
                Ok(x) => read_reply(old(self)@, p@).1 == Ok::<Resend, ErrorView>(x),
                Err(e) => read_reply(old(self)@, p@).1 == Err::<Resend, ErrorView>(e@),
            },
            read_ok(final(self)@),
    {
        let ghost before = self.sender@;
        match p {
            Packet::Ack { block } => match self.phase {
                ReadPhase::Opening => {
                    if *block == 0 {
                        self.phase = ReadPhase::Open;
                        self.attempt = 0;
                    }
                    Ok(Resend::Nothing)
                },
                ReadPhase::Open => {
                    assert(before.pending.skip(0) =~= before.pending);
                    match self.sender.ack(*block) {
                        Acked::Stale => Ok(Resend::Nothing),
                        Acked::Again => Ok(Resend::Blocks),
                        Acked::Part => {
                            self.attempt = 0;
                            Ok(Resend::Blocks)
                        },
                        Acked::All => {
                            self.attempt = 0;
                            if self.sender.ended {
                                self.phase = ReadPhase::Done;
                            }
                            Ok(Resend::Nothing)
                        },
                    }
                },
                ReadPhase::Done => Ok(Resend::Nothing),
            },
            Packet::Error { code, message } => {
                if let ReadPhase::Open = self.phase {
                    if self.sender.ended && self.sender.pending.len() == 1 && as_slice(
                        &self.sender.pending[0],
                    ).len() == 0 {
                        self.phase = ReadPhase::Done;
                        return Ok(Resend::Nothing);
                    }
                }
                Err(TftpError::Remote { code: *code, message: message.clone() })
            },
            _ => Ok(Resend::Nothing),
        }
    }

    /// Takes note that the wait for an answer failed with `e`.
    pub fn on_wait_failed(&mut self, e: TftpError) -> (r: Result<Resend, TftpError>)
        requires
            read_ok(old(self)@),
        ensures
            final(self)@ == read_unanswered(old(self)@, e@).0,
            match r {
                Ok(x) => read_unanswered(old(self)@, e@).1 == Ok::<Resend, ErrorView>(x),
                Err(x) => read_unanswered(old(self)@, e@).1 == Err::<Resend, ErrorView>(x@),
            },
            read_ok(final(self)@),
            final(self).sender == old(self).sender,
    {
        if is_retryable(&e) {
            if self.attempt + 1 >= MAX_ATTEMPTS {
                return Err(TftpError::Timeout { retries: MAX_ATTEMPTS });
            }
            self.attempt = self.attempt + 1;
            return match self.phase {
                ReadPhase::Opening => Ok(Resend::Announcement),
                _ => Ok(Resend::Blocks),
            };
        }
        if let ReadPhase::Open = self.phase {
            if self.file_len == 0 {
                self.phase = ReadPhase::Done;
                return Ok(Resend::Nothing);
            }
        }
        Err(e)
    }

    /// The account of the transfer. An empty file counts as nothing moved.
    pub fn stats(&self) -> (s: TransferStats)
        requires
            self.neg.blksize > 0,
        ensures
            s == (if self.file_len == 0 {
                no_stats()
            } else {
                TransferStats {
                    bytes: self.file_len,
                    blocks: self.sender.bytes / (self.neg.blksize as u64),
                    total_bytes: Some(self.file_len),
                    duration_ms: 0,
                }
            }),
    {
        if self.file_len == 0 {
            return TransferStats::default();
        }
        TransferStats {
            bytes: self.file_len,
            blocks: self.sender.bytes / (self.neg.blksize as u64),
            total_bytes: Some(self.file_len),
            duration_ms: 0,
        }
    }
}

/// The serving of `file` after `k` of its blocks were sent, and acknowledged
/// where that is waited for.
pub open spec fn read_after(neg: Negotiation, file: Seq<u8>, k: nat) -> ReadView
    decreases k,
{
    if k == 0 {
        read_start(neg, file.len() as u64, false)
    } else {
        let s = read_chunk(
            read_after(neg, file, (k - 1) as nat),
            block_data(file, neg.blksize as nat, k),
        ).0;
        if read_step(s) is Wait {
            read_reply(s, PacketView::Ack { block: wire_number(k as int) }).0
        } else {
            s
        }
    }
}

/// A server sends the blocks of the file one after the other under their
/// numbers, counted on from 0 after 65535, and is done when the last one is
/// acknowledged and no sooner. Then it has sent the whole file.
#[verifier::rlimit(50)]
pub proof fn read_sends_the_file(neg: Negotiation, file: Seq<u8>, k: nat)
    requires
        neg.blksize > 0,
        file.len() <= u64::MAX,
        k <= last_block(file.len(), neg.blksize as nat),
    ensures
        ({
            let s = read_after(neg, file, k);
            let size = neg.blksize as nat;
            let last = last_block(file.len(), size);
            &&& read_ok(s)
            &&& s.neg == neg
            &&& s.file_len == file.len()
            &&& s.attempt == 0
            &&& s.sender == sender_after(neg.blksize, neg.windowsize, file, k)
            &&& s.sender.bytes == covered(file.len(), size, k)
            &&& k < last ==> {
                &&& read_step(s) is Chunk
                &&& read_chunk(s, block_data(file, size, k + 1)).1 == (PacketView::Data {
                    block: wire_number((k + 1) as int),
                    data: block_data(file, size, k + 1),
                })
            }
            &&& k == last ==> read_step(s) == ReadStep::Done && s.sender.bytes == file.len()
        }),
    decreases k,
{
    sender_sends_the_file(neg.blksize, neg.windowsize, file, k);
    if k > 0 {
        read_sends_the_file(neg, file, (k - 1) as nat);
        sender_sends_the_file(neg.blksize, neg.windowsize, file, (k - 1) as nat);
        let before = read_after(neg, file, (k - 1) as nat);
        senders_carry_the_file(before.sender, file, 0);
        let s = read_chunk(before, block_data(file, neg.blksize as nat, k)).0;
        if !takes_block(s.sender) {
            acknowledgements_free_blocks(s.sender, k);
        }
    }
}

/// Whatever a server of `file` is sent, and however often a wait is in vain,
/// what it sends are blocks of the file under their numbers, and it is done
/// only when the last block is acknowledged, unless all that is left is an
/// answer to an empty block.
#[verifier::rlimit(50)]
pub proof fn reads_keep_to_the_file(s: ReadView, file: Seq<u8>, p: PacketView, e: ErrorView)
    requires
        read_ok(s),
        s.file_len == file.len(),
        carries(s.sender, file),
    ensures
        ({
            let (t, r) = read_reply(s, p);
            &&& read_ok(t) && t.file_len == s.file_len && carries(t.sender, file)
            &&& t.phase == ReadPhase::Done && s.phase != ReadPhase::Done ==> (t.sender.base
                == last_block(file.len(), t.sender.blksize) || p is Error && only_end_is_pending(
                s.sender,
            ))
            &&& r is Err <==> p is Error && !(s.phase == ReadPhase::Open && only_end_is_pending(
                s.sender,
            ))
        }),
        ({
            let (t, r) = read_unanswered(s, e);
            &&& read_ok(t) && t.file_len == s.file_len && t.sender == s.sender
            &&& t.phase == ReadPhase::Done && s.phase != ReadPhase::Done ==> s.file_len == 0
                && !retryable(e)
        }),
        read_step(s) is Chunk ==> ({
            let k = s.sender.base + s.sender.pending.len() + 1;
            let data = block_data(file, s.sender.blksize, k);
            let (t, packet) = read_chunk(s, data);
            &&& read_ok(t) && carries(t.sender, file)
            &&& packet == (PacketView::Data { block: wire_number(k as int), data })
        }),
        forall|i: int|
            0 <= i < s.sender.pending.len() ==> (#[trigger] pending_packets(s.sender)[i])
                == (PacketView::Data {
                block: wire_number(s.sender.base + 1 + i),
                data: block_data(file, s.sender.blksize, (s.sender.base + 1 + i) as nat),
            }),
{
    let b = match p {
        PacketView::Ack { block } => block,
        _ => 0,
    };
    senders_carry_the_file(s.sender, file, b);
    window_room_shrinks(s.sender.base as int, s.sender.window as int, 0);
    ahead_is_nearest(s.sender.base as int, b, 0);
}

/// A read after `k` waits in a row that brought nothing.
pub open spec fn read_silent(s: ReadView, e: ErrorView, k: nat) -> ReadView
    decreases k,
{
    if k == 0 {
        s
    } else {
        read_unanswered(read_silent(s, e, (k - 1) as nat), e).0
    }
}

/// A server to which nothing comes back sends what is not acknowledged again
/// and waits twice as long each time. After the sixth wait the read ends with
/// a timeout.
pub proof fn fruitless_waits_end_a_read(s: ReadView, e: ErrorView, k: nat)
    requires
        read_ok(s),
        s.attempt == 0,
        read_step(s) is Wait,
        retryable(e),
        k < MAX_ATTEMPTS,
    ensures
        ({
            let t = read_silent(s, e, k);
            &&& t == (ReadView { attempt: k as u32, ..s })
            &&& read_step(t) == (ReadStep::Wait { secs: wait_at(s.neg.timeout, k as u32) as u64 })
            &&& k + 1 < MAX_ATTEMPTS ==> read_unanswered(t, e).1 == Ok::<Resend, ErrorView>(
                if s.phase == ReadPhase::Opening {
                    Resend::Announcement
                } else {
                    Resend::Blocks
                },
            )
            &&& k + 1 == MAX_ATTEMPTS ==> read_unanswered(t, e).1 == Err::<Resend, ErrorView>(
                ErrorView::Timeout { retries: MAX_ATTEMPTS },
            )
        }),
    decreases k,
{
    if k > 0 {
        fruitless_waits_end_a_read(s, e, (k - 1) as nat);
    }
}

/// An acknowledgement that stops short of what was sent brings the rest again,
/// from the next block on; that of all that was sent opens the next window, or
/// ends the read. Both start the count of fruitless waits anew.
pub proof fn acknowledgements_move_a_read_on(s: ReadView, a: nat)
    requires
        read_ok(s),
        s.phase == ReadPhase::Open,
        s.sender.pending.len() > 0,
        s.sender.base <= a <= s.sender.base + s.sender.pending.len(),
    ensures
        ({
            let (t, r) = read_reply(s, PacketView::Ack { block: wire_number(a as int) });
            let all = a == s.sender.base + s.sender.pending.len();
            &&& t.sender.base == a
            &&& t.sender.pending == s.sender.pending.skip(a - s.sender.base)
            &&& a > s.sender.base ==> t.attempt == 0
            &&& r == Ok::<Resend, ErrorView>(
                if all {
                    Resend::Nothing
                } else {
                    Resend::Blocks
                },
            )
            &&& t.phase == ReadPhase::Done <==> all && s.sender.ended
        }),
{
    acknowledgements_free_blocks(s.sender, a);
    assert(s.sender.pending.skip(0) =~= s.sender.pending);
}

/// After its announcement a server waits for the acknowledgement of block 0,
/// and sends no block before it came.
pub proof fn announcements_are_acknowledged_first(neg: Negotiation, file_len: u64, p: PacketView)
    ensures
        ({
            let s = read_start(neg, file_len, true);
            let (t, r) = read_reply(s, p);
            &&& read_step(s) == (ReadStep::Wait { secs: neg.timeout as u64 })
            &&& p == (PacketView::Ack { block: 0 }) ==> t == read_start(neg, file_len, false)
            &&& p != (PacketView::Ack { block: 0 }) ==> t == s
        }),
{
}

/// The taking of a file: `expected_block` is the number of the block that
/// comes next, `received` counts the bytes that came, and `attempt` the waits
/// that have brought nothing since the last block.
#[derive(Debug, Clone, Copy, PartialEq, Eq, Structural)]
pub struct WriteSession {
    pub neg: Negotiation,
    pub expected_block: u64,
    pub received: u64,
    pub attempt: u32,
}

/// What to do about a packet that arrived during a write, or about a wait that
/// brought none.
#[derive(Debug, Clone, Copy, PartialEq, Eq, Structural)]
pub enum WriteAction {
    /// Send the answer to the request again.
    Announce,
    /// Acknowledge the block; nothing new came.
    Ack { block: u16 },
    /// Append the data to the file, then acknowledge the block if there is one
    /// to acknowledge.
    Store { ack: Option<u16> },
    /// Append the data to the file, then acknowledge the block; the file is
    /// complete.
    Finish { ack: u16 },
}

/// The taking of a file before its first block.
pub open spec fn write_start(neg: Negotiation) -> WriteSession {
    WriteSession { neg, expected_block: 1, received: 0, attempt: 0 }
}

/// What a packet does to a write. The expected block is stored, and
/// acknowledged where it completes a window or the file; any other is answered
/// with the last block that was stored.
pub open spec fn write_step(s: WriteSession, p: PacketView) -> (
    WriteSession,
    Result<WriteAction, ErrorView>,
) {
    match p {
        PacketView::Data { block, data } => if block == wire_number(s.expected_block as int) {
            let t = WriteSession {
                received: (s.received + data.len()) as u64,
                expected_block: (s.expected_block + 1) as u64,
                attempt: 0,
                ..s
            };
            if data.len() < s.neg.blksize {
                (t, Ok(WriteAction::Finish { ack: block }))
            } else if s.expected_block % window_len(s.neg.windowsize) == 0 {
                (t, Ok(WriteAction::Store { ack: Some(block) }))
            } else {
                (t, Ok(WriteAction::Store { ack: None }))
            }
        } else {
            (s, Ok(WriteAction::Ack { block: wire_number(s.expected_block - 1) }))
        },
        PacketView::Error { code, message } => (s, Err(ErrorView::Remote { code, message })),
        _ => (s, Ok(WriteAction::Ack { block: wire_number(s.expected_block - 1) })),
    }
}

/// What a wait that failed with `e` does to a write: what was sent last goes
/// out again, and the next wait is twice as long, until the attempts are used
/// up. What was sent last is the answer to the request before the first block,
/// then the acknowledgement of the blocks that came.
pub open spec fn write_unanswered(s: WriteSession, e: ErrorView) -> (
    WriteSession,
    Result<WriteAction, ErrorView>,
) {
    if retryable(e) && s.attempt + 1 < MAX_ATTEMPTS {
        (
            WriteSession { attempt: (s.attempt + 1) as u32, ..s },
            Ok(
                if s.expected_block == 1 {
                    WriteAction::Announce
                } else {
                    WriteAction::Ack { block: wire_number(s.expected_block - 1) }
                },
            ),
        )
    } else if retryable(e) {
        (s, Err(ErrorView::Timeout { retries: MAX_ATTEMPTS }))
    } else {
        (s, Err(e))
    }
}

impl WriteSession {
    /// The bookkeeping of a write.
    pub open spec fn wf(self) -> bool {
        1 <= self.expected_block && self.attempt < MAX_ATTEMPTS
    }

    /// Starts to take a file.
    pub fn new(neg: Negotiation) -> (s: Self)
        ensures
            s == write_start(neg),
            s.wf(),
    {
        Self { neg, expected_block: 1, received: 0, attempt: 0 }
    }

    /// How long to wait for the next packet, in seconds.
    pub fn wait(&self) -> (secs: u64)
        ensures
            secs == wait_at(self.neg.timeout, self.attempt),
    {
        wait_secs(self.neg.timeout, self.attempt)
    }

    /// Takes a packet that arrived: a block of data or an error.
    pub fn on_packet(&mut self, p: &Packet) -> (r: Result<WriteAction, TftpError>)
        requires
            old(self).wf(),
            is_wanted(Wanted::Data, p@),
            old(self).expected_block < u64::MAX,
            old(self).received + payload_len(p@) <= u64::MAX,
        ensures
            final(self).wf(),
            *final(self) == write_step(*old(self), p@).0,
            match r {
                Ok(a) => write_step(*old(self), p@).1 == Ok::<WriteAction, ErrorView>(a),
                Err(e) => write_step(*old(self), p@).1 == Err::<WriteAction, ErrorView>(e@),
            },
    {
        match p {
            Packet::Data { block, data } => {
                let block: u16 = *block;
                let number: u64 = self.expected_block;
                if block != number_on_wire(number) {
                    return Ok(WriteAction::Ack { block: number_on_wire(number - 1) });
                }
                let len: usize = as_slice(data).len();
                self.received = self.received + len as u64;
                self.expected_block = number + 1;
                self.attempt = 0;
                if len < self.neg.blksize as usize {
                    return Ok(WriteAction::Finish { ack: block });
                }
                if number % blocks_per_window(self.neg.windowsize) == 0 {
                    return Ok(WriteAction::Store { ack: Some(block) });
                }
                Ok(WriteAction::Store { ack: None })
            },
            Packet::Error { code, message } => Err(
                TftpError::Remote { code: *code, message: message.clone() },
            ),
            _ => Ok(WriteAction::Ack { block: number_on_wire(self.expected_block - 1) }),
        }
    }

    /// Takes note that the wait for a packet failed with `e`.
    pub fn on_wait_failed(&mut self, e: TftpError) -> (r: Result<WriteAction, TftpError>)
        requires
            old(self).wf(),
        ensures
            final(self).wf(),
            *final(self) == write_unanswered(*old(self), e@).0,
            match r {
                Ok(a) => write_unanswered(*old(self), e@).1 == Ok::<WriteAction, ErrorView>(a),
                Err(x) => write_unanswered(*old(self), e@).1 == Err::<WriteAction, ErrorView>(x@),
            },
    {
        if !is_retryable(&e) {
            return Err(e);
        }
        if self.attempt + 1 >= MAX_ATTEMPTS {
            return Err(TftpError::Timeout { retries: MAX_ATTEMPTS });
        }
        self.attempt = self.attempt + 1;
        if self.expected_block == 1 {
            Ok(WriteAction::Announce)
        } else {
            Ok(WriteAction::Ack { block: number_on_wire(self.expected_block - 1) })
        }
    }

    /// The account of the transfer.
    pub fn stats(&self) -> (s: TransferStats)
        requires
            self.neg.blksize > 0,
        ensures
            s == (TransferStats {
                bytes: self.received,
                blocks: self.received / (self.neg.blksize as u64),
                total_bytes: None,
                duration_ms: 0,
            }),
    {
        TransferStats {
            bytes: self.received,
            blocks: self.received / (self.neg.blksize as u64),
            total_bytes: None,
            duration_ms: 0,
        }
    }
}

/// The block that an action acknowledges, if it does.
pub open spec fn write_acknowledged(a: WriteAction) -> Option<u16> {
    match a {
        WriteAction::Announce => None,
        WriteAction::Ack { block } => Some(block),
        WriteAction::Store { ack } => ack,
        WriteAction::Finish { ack } => Some(ack),
    }
}

/// A block that comes again after it was stored is not stored again: it is
/// answered with the last block that was stored, so an acknowledgement that was
/// lost is made good.
pub proof fn stored_blocks_are_acknowledged_again(s: WriteSession, k: int, data: Seq<u8>)
    requires
        s.wf(),
        s.expected_block - 65536 < k < s.expected_block,
    ensures
        write_step(s, PacketView::Data { block: wire_number(k), data }) == (
            s,
            Ok::<WriteAction, ErrorView>(
                WriteAction::Ack { block: wire_number(s.expected_block - 1) },
            ),
        ),
{
    near_numbers_differ(k, s.expected_block as int);
}

/// A write acknowledges one block of each full window, the last one, and the
/// last block of the file.
pub proof fn windows_are_acknowledged_once(s: WriteSession, data: Seq<u8>)
    requires
        s.wf(),
    ensures
        ({
            let b = wire_number(s.expected_block as int);
            let r = write_step(s, PacketView::Data { block: b, data }).1;
            let w = window_len(s.neg.windowsize);
            &&& data.len() < s.neg.blksize ==> r == Ok::<WriteAction, ErrorView>(
                WriteAction::Finish { ack: b },
            )
            &&& data.len() >= s.neg.blksize && s.expected_block % w == 0 ==> r == Ok::<
                WriteAction,
                ErrorView,
            >(WriteAction::Store { ack: Some(b) })
            &&& data.len() >= s.neg.blksize && s.expected_block % w != 0 ==> r == Ok::<
                WriteAction,
                ErrorView,
            >(WriteAction::Store { ack: None })
        }),
{
}

/// A write after `k` waits in a row that brought nothing.
pub open spec fn write_silent(s: WriteSession, e: ErrorView, k: nat) -> WriteSession
    decreases k,
{
    if k == 0 {
        s
    } else {
        write_unanswered(write_silent(s, e, (k - 1) as nat), e).0
    }
}

/// A server to which no block comes sends its last answer again and waits
/// twice as long each time. After the sixth wait the write ends with a timeout.
pub proof fn fruitless_waits_end_a_write(s: WriteSession, e: ErrorView, k: nat)
    requires
        s.wf(),
        s.attempt == 0,
        retryable(e),
        k < MAX_ATTEMPTS,
    ensures
        ({
            let t = write_silent(s, e, k);
            &&& t == (WriteSession { attempt: k as u32, ..s })
            &&& k + 1 < MAX_ATTEMPTS ==> write_unanswered(t, e).1 == Ok::<WriteAction, ErrorView>(
                if s.expected_block == 1 {
                    WriteAction::Announce
                } else {
                    WriteAction::Ack { block: wire_number(s.expected_block - 1) }
                },
            )
            &&& k + 1 == MAX_ATTEMPTS ==> write_unanswered(t, e).1 == Err::<WriteAction, ErrorView>(
                ErrorView::Timeout { retries: MAX_ATTEMPTS },
            )
        }),
    decreases k,
{
    if k > 0 {
        fruitless_waits_end_a_write(s, e, (k - 1) as nat);
    }
}

/// A write under way: its state, the file so far, and whether it has ended.
pub struct WriteProgress {
    pub session: WriteSession,
    pub file: Seq<u8>,
    pub complete: bool,
    pub failed: bool,
}

/// Something that happens during a write.
pub enum WriteEvent {
    /// A packet arrived.
    Arrived(PacketView),
    /// A wait failed.
    Unanswered(ErrorView),
}

/// The write before anything happened.
pub open spec fn write_opened(neg: Negotiation) -> WriteProgress {
    WriteProgress {
        session: write_start(neg),
        file: Seq::empty(),
        complete: false,
        failed: false,
    }
}

/// The write after one more event. Once it has ended, nothing changes it.
pub open spec fn write_event(w: WriteProgress, e: WriteEvent) -> WriteProgress {
    if w.complete || w.failed {
        w
    } else {
        match e {
            WriteEvent::Arrived(p) => {
                let (t, r) = write_step(w.session, p);
                match (r, p) {
                    (Err(_), _) => WriteProgress { session: t, failed: true, ..w },
                    (
                        Ok(WriteAction::Store { .. }),
                        PacketView::Data { data, .. },
                    ) => WriteProgress {
                        session: t,
                        file: w.file + data,
                        ..w
                    },
                    (
                        Ok(WriteAction::Finish { .. }),
                        PacketView::Data { data, .. },
                    ) => WriteProgress {
                        session: t,
                        file: w.file + data,
                        complete: true,
                        ..w
                    },
                    (Ok(_), _) => WriteProgress { session: t, ..w },
                }
            },
            WriteEvent::Unanswered(e) => {
                let (t, r) = write_unanswered(w.session, e);
                WriteProgress { session: t, failed: r is Err, ..w }
            },
        }
    }
}

/// The write after events, one after the other.
pub open spec fn write_events(w: WriteProgress, events: Seq<WriteEvent>) -> WriteProgress
    decreases events.len(),
{
    if events.len() == 0 {
        w
    } else {
        write_event(write_events(w, events.drop_last()), events.last())
    }
}

/// Whether an event fits a client that sends `file` in blocks of `size` bytes
/// to a write that expects block number `expected`: a DATA packet carries a
/// block of the file that is fewer than 65536 blocks away, under its number.
/// Otherwise the packets may come in any order, any number of times, or not at
/// all.
pub open spec fn fits_sent_file(file: Seq<u8>, size: nat, expected: int, e: WriteEvent) -> bool {
    match e {
        WriteEvent::Arrived(PacketView::Data { block, data }) => is_near_block(
            file,
            size,
            expected,
            block,
            data,
        ),
        _ => true,
    }
}

/// Whether events, one after the other, fit a client that sends `file`.
pub open spec fn write_events_fit(w: WriteProgress, file: Seq<u8>, events: Seq<WriteEvent>) -> bool
    decreases events.len(),
{
    if events.len() == 0 {
        true
    } else {
        let front = events.drop_last();
        write_events_fit(w, file, front) && fits_sent_file(
            file,
            w.session.neg.blksize as nat,
            write_events(w, front).session.expected_block as int,
            events.last(),
        )
    }
}

/// What holds of a write at all times.
spec fn write_sound(w: WriteProgress, file: Seq<u8>) -> bool {
    let size = w.session.neg.blksize as nat;
    let stored = (w.session.expected_block - 1) as nat;
    &&& w.session.wf()
    &&& w.session.received == w.file.len()
    &&& w.file == file.take(covered(file.len(), size, stored) as int)
    &&& covered(file.len(), size, stored) <= file.len()
    &&& w.complete ==> w.file == file && stored == last_block(file.len(), size)
    &&& !w.complete ==> stored * size <= file.len()
}

proof fn lemma_write_event_sound(w: WriteProgress, file: Seq<u8>, e: WriteEvent)
    requires
        write_sound(w, file),
        w.session.neg.blksize > 0,
        file.len() <= u64::MAX,
        last_block(file.len(), w.session.neg.blksize as nat) < u64::MAX,
        fits_sent_file(
            file,
            w.session.neg.blksize as nat,
            w.session.expected_block as int,
            e,
        ),
    ensures
        write_sound(write_event(w, e), file),
        write_event(w, e).session.neg == w.session.neg,
{
    let size = w.session.neg.blksize as nat;
    let x = w.session.expected_block as nat;
    if !w.complete && !w.failed {
        short_block_is_last(file, size, x);
        if let WriteEvent::Arrived(PacketView::Data { block, data }) = e {
            if block == wire_number(x as int) {
                expected_number_is_expected_block(file, size, x, block, data);
                block_joins_on(file, size, x);
                let t = write_event(w, e);
                assert(t.file == file.take(covered(file.len(), size, x) as int));
                if data.len() < size {
                    assert(t.file =~= file);
                }
            }
        }
    }
}

proof fn lemma_write_events_sound(w: WriteProgress, file: Seq<u8>, events: Seq<WriteEvent>)
    requires
        write_sound(w, file),
        w.session.neg.blksize > 0,
        file.len() <= u64::MAX,
        last_block(file.len(), w.session.neg.blksize as nat) < u64::MAX,
        write_events_fit(w, file, events),
    ensures
        write_sound(write_events(w, events), file),
        write_events(w, events).session.neg == w.session.neg,
    decreases events.len(),
{
    if events.len() > 0 {
        let front = events.drop_last();
        lemma_write_events_sound(w, file, front);
        lemma_write_event_sound(write_events(w, front), file, events.last());
    }
}

/// However the packets of an honest client arrive, what a write has stored is
/// always the front of the file that the client sends, and when it ends
/// complete it has stored exactly that file, in as many blocks as it has.
pub proof fn write_stores_the_sent_file(neg: Negotiation, file: Seq<u8>, events: Seq<WriteEvent>)
    requires
        neg.blksize > 0,
        file.len() <= u64::MAX,
        last_block(file.len(), neg.blksize as nat) < u64::MAX,
        write_events_fit(write_opened(neg), file, events),
    ensures
        ({
            let w = write_events(write_opened(neg), events);
            let size = neg.blksize as nat;
            let stored = (w.session.expected_block - 1) as nat;
            &&& w.file == file.take(covered(file.len(), size, stored) as int)
            &&& w.session.received == w.file.len()
            &&& w.complete ==> w.file == file && stored == last_block(file.len(), size)
        }),
{
    let size = neg.blksize as nat;
    assert(0 * size == 0) by (nonlinear_arith);
    assert(file.take(0) =~= Seq::<u8>::empty());
    assert(write_sound(write_opened(neg), file));
    lemma_write_events_sound(write_opened(neg), file, events);
}

} // verus!
