//! Receiving, retrying, and naming the other side.

use crate::error::{ErrorView, TftpError};
use crate::packet::{parse_error_message, parse_packet, Packet, PacketView};
use crate::text::{char_index, char_index_is_first, find_char, opens_with, text_from, text_to};
use vstd::prelude::*;
use vstd::string::*;

verus! {

/// The size of the buffer that a datagram is received into.
pub const MAX_DATAGRAM: usize = 65536;

/// The most data that a DATA packet in one datagram can carry.
pub const MAX_PAYLOAD: usize = 65532;

/// What came of waiting for a datagram.
#[derive(Debug)]
pub enum Received {
    /// A datagram with these bytes.
    Datagram(Vec<u8>),
    /// The operating system reported a failure, described by the text.
    Failed(String),
    /// Nothing came in time.
    TimedOut,
}

/// The packet that was received, or why there is none.
pub open spec fn received_packet(r: Received) -> Result<PacketView, ErrorView> {
    match r {
        Received::Datagram(bytes) => match parse_packet(bytes@) {
            Ok(p) => Ok(p),
            Err(e) => Err(ErrorView::Parse(parse_error_message(e))),
        },
        Received::Failed(text) => Err(ErrorView::Io(text@)),
        Received::TimedOut => Err(ErrorView::Protocol("recv timeout"@)),
    }
}

/// The length of the data that a packet carries.
pub open spec fn payload_len(p: PacketView) -> nat {
    match p {
        PacketView::Data { data, .. } => data.len(),
        _ => 0,
    }
}

/// Makes a packet, or an error, of what was received. The data of a packet is
/// at least four bytes shorter than the datagram that it came in.
pub fn recv_packet(r: Received) -> (out: Result<Packet, TftpError>)
    ensures
        match out {
            Ok(p) => received_packet(r) == Ok::<PacketView, ErrorView>(p@),
            Err(e) => received_packet(r) == Err::<PacketView, ErrorView>(e@),
        },
        out matches Ok(p) ==> r matches Received::Datagram(bytes) && (bytes@.len() <= MAX_DATAGRAM
            ==> payload_len(p@) <= MAX_PAYLOAD),
{
    match r {
        Received::Datagram(bytes) => match Packet::parse(bytes.as_slice()) {
            Ok(p) => Ok(p),
            Err(e) => Err(TftpError::from(e)),
        },
        Received::Failed(text) => Err(TftpError::Io(text)),
        Received::TimedOut => Err(TftpError::protocol("recv timeout")),
    }
}

/// Whether an attempt that failed this way is worth another one.
pub open spec fn retryable(e: ErrorView) -> bool {
    e is Timeout || e is Protocol
}

/// Whether an attempt that failed this way is worth another one.
pub fn is_retryable(e: &TftpError) -> (r: bool)
    ensures
        r == retryable(e@),
{
    match e {
        TftpError::Timeout { .. } => true,
        TftpError::Protocol(_) => true,
        _ => false,
    }
}

/// Twice the delay, but no more than `max`.
pub open spec fn backed_off(delay: int, max: int) -> int {
    if 2 * delay <= max {
        2 * delay
    } else {
        max
    }
}

/// The delay of the attempt number `k`, the first being number 0.
pub open spec fn delay_at(initial: int, max: int, k: nat) -> int
    decreases k,
{
    if k == 0 {
        initial
    } else {
        backed_off(delay_at(initial, max, (k - 1) as nat), max)
    }
}

/// How often a server sends before it gives up.
pub const MAX_ATTEMPTS: u32 = 6;

/// How long a transfer waits for an answer to what was sent: `timeout` seconds
/// the first time, and twice as long each time that it is sent again, up to 64
/// times as long.
pub open spec fn wait_at(timeout: u16, attempt: u32) -> int {
    delay_at(timeout as int, 64 * timeout, attempt as nat)
}

/// How long a transfer waits for an answer to what was sent.
pub fn wait_secs(timeout: u16, attempt: u32) -> (d: u64)
    ensures
        d == wait_at(timeout, attempt),
{
    let max: u64 = 64 * (timeout as u64);
    let mut d: u64 = timeout as u64;
    let mut i: u32 = 0;
    let doublings: u32 = if attempt < 6 {
        attempt
    } else {
        6
    };
    while i < doublings
        invariant
            i <= doublings,
            max == 64 * timeout,
            d <= max,
            d == delay_at(timeout as int, max as int, i as nat),
        decreases doublings - i,
    {
        d = if 2 * d <= max {
            2 * d
        } else {
            max
        };
        i = i + 1;
    }
    proof {
        waits_double(timeout, attempt);
        waits_double(timeout, 6);
    }
    d
}

/// The waits double until they are 64 times as long as the first, and stay so.
pub proof fn waits_double(timeout: u16, attempt: u32)
    ensures
        wait_at(timeout, 0) == timeout,
        attempt < 6 ==> wait_at(timeout, (attempt + 1) as u32) == 2 * wait_at(timeout, attempt),
        attempt >= 6 ==> wait_at(timeout, attempt) == 64 * timeout,
    decreases attempt,
{
    reveal_with_fuel(delay_at, 7);
    if attempt > 6 {
        waits_double(timeout, (attempt - 1) as u32);
    }
}

/// Attempts that are still to be made: number `attempt` of `max_retries` is
/// the next, the first being number 0.
#[derive(Debug, Clone, Copy)]
pub struct Retry {
    initial: u64,
    max: u64,
    max_retries: u32,
    attempt: u32,
    delay: u64,
}

/// The content of a [`Retry`].
pub struct RetryView {
    pub initial: int,
    pub max: int,
    pub max_retries: nat,
    pub attempt: nat,
}

impl View for Retry {
    type V = RetryView;

    closed spec fn view(&self) -> RetryView {
        RetryView {
            initial: self.initial as int,
            max: self.max as int,
            max_retries: self.max_retries as nat,
            attempt: self.attempt as nat,
        }
    }
}

/// What follows a failed attempt.
#[derive(Debug)]
pub enum AfterFailure {
    /// Pause that long, then make the next attempt.
    Again { pause: u64, retry: Retry },
    /// The failure stands.
    Failed(TftpError),
}

/// The attempts before the first of them; a timeout where there are none.
pub open spec fn retry_start(initial: int, max: int, max_retries: nat) -> Result<
    RetryView,
    ErrorView,
> {
    if max_retries == 0 {
        Err(ErrorView::Timeout { retries: 0 })
    } else {
        Ok(RetryView { initial, max, max_retries, attempt: 0 })
    }
}

/// The attempts that are left after one failed with `e`, or the failure that
/// stands: one that is not worth another attempt, or that of the last one.
pub open spec fn retry_after(r: RetryView, e: ErrorView) -> Result<RetryView, ErrorView> {
    if retryable(e) && r.attempt + 1 < r.max_retries {
        Ok(RetryView { attempt: r.attempt + 1, ..r })
    } else {
        Err(e)
    }
}

impl Retry {
    #[verifier::type_invariant]
    spec fn wf(self) -> bool {
        &&& self.attempt < self.max_retries
        &&& self.delay == delay_at(self.initial as int, self.max as int, self.attempt as nat)
    }

    /// At most `max_retries` attempts. The first delay is `initial`; each
    /// further one is twice the one before, but at most `max`.
    pub fn new(initial: u64, max: u64, max_retries: u32) -> (r: Result<Self, TftpError>)
        ensures
            match r {
                Ok(run) => retry_start(initial as int, max as int, max_retries as nat) == Ok::<
                    RetryView,
                    ErrorView,
                >(run@),
                Err(e) => retry_start(initial as int, max as int, max_retries as nat) == Err::<
                    RetryView,
                    ErrorView,
                >(e@),
            },
    {
        if max_retries == 0 {
            Err(TftpError::Timeout { retries: max_retries })
        } else {
            Ok(Retry { initial, max, max_retries, attempt: 0, delay: initial })
        }
    }

    /// The attempts to get an answer to a packet, where a wait is `timeout`
    /// seconds: the delays grow to eight times that.
    pub fn for_timeout(timeout: u16, retries: u32) -> (r: Result<Self, TftpError>)
        ensures
            match r {
                Ok(run) => retry_start(
                    timeout as int,
                    8 * timeout as int,
                    retries as nat,
                ) == Ok::<RetryView, ErrorView>(run@),
                Err(e) => retry_start(
                    timeout as int,
                    8 * timeout as int,
                    retries as nat,
                ) == Err::<RetryView, ErrorView>(e@),
            },
    {
        Self::new(timeout as u64, 8 * (timeout as u64), retries)
    }

    /// The time that the next attempt is given.
    pub fn delay(&self) -> (d: u64)
        ensures
            d == delay_at(self@.initial, self@.max, self@.attempt),
    {
        proof {
            use_type_invariant(self);
        }
        self.delay
    }

    /// What follows an attempt that failed with `e`. The pause before the next
    /// one is as long as the time that the failed one was given.
    pub fn failed(self, e: TftpError) -> (r: AfterFailure)
        ensures
            match r {
                AfterFailure::Again { pause, retry } => retry_after(self@, e@) == Ok::<
                    RetryView,
                    ErrorView,
                >(retry@) && pause == delay_at(self@.initial, self@.max, self@.attempt),
                AfterFailure::Failed(out) => retry_after(self@, e@) == Err::<RetryView, ErrorView>(
                    out@,
                ) && out == e,
            },
    {
        proof {
            use_type_invariant(&self);
        }
        if is_retryable(&e) && self.attempt + 1 < self.max_retries {
            let delay: u64 = if self.delay <= self.max / 2 {
                self.delay * 2
            } else {
                self.max
            };
            let retry = Retry {
                initial: self.initial,
                max: self.max,
                max_retries: self.max_retries,
                attempt: self.attempt + 1,
                delay,
            };
            AfterFailure::Again { pause: self.delay, retry }
        } else {
            AfterFailure::Failed(e)
        }
    }
}

/// What is left of the attempts after these failures, one after the other.
pub open spec fn retry_run(r: RetryView, failures: Seq<ErrorView>) -> Result<RetryView, ErrorView>
    decreases failures.len(),
{
    if failures.len() == 0 {
        Ok(r)
    } else {
        match retry_after(r, failures[0]) {
            Ok(next) => retry_run(next, failures.drop_first()),
            Err(e) => Err(e),
        }
    }
}

/// Failures that are worth another attempt are passed over while attempts are
/// left, and the one that uses up the last attempt stands.
pub proof fn retries_are_used_up(r: RetryView, failures: Seq<ErrorView>)
    requires
        r.attempt < r.max_retries,
        r.attempt + failures.len() <= r.max_retries,
        forall|i: int| 0 <= i < failures.len() ==> retryable(#[trigger] failures[i]),
    ensures
        r.attempt + failures.len() < r.max_retries ==> retry_run(r, failures) == Ok::<
            RetryView,
            ErrorView,
        >(RetryView { attempt: r.attempt + failures.len(), ..r }),
        r.attempt + failures.len() == r.max_retries ==> retry_run(r, failures) == Err::<
            RetryView,
            ErrorView,
        >(failures.last()),
    decreases failures.len(),
{
    if failures.len() > 0 && r.attempt + 1 < r.max_retries {
        let next = RetryView { attempt: r.attempt + 1, ..r };
        let rest = failures.drop_first();
        assert forall|i: int| 0 <= i < rest.len() implies retryable(#[trigger] rest[i]) by {
            assert(rest[i] == failures[i + 1]);
        }
        assert(retryable(failures[0]));
        retries_are_used_up(next, rest);
        if rest.len() > 0 {
            assert(rest.last() == failures.last());
        }
    }
}

/// A failure that is not worth another attempt stands at once.
pub proof fn final_failures_stand(r: RetryView, e: ErrorView)
    requires
        !retryable(e),
    ensures
        retry_after(r, e) == Err::<RetryView, ErrorView>(e),
{
}

/// From the second attempt on no delay exceeds `max`, and where it stays below
/// `max` it has doubled with every attempt.
pub proof fn delays_are_bounded(initial: int, max: int, k: nat)
    requires
        0 <= initial,
        0 <= max,
    ensures
        k > 0 ==> delay_at(initial, max, k) <= max,
        k > 0 && delay_at(initial, max, k) < max ==> delay_at(initial, max, k) == 2 * delay_at(
            initial,
            max,
            (k - 1) as nat,
        ),
        0 <= delay_at(initial, max, k),
    decreases k,
{
    if k > 0 {
        delays_are_bounded(initial, max, (k - 1) as nat);
    }
}

/// The host and the file that a target names: `HOST:FILE`, where a host in
/// square brackets may hold colons.
pub open spec fn target_parts(t: Seq<char>) -> Result<(Seq<char>, Seq<char>), ErrorView> {
    if t.len() > 0 && t[0] == '[' {
        let rest = t.skip(1);
        let end = char_index(rest, ']') as int;
        let after = rest.skip(end + 1);
        if end == rest.len() {
            Err(ErrorView::Protocol("invalid IPv6 host"@))
        } else if end == 0 {
            Err(ErrorView::Protocol("empty IPv6 host"@))
        } else if after.len() == 0 || after[0] != ':' {
            Err(ErrorView::Protocol("missing file path"@))
        } else {
            Ok((rest.take(end), after.skip(1)))
        }
    } else {
        let end = char_index(t, ':') as int;
        if end == t.len() {
            Err(ErrorView::Protocol("target must be HOST:FILE"@))
        } else if end == 0 {
            Err(ErrorView::Protocol("empty host"@))
        } else {
            Ok((t.take(end), t.skip(end + 1)))
        }
    }
}

/// The host and the file that a target names.
pub fn parse_target(target: &str) -> (r: Result<(String, String), TftpError>)
    ensures
        match r {
            Ok((host, file)) => target_parts(target@) == Ok::<(Seq<char>, Seq<char>), ErrorView>(
                (host@, file@),
            ),
            Err(e) => target_parts(target@) == Err::<(Seq<char>, Seq<char>), ErrorView>(e@),
        },
{
    if opens_with(target, '[') {
        let rest = text_from(target, 1);
        match find_char(rest, ']') {
            None => Err(TftpError::protocol("invalid IPv6 host")),
            Some(end) => {
                if end == 0 {
                    return Err(TftpError::protocol("empty IPv6 host"));
                }
                let after = text_from(rest, end + 1);
                if opens_with(after, ':') {
                    Ok((text_to(rest, end).to_owned(), text_from(after, 1).to_owned()))
                } else {
                    Err(TftpError::protocol("missing file path"))
                }
            },
        }
    } else {
        match find_char(target, ':') {
            None => Err(TftpError::protocol("target must be HOST:FILE")),
            Some(end) => {
                if end == 0 {
                    return Err(TftpError::protocol("empty host"));
                }
                Ok((text_to(target, end).to_owned(), text_from(target, end + 1).to_owned()))
            },
        }
    }
}

proof fn lemma_char_index_found(s: Seq<char>, c: char, i: int)
    requires
        0 <= i < s.len(),
        s[i] == c,
        forall|j: int| 0 <= j < i ==> #[trigger] s[j] != c,
    ensures
        char_index(s, c) == i,
{
    char_index_is_first(s, c);
    if char_index(s, c) < i {
        assert(s[char_index(s, c) as int] != c);
    }
}

/// A host without a colon that does not open with a bracket, joined to any
/// file by a colon, is taken apart again; so is a host without a closing
/// bracket, put in brackets.
pub proof fn target_is_taken_apart(host: Seq<char>, file: Seq<char>)
    requires
        host.len() > 0,
    ensures
        host[0] != '[' && char_index(host, ':') == host.len() ==> target_parts(
            host.push(':') + file,
        ) == Ok::<(Seq<char>, Seq<char>), ErrorView>((host, file)),
        char_index(host, ']') == host.len() ==> target_parts(
            seq!['['] + host + seq![']', ':'] + file,
        ) == Ok::<(Seq<char>, Seq<char>), ErrorView>((host, file)),
{
    if host[0] != '[' && char_index(host, ':') == host.len() {
        let t = host.push(':') + file;
        char_index_is_first(host, ':');
        assert forall|j: int| 0 <= j < host.len() implies #[trigger] t[j] != ':' by {
            assert(t[j] == host[j]);
        }
        lemma_char_index_found(t, ':', host.len() as int);
        assert(t.take(host.len() as int) =~= host);
        assert(t.skip(host.len() as int + 1) =~= file);
    }
    if char_index(host, ']') == host.len() {
        let t = seq!['['] + host + seq![']', ':'] + file;
        let rest = t.skip(1);
        char_index_is_first(host, ']');
        assert forall|j: int| 0 <= j < host.len() implies #[trigger] rest[j] != ']' by {
            assert(rest[j] == host[j]);
        }
        assert(rest[host.len() as int] == ']');
        lemma_char_index_found(rest, ']', host.len() as int);
        assert(rest.take(host.len() as int) =~= host);
        assert(rest.skip(host.len() as int + 1).skip(1) =~= file);
    }
}

} // verus!
