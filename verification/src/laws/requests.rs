//! Laws of targets, requests, addresses, retries and error reports.

use crate::client::{
    asked_for, get_request, get_settled, put_request, put_settled, request_options, Client,
};
use crate::commands::{build_client, listen_address, parse_auto_get, AutoGet};
use crate::error::{code_message, code_name, error_message, ErrorView, TftpError, TftpErrorCode};
use crate::laws::negotiation::held;
use crate::options::{
    insert_entry, insert_keeps_order, lookup, lookup_after_insert, option_names_differ, sorted,
    Entries, Negotiation, BLKSIZE, TIMEOUT, TSIZE, WINDOWSIZE,
};
use crate::packet::{packet_text, Packet, PacketView};
use crate::peer::{candidates, of_version, peers_match, resolve, tries_next_address, Peer};
use crate::session::ClientConfig;
use crate::text::{char_index, char_index_is_first, decimal, parse_unsigned};
use crate::transfer::{
    delay_at, is_retryable, parse_target, retryable, target_is_taken_apart, wait_at, wait_secs,
    waits_double, AfterFailure, Retry,
};
use vstd::prelude::*;
use vstd::string::*;

verus! {

/// Whether a character does not occur in a text.
pub open spec fn lacks(s: Seq<char>, c: char) -> bool {
    forall|i: int| 0 <= i < s.len() ==> #[trigger] s[i] != c
}

proof fn lemma_lacks(s: Seq<char>, c: char)
    ensures
        lacks(s, c) <==> char_index(s, c) == s.len(),
{
    char_index_is_first(s, c);
}

proof fn lemma_split(s: Seq<char>, c: char)
    ensures
        !lacks(s, c) ==> ({
            let i = char_index(s, c) as int;
            &&& 0 <= i < s.len()
            &&& lacks(s.take(i), c)
            &&& s == s.take(i) + seq![c] + s.skip(i + 1)
        }),
{
    char_index_is_first(s, c);
    lemma_lacks(s, c);
    let i = char_index(s, c) as int;
    if i < s.len() {
        assert forall|j: int| 0 <= j < s.take(i).len() implies #[trigger] s.take(i)[j] != c by {
            assert(s.take(i)[j] == s[j]);
        }
        assert(s =~= s.take(i) + seq![c] + s.skip(i + 1));
    }
}

/// A target is a host and a file with a colon between them: the host goes up to
/// the first colon, the file is all that follows it. A host in brackets goes up
/// to the closing one and may hold colons.
pub proof fn targets_are_host_and_file(
    host: Seq<char>,
    file: Seq<char>,
    t: &str,
    r: Result<(String, String), TftpError>,
)
    requires
        call_ensures(parse_target, (t,), r),
    ensures
        t@ == host + seq![':'] + file && host.len() > 0 && host[0] != '[' && lacks(host, ':') ==> (
        r matches Ok((h, f)) && h@ == host && f@ == file),
        t@ == seq!['['] + host + seq![']', ':'] + file && host.len() > 0 && lacks(host, ']') ==> (
        r matches Ok((h, f)) && h@ == host && f@ == file),
        r matches Ok((h, f)) ==> h@.len() > 0 && (t@ == h@ + seq![':'] + f@ || t@ == seq!['['] + h@
            + seq![']', ':'] + f@),
{
    lemma_lacks(host, ':');
    lemma_lacks(host, ']');
    if host.len() > 0 {
        target_is_taken_apart(host, file);
        assert(host.push(':') + file =~= host + seq![':'] + file);
    }
    lemma_split(t@, ':');
    lemma_lacks(t@, ':');
    if t@.len() > 0 && t@[0] == '[' {
        let rest = t@.skip(1);
        lemma_split(rest, ']');
        lemma_lacks(rest, ']');
        let end = char_index(rest, ']') as int;
        if end < rest.len() {
            let after = rest.skip(end + 1);
            if after.len() > 0 && after[0] == ':' {
                assert(t@ =~= seq!['['] + rest);
                assert(rest =~= rest.take(end) + seq![']'] + after);
                assert(after =~= seq![':'] + after.skip(1));
                assert(t@ =~= seq!['['] + rest.take(end) + seq![']', ':'] + after.skip(1));
            }
        }
    }
}

/// What is wrong with a target that is none: without brackets, that there is no
/// colon or nothing before it; with one, that there is no closing bracket,
/// nothing in the brackets, or no colon after them.
pub proof fn wrong_targets_are_reported(
    t: &str,
    inside: Seq<char>,
    after: Seq<char>,
    r: Result<(String, String), TftpError>,
)
    requires
        call_ensures(parse_target, (t,), r),
    ensures
        (t@.len() == 0 || t@[0] != '[') && lacks(t@, ':') ==> (r matches Err(e) && e@
            == ErrorView::Protocol("target must be HOST:FILE"@)),
        t@.len() > 0 && t@[0] == ':' ==> (r matches Err(e) && e@ == ErrorView::Protocol(
            "empty host"@,
        )),
        t@.len() > 0 && t@[0] == '[' && lacks(t@, ']') ==> (r matches Err(e) && e@
            == ErrorView::Protocol("invalid IPv6 host"@)),
        t@ == seq!['[', ']'] + after ==> (r matches Err(e) && e@ == ErrorView::Protocol(
            "empty IPv6 host"@,
        )),
        t@ == seq!['['] + inside + seq![']'] + after && inside.len() > 0 && lacks(inside, ']') && (
        after.len() == 0 || after[0] != ':') ==> (r matches Err(e) && e@ == ErrorView::Protocol(
            "missing file path"@,
        )),
{
    lemma_lacks(t@, ':');
    lemma_lacks(t@, ']');
    char_index_is_first(t@, ':');
    if t@.len() > 0 {
        let rest = t@.skip(1);
        char_index_is_first(rest, ']');
        let end = char_index(rest, ']') as int;
        if lacks(t@, ']') && end < rest.len() {
            assert(t@[end + 1] == rest[end]);
        }
        if t@ == seq!['[', ']'] + after {
            assert(rest[0] == ']');
        }
        if t@ == seq!['['] + inside + seq![']'] + after && inside.len() > 0 && lacks(inside, ']') {
            let n = inside.len() as int;
            assert(rest[n] == ']');
            assert forall|j: int| 0 <= j < n implies #[trigger] rest[j] != ']' by {
                assert(rest[j] == inside[j]);
            }
            assert(end == n);
            assert(rest.skip(n + 1) =~= after);
        }
    }
}

/// The options of a request: block size, timeout and window as the client is
/// set up, and no others.
pub proof fn requests_ask_for_what_is_set_up(cfg: ClientConfig, other: Seq<char>)
    ensures
        sorted(request_options(cfg)),
        lookup(request_options(cfg), "blksize"@) == Some(decimal(cfg.blksize as nat)),
        lookup(request_options(cfg), "timeout"@) == Some(decimal(cfg.timeout_secs as nat)),
        lookup(request_options(cfg), "windowsize"@) == Some(decimal(cfg.windowsize as nat)),
        other != "blksize"@ && other != "timeout"@ && other != "windowsize"@ ==> lookup(
            request_options(cfg),
            other,
        ) is None,
        asked_for(cfg).blksize == cfg.blksize,
        asked_for(cfg).timeout == cfg.timeout_secs,
        asked_for(cfg).windowsize == cfg.windowsize,
        asked_for(cfg).tsize is None,
{
    option_names_differ();
    let e = Entries::empty();
    let a = insert_entry(e, BLKSIZE@, decimal(cfg.blksize as nat));
    let b = insert_entry(a, TIMEOUT@, decimal(cfg.timeout_secs as nat));
    insert_keeps_order(e, BLKSIZE@, decimal(cfg.blksize as nat));
    insert_keeps_order(a, TIMEOUT@, decimal(cfg.timeout_secs as nat));
    insert_keeps_order(b, WINDOWSIZE@, decimal(cfg.windowsize as nat));
    lemma_three(e, a, b, cfg, BLKSIZE@);
    lemma_three(e, a, b, cfg, TIMEOUT@);
    lemma_three(e, a, b, cfg, WINDOWSIZE@);
    lemma_three(e, a, b, cfg, other);
}

proof fn lemma_three(e: Entries, a: Entries, b: Entries, cfg: ClientConfig, name: Seq<char>)
    requires
        e == Entries::empty(),
        a == insert_entry(e, BLKSIZE@, decimal(cfg.blksize as nat)),
        b == insert_entry(a, TIMEOUT@, decimal(cfg.timeout_secs as nat)),
        sorted(a),
        sorted(b),
    ensures
        lookup(request_options(cfg), name) == (if name == WINDOWSIZE@ {
            Some(decimal(cfg.windowsize as nat))
        } else if name == TIMEOUT@ {
            Some(decimal(cfg.timeout_secs as nat))
        } else if name == BLKSIZE@ {
            Some(decimal(cfg.blksize as nat))
        } else {
            None
        }),
{
    lookup_after_insert(e, BLKSIZE@, decimal(cfg.blksize as nat), name);
    lookup_after_insert(a, TIMEOUT@, decimal(cfg.timeout_secs as nat), name);
    lookup_after_insert(b, WINDOWSIZE@, decimal(cfg.windowsize as nat), name);
}

/// A read request goes to the host of the target and names its file, as it
/// stands there, in octet mode. Where the target is none, there is no request.
pub proof fn read_requests_name_the_file(
    c: &Client,
    t: &str,
    parts: Result<(String, String), TftpError>,
    r: Result<(String, Packet), TftpError>,
    file: Seq<char>,
)
    requires
        call_ensures(parse_target, (t,), parts),
        call_ensures(Client::get, (c, t), r),
    ensures
        match parts {
            Ok((host, name)) => r matches Ok((h, p)) && h@ == host@ && p@ == (PacketView::Rrq {
                filename: name@,
                mode: "octet"@,
                options: request_options(c.cfg),
            }),
            Err(e) => r matches Err(x) && x@ == e@,
        },
        get_request(c.cfg, file) == (PacketView::Rrq {
            filename: file,
            mode: "octet"@,
            options: request_options(c.cfg),
        }),
{
}

/// For a host without a colon or a bracket, and any file, the request to read
/// `host:file` names that file, unchanged.
pub proof fn files_are_asked_for_unchanged(
    c: &Client,
    host: Seq<char>,
    file: Seq<char>,
    t: &str,
    r: Result<(String, Packet), TftpError>,
    w: Result<(String, Packet), TftpError>,
    total: u64,
)
    requires
        host.len() > 0,
        lacks(host, ':'),
        host[0] != '[',
        t@ == host + seq![':'] + file,
        call_ensures(Client::get, (c, t), r),
        call_ensures(Client::put, (c, t, total), w),
    ensures
        r matches Ok((h, p)) && h@ == host && (p@ matches PacketView::Rrq { filename, .. }
            && filename == file),
        w matches Ok((h, p)) && h@ == host && (p@ matches PacketView::Wrq { filename, .. }
            && filename == file),
{
    lemma_lacks(host, ':');
    target_is_taken_apart(host, file);
    assert(host.push(':') + file =~= host + seq![':'] + file);
}

/// A write request goes to the host of the target, names its file, in octet
/// mode, and adds the size of the file to what every request asks for.
pub proof fn write_requests_name_the_file(
    c: &Client,
    t: &str,
    total: u64,
    parts: Result<(String, String), TftpError>,
    r: Result<(String, Packet), TftpError>,
    other: Seq<char>,
)
    requires
        call_ensures(parse_target, (t,), parts),
        call_ensures(Client::put, (c, t, total), r),
    ensures
        match parts {
            Ok((host, name)) => r matches Ok((h, p)) && h@ == host@ && (
            p@ matches PacketView::Wrq { filename, mode, options } && {
                &&& filename == name@
                &&& mode == "octet"@
                &&& lookup(options, "tsize"@) == Some(decimal(total as nat))
                &&& other != "tsize"@ ==> lookup(options, other) == lookup(
                    request_options(c.cfg),
                    other,
                )
                &&& p@ == put_request(c.cfg, name@, total)
            }),
            Err(e) => r matches Err(x) && x@ == e@,
        },
{
    requests_ask_for_what_is_set_up(c.cfg, other);
    lookup_after_insert(request_options(c.cfg), TSIZE@, decimal(total as nat), TSIZE@);
    lookup_after_insert(request_options(c.cfg), TSIZE@, decimal(total as nat), other);
}

/// What the answer to a read request settles: an OACK sets what it rules on and
/// is to be acknowledged, the first block leaves the defaults, and anything
/// else ends the transfer.
pub proof fn answers_settle_a_read(
    c: &Client,
    p: &Packet,
    r: Result<(Negotiation, bool), TftpError>,
)
    requires
        call_ensures(Client::negotiate_get, (c, p), r),
    ensures
        match p@ {
            PacketView::Oack { options } => r matches Ok((n, true)) && settled_by(n, options),
            PacketView::Data { block, .. } => if block == 1 {
                r matches Ok((n, false)) && settled_by(n, Entries::empty())
            } else {
                r matches Err(e) && e@ == ErrorView::Protocol(
                    "unexpected reply: "@ + packet_text(p@),
                )
            },
            PacketView::Error { code, message } => r matches Err(e) && e@ == (ErrorView::Remote {
                code,
                message,
            }),
            _ => r matches Err(e) && e@ == ErrorView::Protocol(
                "unexpected reply: "@ + packet_text(p@),
            ),
        },
        match r {
            Ok(x) => get_settled(p@) == Ok::<(Negotiation, bool), ErrorView>(x),
            Err(e) => get_settled(p@) == Err::<(Negotiation, bool), ErrorView>(e@),
        },
{
}

/// Whether parameters are the defaults, but for what the options hold.
pub open spec fn settled_by(n: Negotiation, es: Entries) -> bool {
    &&& match held(es, "blksize"@, 65535) {
        Some(v) => n.blksize == v,
        None => n.blksize == 512,
    }
    &&& match held(es, "timeout"@, 65535) {
        Some(v) => n.timeout == v,
        None => n.timeout == 5,
    }
    &&& match held(es, "windowsize"@, 65535) {
        Some(v) => n.windowsize == v,
        None => n.windowsize == 1,
    }
    &&& match held(es, "tsize"@, u64::MAX as nat) {
        Some(v) => n.tsize == Some(v as u64),
        None => n.tsize is None,
    }
}

/// What the answer to a write request settles: an OACK sets what it rules on,
/// the acknowledgement of block 0 leaves the defaults, and anything else ends
/// the transfer.
pub proof fn answers_settle_a_write(c: &Client, p: &Packet, r: Result<Negotiation, TftpError>)
    requires
        call_ensures(Client::negotiate_put, (c, p), r),
    ensures
        match p@ {
            PacketView::Oack { options } => r matches Ok(n) && settled_by(n, options),
            PacketView::Ack { block } => if block == 0 {
                r matches Ok(n) && settled_by(n, Entries::empty())
            } else {
                r matches Err(e) && e@ == ErrorView::Protocol(
                    "unexpected reply: "@ + packet_text(p@),
                )
            },
            PacketView::Error { code, message } => r matches Err(e) && e@ == (ErrorView::Remote {
                code,
                message,
            }),
            _ => r matches Err(e) && e@ == ErrorView::Protocol(
                "unexpected reply: "@ + packet_text(p@),
            ),
        },
        match r {
            Ok(x) => put_settled(p@) == Ok::<Negotiation, ErrorView>(x),
            Err(e) => put_settled(p@) == Err::<Negotiation, ErrorView>(e@),
        },
{
}

/// A client is what it was made from: the configuration, and the preference,
/// which is for version 4 unless it is changed.
pub proof fn clients_are_as_set_up(
    cfg: ClientConfig,
    v: bool,
    c: Client,
    d: Client,
    shown: &ClientConfig,
)
    requires
        call_ensures(Client::new, (cfg,), c),
        call_ensures(Client::prefer_ipv6, (c, v), d),
        call_ensures(Client::config, (&d,), shown),
    ensures
        !c.prefer_v6,
        c.cfg == cfg,
        d.prefer_v6 == v,
        d.cfg == cfg,
        *shown == cfg,
{
}

/// A command line sets up what it says; one that asks for a resumption starts
/// over.
pub proof fn command_lines_set_up_clients(
    blksize: u16,
    timeout: u16,
    window: u16,
    retries: u32,
    resume: bool,
    ipv6: bool,
    c: Client,
)
    requires
        call_ensures(build_client, (blksize, timeout, window, retries, resume, ipv6), c),
    ensures
        c.cfg.blksize == blksize,
        c.cfg.timeout_secs == timeout,
        c.cfg.windowsize == window,
        c.cfg.retries == retries,
        c.cfg.resume_from_block == 0,
        c.prefer_v6 == ipv6,
{
}

/// A server listens on all addresses of the version, at the port.
pub proof fn servers_listen_everywhere(port: u16, ipv6: bool, s: String)
    requires
        call_ensures(listen_address, (port, ipv6), s),
    ensures
        ipv6 ==> s@ == seq!['[', ':', ':', ']', ':'] + decimal(port as nat),
        !ipv6 ==> s@ == seq!['0', '.', '0', '.', '0', '.', '0', ':'] + decimal(port as nat),
{
    reveal_strlit("[::]:");
    reveal_strlit("0.0.0.0:");
    assert("[::]:"@ =~= seq!['[', ':', ':', ']', ':']);
    assert("0.0.0.0:"@ =~= seq!['0', '.', '0', '.', '0', '.', '0', ':']);
}

/// A download to start with is read from four parts between three commas: the
/// host, the port, the file, and the local path, which may hold commas.
pub proof fn downloads_are_read_from_four_parts(
    host: Seq<char>,
    port: Seq<char>,
    file: Seq<char>,
    local: Seq<char>,
    s: &str,
    r: Option<AutoGet>,
)
    requires
        call_ensures(parse_auto_get, (s,), r),
        lacks(host, ','),
        lacks(port, ','),
        lacks(file, ','),
    ensures
        s@ == host + seq![','] + (port + seq![','] + (file + seq![','] + local))
            ==> match parse_unsigned(port, 65535) {
            Some(n) => r matches Some(a) && a.host@ == host && a.port == n && a.file@ == file
                && a.local@ == local,
            None => r is None,
        },
        s@ == host ==> r is None,
        s@ == host + seq![','] + port ==> r is None,
        s@ == host + seq![','] + (port + seq![','] + file) ==> r is None,
{
    lemma_cut(host, port + seq![','] + (file + seq![','] + local));
    lemma_cut(port, file + seq![','] + local);
    lemma_cut(file, local);
    lemma_cut(host, port);
    lemma_cut(host, port + seq![','] + file);
    lemma_cut(port, file);
}

proof fn lemma_cut(a: Seq<char>, b: Seq<char>)
    requires
        lacks(a, ','),
    ensures
        crate::commands::split_at_comma(a) is None,
        crate::commands::split_at_comma(a + seq![','] + b) == Some((a, b)),
{
    let s = a + seq![','] + b;
    lemma_lacks(a, ',');
    char_index_is_first(s, ',');
    let i = char_index(s, ',') as int;
    assert(s[a.len() as int] == ',');
    if i < a.len() {
        assert(s[i] == a[i]);
    }
    assert(i == a.len());
    assert(s.take(i) =~= a);
    assert(s.skip(i + 1) =~= b);
}

/// Two addresses match where they are the same, or where one is the other,
/// written as an address of version 6.
pub proof fn addresses_match_across_versions(
    ip: u32,
    port: u16,
    ip6: u128,
    port6: u16,
    flowinfo: u32,
    scope_id: u32,
    other: Peer,
    r4: bool,
    r6: bool,
    r46: bool,
)
    requires
        call_ensures(peers_match, (Peer::V4 { ip, port }, other), r4),
        call_ensures(
            peers_match,
            (Peer::V6 { ip: ip6, port: port6, flowinfo, scope_id }, other),
            r6,
        ),
        call_ensures(
            peers_match,
            (Peer::V4 { ip, port }, Peer::V6 { ip: ip6, port: port6, flowinfo, scope_id }),
            r46,
        ),
    ensures
        other is V4 ==> (r4 <==> other == (Peer::V4 { ip, port })),
        other is V6 ==> (r6 <==> other == (Peer::V6 { ip: ip6, port: port6, flowinfo, scope_id })),
        r46 <==> ip6 == 0xffff_0000_0000 + ip && port6 == port && flowinfo == 0 && scope_id == 0,
{
}

/// The address to answer to keeps the host and takes the port of the packet,
/// unless that is 0.
pub proof fn answers_go_to_the_latest_port(p: Peer, from: Peer, r: Peer)
    requires
        call_ensures(Peer::follow, (p, from), r),
    ensures
        ({
            let latest = match from {
                Peer::V4 { port, .. } => port,
                Peer::V6 { port, .. } => port,
            };
            match (p, r) {
                (Peer::V4 { ip, port }, Peer::V4 { ip: a, port: b }) => a == ip && b == (if latest
                    == 0 {
                    port
                } else {
                    latest
                }),
                (
                    Peer::V6 { ip, port, flowinfo, scope_id },
                    Peer::V6 { ip: a, port: b, flowinfo: f, scope_id: s },
                ) => a == ip && f == flowinfo && s == scope_id && b == (if latest == 0 {
                    port
                } else {
                    latest
                }),
                _ => false,
            }
        }),
{
}

/// A socket is bound to any address of the peer's version, at any port.
pub proof fn sockets_are_of_the_peers_version(p: &Peer, s: &'static str, v4: bool)
    requires
        call_ensures(Peer::bind_address, (p,), s),
        call_ensures(Peer::is_ipv4, (p,), v4),
    ensures
        v4 <==> p is V4,
        p is V4 ==> s@ == "0.0.0.0:0"@,
        p is V6 ==> s@ == "[::]:0"@,
{
}

/// The address that a name is resolved to is one that was found: the first of
/// the preferred version, or the first where none is of it. Where nothing was
/// found, or looking failed, that is reported.
pub proof fn names_resolve_to_a_preferred_address(
    host: &str,
    found: Result<Vec<Peer>, String>,
    v6: bool,
    i: int,
    r: Result<Peer, TftpError>,
)
    requires
        call_ensures(resolve, (host, found, v6), r),
    ensures
        match found {
            Err(text) => r matches Err(e) && e@ == ErrorView::Protocol(
                "dns resolve "@ + host@ + ": "@ + text@,
            ),
            Ok(addrs) => {
                &&& addrs@.len() == 0 ==> (r matches Err(e) && e@ == ErrorView::Protocol(
                    "no addresses for "@ + host@,
                ))
                &&& 0 <= i < addrs@.len() && (addrs@[i] is V6) == v6 && (forall|j: int|
                    0 <= j < i ==> ((#[trigger] addrs@[j]) is V6) != v6) ==> r == Ok::<
                    Peer,
                    TftpError,
                >(addrs@[i])
                &&& addrs@.len() > 0 && (forall|j: int|
                    0 <= j < addrs@.len() ==> ((#[trigger] addrs@[j]) is V6) != v6) ==> r == Ok::<
                    Peer,
                    TftpError,
                >(addrs@[0])
            },
        },
{
    if let Ok(addrs) = found {
        if 0 <= i < addrs@.len() && (forall|j: int|
            0 <= j < i ==> ((#[trigger] addrs@[j]) is V6) != v6) {
            crate::peer::lemma_first_of_version(addrs@, v6, i);
        }
        if forall|j: int| 0 <= j < addrs@.len() ==> ((#[trigger] addrs@[j]) is V6) != v6 {
            crate::peer::lemma_first_of_version(addrs@, v6, addrs@.len() as int);
        }
    }
}

/// The addresses to try are those that were found: first those of the preferred
/// version, then the others, each in the order in which they were found.
pub proof fn all_addresses_are_tried_in_order(
    host: &str,
    found: Result<Vec<Peer>, String>,
    v6: bool,
    r: Result<Vec<Peer>, TftpError>,
)
    requires
        call_ensures(candidates, (host, found, v6), r),
    ensures
        match found {
            Err(text) => r matches Err(e) && e@ == ErrorView::Protocol(
                "dns resolve "@ + host@ + ": "@ + text@,
            ),
            Ok(addrs) => if addrs@.len() == 0 {
                r matches Err(e) && e@ == ErrorView::Protocol("no addresses for "@ + host@)
            } else {
                r matches Ok(v) && v@ == addrs@.filter(|p: Peer| (p is V6) == v6) + addrs@.filter(
                    |p: Peer| (p is V6) != v6,
                )
            },
        },
{
    if let Ok(addrs) = found {
        lemma_of_version(addrs@, v6, |p: Peer| (p is V6) == v6);
        lemma_of_version(addrs@, !v6, |p: Peer| (p is V6) != v6);
    }
}

proof fn lemma_of_version(addrs: Seq<Peer>, v6: bool, f: spec_fn(Peer) -> bool)
    requires
        forall|p: Peer| #[trigger] f(p) == ((p is V6) == v6),
    ensures
        of_version(addrs, v6) == addrs.filter(f),
    decreases addrs.len(),
{
    reveal(Seq::filter);
    if addrs.len() > 0 {
        lemma_of_version(addrs.drop_last(), v6, f);
        assert(f(addrs.last()) == ((addrs.last() is V6) == v6));
    }
}

/// Which failures are worth another attempt, and which are a reason to try
/// another address.
pub proof fn failures_are_told_apart(e: &TftpError, again: bool, next: bool)
    requires
        call_ensures(is_retryable, (e,), again),
        call_ensures(tries_next_address, (e,), next),
    ensures
        again <==> e is Timeout || e is Protocol,
        next <==> e is Timeout || e is Protocol || e is Io,
        again == retryable(e@),
{
}

/// The time of an attempt: the first has the time that was given, each further
/// one twice that of the one before, but no more than the limit.
pub proof fn delays_double_up_to_the_limit(initial: int, max: int, k: nat)
    ensures
        delay_at(initial, max, 0) == initial,
        delay_at(initial, max, k + 1) == (if 2 * delay_at(initial, max, k) <= max {
            2 * delay_at(initial, max, k)
        } else {
            max
        }),
{
}

/// Attempts: there is a first one unless none are allowed. It has the time that
/// was given; with a timeout, that many seconds and eight times as many at
/// most.
pub proof fn attempts_start_with_the_first(
    initial: u64,
    max: u64,
    n: u32,
    r: Result<Retry, TftpError>,
    timeout: u16,
    q: Result<Retry, TftpError>,
)
    requires
        call_ensures(Retry::new, (initial, max, n), r),
        call_ensures(Retry::for_timeout, (timeout, n), q),
    ensures
        r is Ok <==> n > 0,
        q is Ok <==> n > 0,
        r matches Err(e) ==> e@ == (ErrorView::Timeout { retries: 0 }),
        q matches Err(e) ==> e@ == (ErrorView::Timeout { retries: 0 }),
        r matches Ok(a) ==> a@.initial == initial && a@.max == max && a@.max_retries == n
            && a@.attempt == 0,
        q matches Ok(a) ==> a@.initial == timeout && a@.max == 8 * timeout && a@.max_retries == n
            && a@.attempt == 0,
{
}

/// After a failure that is worth another attempt there is another one, as long
/// as one is left, after a pause as long as the time that the failed one had;
/// every other failure stands.
pub proof fn failed_attempts_are_repeated(a: Retry, e: TftpError, d: u64, r: AfterFailure)
    requires
        call_ensures(Retry::delay, (&a,), d),
        call_ensures(Retry::failed, (a, e), r),
    ensures
        d == delay_at(a@.initial, a@.max, a@.attempt),
        match r {
            AfterFailure::Again { pause, retry } => {
                &&& e is Timeout || e is Protocol
                &&& a@.attempt + 1 < a@.max_retries
                &&& pause == d
                &&& retry@.attempt == a@.attempt + 1
                &&& retry@.initial == a@.initial
                &&& retry@.max == a@.max
                &&& retry@.max_retries == a@.max_retries
            },
            AfterFailure::Failed(x) => {
                &&& !(e is Timeout || e is Protocol) || a@.attempt + 1 >= a@.max_retries
                &&& x == e
            },
        },
{
}

/// The waits of a transfer: the time that was settled, doubled with every
/// attempt in vain, up to 64 times.
pub proof fn waits_grow_from_the_timeout(timeout: u16, attempt: u32, first: u64, d: u64, next: u64)
    requires
        call_ensures(wait_secs, (timeout, 0u32), first),
        call_ensures(wait_secs, (timeout, attempt), d),
        attempt < u32::MAX,
        call_ensures(wait_secs, (timeout, (attempt + 1) as u32), next),
    ensures
        first == timeout,
        d == wait_at(timeout, attempt),
        attempt < 6 ==> next == 2 * d,
        attempt >= 6 ==> d == 64 * timeout && next == d,
{
    waits_double(timeout, attempt);
    waits_double(timeout, (attempt + 1) as u32);
}

/// The sentences that report failures.
pub proof fn failures_are_reported(e: &TftpError, s: String)
    requires
        call_ensures(TftpError::message, (e,), s),
    ensures
        s@ == error_message(e@),
        match e@ {
            ErrorView::Io(t) => s@ == "I/O error: "@ + t,
            ErrorView::Parse(t) => s@ == "invalid packet: "@ + t,
            ErrorView::Remote { code, message } => s@ == "remote sent ERROR "@ + code_name(code)
                + ": "@ + message,
            ErrorView::Timeout { retries } => s@ == "timeout after "@ + decimal(retries as nat)
                + " retries"@,
            ErrorView::Aborted => s@ == "transfer aborted by user"@,
            ErrorView::UnsupportedOption(t) => s@ == "unsupported option: "@ + t,
            ErrorView::InvalidBlockSize(v) => s@ == "invalid block size: "@ + decimal(v as nat),
            ErrorView::Protocol(t) => s@ == "protocol violation: "@ + t,
        },
{
}

/// The names of the error codes and the texts that describe them.
pub proof fn error_codes_have_their_texts(c: TftpErrorCode, name: &str, text: &str)
    requires
        call_ensures(TftpErrorCode::name, (c,), name),
        call_ensures(TftpErrorCode::default_message, (c,), text),
    ensures
        name@ == code_name(c) && text@ == code_message(c),
        match c {
            TftpErrorCode::NotDefined => name@ == "NotDefined"@ && text@ == "Not defined"@,
            TftpErrorCode::FileNotFound => name@ == "FileNotFound"@ && text@ == "File not found"@,
            TftpErrorCode::AccessViolation => name@ == "AccessViolation"@ && text@
                == "Access violation"@,
            TftpErrorCode::DiskFull => name@ == "DiskFull"@ && text@
                == "Disk full or allocation exceeded"@,
            TftpErrorCode::IllegalOperation => name@ == "IllegalOperation"@ && text@
                == "Illegal TFTP operation"@,
            TftpErrorCode::UnknownTransferId => name@ == "UnknownTransferId"@ && text@
                == "Unknown transfer ID"@,
            TftpErrorCode::FileAlreadyExists => name@ == "FileAlreadyExists"@ && text@
                == "File already exists"@,
            TftpErrorCode::NoSuchUser => name@ == "NoSuchUser"@ && text@ == "No such user"@,
            TftpErrorCode::OptionNegotiation => name@ == "OptionNegotiation"@ && text@
                == "Option negotiation failed"@,
        },
{
}

} // verus!
