//! Addresses of the other side of a transfer.

use crate::error::{ErrorView, TftpError};
use crate::transfer::{is_retryable, retryable};
use vstd::prelude::*;
use vstd::string::*;

verus! {

/// The address and the port of a socket. `ip` is the address as a number, its
/// first byte the most significant.
#[derive(Debug, Clone, Copy, PartialEq, Eq, Structural)]
pub enum Peer {
    V4 { ip: u32, port: u16 },
    V6 { ip: u128, port: u16, flowinfo: u32, scope_id: u32 },
}

/// The address as one of version 6: a version 4 address stands in the last
/// four bytes of `::ffff:0:0/96`.
pub open spec fn mapped(p: Peer) -> Peer {
    match p {
        Peer::V4 { ip, port } => Peer::V6 {
            ip: (0xffff_0000_0000 + ip) as u128,
            port,
            flowinfo: 0,
            scope_id: 0,
        },
        Peer::V6 { .. } => p,
    }
}

/// The port of an address.
pub open spec fn port_of(p: Peer) -> u16 {
    match p {
        Peer::V4 { port, .. } => port,
        Peer::V6 { port, .. } => port,
    }
}

/// The address with another port.
pub open spec fn with_port(p: Peer, port: u16) -> Peer {
    match p {
        Peer::V4 { ip, .. } => Peer::V4 { ip, port },
        Peer::V6 { ip, flowinfo, scope_id, .. } => Peer::V6 { ip, port, flowinfo, scope_id },
    }
}

impl Peer {
    /// Whether the address is of version 4.
    pub fn is_ipv4(&self) -> (r: bool)
        ensures
            r == (*self is V4),
    {
        match self {
            Peer::V4 { .. } => true,
            Peer::V6 { .. } => false,
        }
    }

    /// The address as one of version 6.
    fn mapped(self) -> (r: Peer)
        ensures
            r == mapped(self),
    {
        match self {
            Peer::V4 { ip, port } => Peer::V6 {
                ip: 0xffff_0000_0000 + (ip as u128),
                port,
                flowinfo: 0,
                scope_id: 0,
            },
            other => other,
        }
    }

    /// The address to answer to: the host stays, and the port is that of the
    /// latest packet, unless that is 0.
    pub fn follow(self, from: Peer) -> (r: Peer)
        ensures
            r == (if port_of(from) != 0 {
                with_port(self, port_of(from))
            } else {
                self
            }),
    {
        let from_port: u16 = match from {
            Peer::V4 { port, .. } => port,
            Peer::V6 { port, .. } => port,
        };
        if from_port == 0 {
            return self;
        }
        match self {
            Peer::V4 { ip, .. } => Peer::V4 { ip, port: from_port },
            Peer::V6 { ip, flowinfo, scope_id, .. } => Peer::V6 {
                ip,
                port: from_port,
                flowinfo,
                scope_id,
            },
        }
    }

    /// The local address, of the same version and with a port of the
    /// system's choice, from which to talk to this one.
    pub fn bind_address(&self) -> (s: &'static str)
        ensures
            s@ == (if *self is V4 {
                "0.0.0.0:0"@
            } else {
                "[::]:0"@
            }),
    {
        if self.is_ipv4() {
            "0.0.0.0:0"
        } else {
            "[::]:0"
        }
    }
}

/// Whether two addresses name the same peer. A socket for both versions shows
/// a version 4 peer under its mapped address.
pub fn peers_match(a: Peer, b: Peer) -> (r: bool)
    ensures
        r == (mapped(a) == mapped(b)),
{
    a == b || a.mapped() == b.mapped()
}

/// Matching is an equivalence: every address matches itself and its mapped
/// form, and two that match the same one match each other.
pub proof fn matching_is_an_equivalence(a: Peer, b: Peer, c: Peer)
    ensures
        mapped(a) == mapped(mapped(a)),
        mapped(a) == mapped(b) && mapped(b) == mapped(c) ==> mapped(a) == mapped(c),
        mapped(a) == mapped(b) ==> port_of(a) == port_of(b),
        a is V4 && b is V4 && mapped(a) == mapped(b) ==> a == b,
        a is V6 && b is V6 && mapped(a) == mapped(b) ==> a == b,
{
}

/// The place of the first address of the wanted version, or the length where
/// there is none.
pub open spec fn first_of_version(addrs: Seq<Peer>, v6: bool) -> nat
    decreases addrs.len(),
{
    if addrs.len() == 0 || (addrs[0] is V6) == v6 {
        0
    } else {
        1 + first_of_version(addrs.drop_first(), v6)
    }
}

/// The address to use of those that a name has: the first of the preferred
/// version, or else the first.
pub open spec fn picked(addrs: Seq<Peer>, prefer_v6: bool) -> Peer {
    let i = first_of_version(addrs, prefer_v6) as int;
    if i < addrs.len() {
        addrs[i]
    } else {
        addrs[0]
    }
}

/// The address of a host: `found` holds what looking its name up brought.
pub open spec fn resolved(
    host: Seq<char>,
    found: Result<Vec<Peer>, String>,
    prefer_v6: bool,
) -> Result<Peer, ErrorView> {
    match found {
        Err(text) => Err(ErrorView::Protocol("dns resolve "@ + host + ": "@ + text@)),
        Ok(addrs) => if addrs@.len() == 0 {
            Err(ErrorView::Protocol("no addresses for "@ + host))
        } else {
            Ok(picked(addrs@, prefer_v6))
        },
    }
}

pub(crate) proof fn lemma_first_of_version(addrs: Seq<Peer>, v6: bool, i: int)
    requires
        0 <= i <= addrs.len(),
        forall|j: int| 0 <= j < i ==> ((#[trigger] addrs[j]) is V6) != v6,
    ensures
        i < addrs.len() && (addrs[i] is V6) == v6 ==> first_of_version(addrs, v6) == i,
        i == addrs.len() ==> first_of_version(addrs, v6) == i,
    decreases addrs.len(),
{
    if addrs.len() > 0 && i > 0 {
        let rest = addrs.drop_first();
        assert((addrs[0] is V6) != v6);
        assert forall|j: int| 0 <= j < i - 1 implies ((#[trigger] rest[j]) is V6) != v6 by {
            assert(rest[j] == addrs[j + 1]);
        }
        lemma_first_of_version(rest, v6, i - 1);
        if i < addrs.len() {
            assert(rest[i - 1] == addrs[i]);
        }
    }
}

/// The address of `host`, where looking its name up brought `found`.
pub fn resolve(host: &str, found: Result<Vec<Peer>, String>, prefer_v6: bool) -> (r: Result<
    Peer,
    TftpError,
>)
    ensures
        match r {
            Ok(p) => resolved(host@, found, prefer_v6) == Ok::<Peer, ErrorView>(p),
            Err(e) => resolved(host@, found, prefer_v6) == Err::<Peer, ErrorView>(e@),
        },
{
    let addrs = match found {
        Err(text) => {
            return Err(
                TftpError::Protocol(
                    "dns resolve ".to_owned().concat(host).concat(": ").concat(text.as_str()),
                ),
            );
        },
        Ok(addrs) => addrs,
    };
    if addrs.len() == 0 {
        return Err(TftpError::Protocol("no addresses for ".to_owned().concat(host)));
    }
    let mut i: usize = 0;
    while i < addrs.len()
        invariant
            i <= addrs.len(),
            addrs.len() > 0,
            found == Ok::<Vec<Peer>, String>(addrs),
            forall|j: int| 0 <= j < i ==> ((#[trigger] addrs@[j]) is V6) != prefer_v6,
        decreases addrs.len() - i,
    {
        if addrs[i].is_ipv4() != prefer_v6 {
            proof {
                lemma_first_of_version(addrs@, prefer_v6, i as int);
            }
            return Ok(addrs[i]);
        }
        i = i + 1;
    }
    proof {
        lemma_first_of_version(addrs@, prefer_v6, i as int);
    }
    Ok(addrs[0])
}

/// The addresses of the wanted version, in order.
pub open spec fn of_version(addrs: Seq<Peer>, v6: bool) -> Seq<Peer>
    decreases addrs.len(),
{
    if addrs.len() == 0 {
        Seq::empty()
    } else if (addrs.last() is V6) == v6 {
        of_version(addrs.drop_last(), v6).push(addrs.last())
    } else {
        of_version(addrs.drop_last(), v6)
    }
}

/// The addresses in the order in which to try them: those of the preferred
/// version, then the others.
pub open spec fn by_preference(addrs: Seq<Peer>, prefer_v6: bool) -> Seq<Peer> {
    of_version(addrs, prefer_v6) + of_version(addrs, !prefer_v6)
}

fn select_version(addrs: &Vec<Peer>, v6: bool) -> (r: Vec<Peer>)
    ensures
        r@ == of_version(addrs@, v6),
{
    let mut out: Vec<Peer> = Vec::new();
    let mut i: usize = 0;
    assert(addrs@.take(0) =~= Seq::empty());
    while i < addrs.len()
        invariant
            i <= addrs.len(),
            out@ == of_version(addrs@.take(i as int), v6),
        decreases addrs.len() - i,
    {
        assert(addrs@.take(i + 1).drop_last() =~= addrs@.take(i as int));
        if addrs[i].is_ipv4() != v6 {
            out.push(addrs[i]);
        }
        i = i + 1;
    }
    assert(addrs@.take(i as int) =~= addrs@);
    out
}

/// The addresses of `host` in the order in which to try them, where looking
/// its name up brought `found`.
pub fn candidates(host: &str, found: Result<Vec<Peer>, String>, prefer_v6: bool) -> (r: Result<
    Vec<Peer>,
    TftpError,
>)
    ensures
        match r {
            Ok(v) => found matches Ok(addrs) && resolved(host@, found, prefer_v6) is Ok && v@
                == by_preference(addrs@, prefer_v6),
            Err(e) => resolved(host@, found, prefer_v6) == Err::<Peer, ErrorView>(e@),
        },
{
    match found {
        Err(text) => Err(
            TftpError::Protocol(
                "dns resolve ".to_owned().concat(host).concat(": ").concat(text.as_str()),
            ),
        ),
        Ok(addrs) => {
            if addrs.len() == 0 {
                return Err(TftpError::Protocol("no addresses for ".to_owned().concat(host)));
            }
            let mut out = select_version(&addrs, prefer_v6);
            let mut rest = select_version(&addrs, !prefer_v6);
            out.append(&mut rest);
            Ok(out)
        },
    }
}

/// Whether a failure to reach one address is a reason to try the next one: not
/// where the other side has answered.
pub fn tries_next_address(e: &TftpError) -> (r: bool)
    ensures
        r == (e@ is Io || retryable(e@)),
{
    match e {
        TftpError::Io(_) => true,
        other => is_retryable(other),
    }
}

/// Every address is tried once: the order by preference holds the addresses
/// that were found, and the one that is picked alone comes first.
pub proof fn every_address_is_tried(addrs: Seq<Peer>, prefer_v6: bool)
    requires
        addrs.len() > 0,
    ensures
        by_preference(addrs, prefer_v6).to_multiset() == addrs.to_multiset(),
        by_preference(addrs, prefer_v6).len() == addrs.len(),
        by_preference(addrs, prefer_v6)[0] == picked(addrs, prefer_v6),
{
    lemma_versions_part(addrs, prefer_v6);
    lemma_first_selected(addrs, prefer_v6);
    lemma_first_selected(addrs, !prefer_v6);
    let a = of_version(addrs, prefer_v6);
    let b = of_version(addrs, !prefer_v6);
    vstd::seq_lib::lemma_multiset_commutative(a, b);
    if a.len() > 0 {
        assert((a + b)[0] == a[0]);
    } else {
        assert((a + b)[0] == b[0]);
        lemma_all_other(addrs, prefer_v6);
    }
}

proof fn lemma_versions_part(addrs: Seq<Peer>, v6: bool)
    ensures
        of_version(addrs, v6).len() + of_version(addrs, !v6).len() == addrs.len(),
        of_version(addrs, v6).to_multiset().add(of_version(addrs, !v6).to_multiset())
            == addrs.to_multiset(),
    decreases addrs.len(),
{
    broadcast use vstd::seq_lib::group_to_multiset_ensures;

    if addrs.len() > 0 {
        let front = addrs.drop_last();
        lemma_versions_part(front, v6);
        assert(front.push(addrs.last()) =~= addrs);
        let x = of_version(front, v6).to_multiset();
        let y = of_version(front, !v6).to_multiset();
        assert(x.insert(addrs.last()).add(y) =~= x.add(y).insert(addrs.last()));
        assert(x.add(y.insert(addrs.last())) =~= x.add(y).insert(addrs.last()));
    } else {
        assert(of_version(addrs, v6).to_multiset().add(of_version(addrs, !v6).to_multiset())
            =~= addrs.to_multiset());
    }
}

proof fn lemma_first_selected(addrs: Seq<Peer>, v6: bool)
    ensures
        of_version(addrs, v6).len() > 0 <==> first_of_version(addrs, v6) < addrs.len(),
        of_version(addrs, v6).len() > 0 ==> of_version(addrs, v6)[0] == addrs[first_of_version(
            addrs,
            v6,
        ) as int],
    decreases addrs.len(),
{
    if addrs.len() > 0 {
        let front = addrs.drop_last();
        lemma_first_selected(front, v6);
        lemma_first_of_front(addrs, v6);
    }
}

proof fn lemma_first_of_front(addrs: Seq<Peer>, v6: bool)
    requires
        addrs.len() > 0,
    ensures
        first_of_version(addrs.drop_last(), v6) <= addrs.len() - 1,
        first_of_version(addrs, v6) == (if first_of_version(addrs.drop_last(), v6) < addrs.len()
            - 1 {
            first_of_version(addrs.drop_last(), v6)
        } else if (addrs.last() is V6) == v6 {
            (addrs.len() - 1) as nat
        } else {
            addrs.len()
        }),
    decreases addrs.len(),
{
    reveal_with_fuel(first_of_version, 2);
    if addrs.len() > 1 && (addrs[0] is V6) != v6 {
        lemma_first_of_front(addrs.drop_first(), v6);
        assert(addrs.drop_first().drop_last() =~= addrs.drop_last().drop_first());
    }
}

proof fn lemma_all_other(addrs: Seq<Peer>, v6: bool)
    requires
        addrs.len() > 0,
        of_version(addrs, v6).len() == 0,
    ensures
        of_version(addrs, !v6) == addrs,
        first_of_version(addrs, v6) == addrs.len(),
    decreases addrs.len(),
{
    reveal_with_fuel(of_version, 2);
    lemma_first_selected(addrs, v6);
    lemma_first_of_front(addrs, v6);
    let front = addrs.drop_last();
    if front.len() > 0 {
        lemma_all_other(front, v6);
    }
    assert(of_version(addrs, !v6) =~= addrs);
}

} // verus!
