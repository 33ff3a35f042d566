//! Laws of options and of the parameters that they settle.

use crate::error::{ErrorView, TftpError};
use crate::options::{
    blksize_in_range, default_negotiation, in_range, insert_entry, insert_keeps_order, lookup,
    lookup_after_insert, oack_applied, option_u16, option_u64, requested, sorted,
    timeout_in_range, validate_request, windowsize_in_range, Entries, Negotiation, Options,
    BLKSIZE, TIMEOUT, TSIZE, WINDOWSIZE,
};
use crate::session::{apply_negotiation, ClientConfig, TransferStats};
use crate::text::{decimal, parse_unsigned, text_before, text_order_is_total};
use vstd::prelude::*;
use vstd::string::*;

verus! {

/// What stands beside a name is the value of an entry with that name, and every
/// entry is found under its name.
pub proof fn entries_are_found_by_name(es: Entries, name: Seq<char>, i: int)
    requires
        sorted(es),
    ensures
        lookup(es, name) is None <==> (forall|j: int|
            0 <= j < es.len() ==> (#[trigger] es[j]).0 != name),
        lookup(es, name) matches Some(v) ==> es.contains((name, v)),
        0 <= i < es.len() ==> lookup(es, es[i].0) == Some(es[i].1),
    decreases es.len(),
{
    if es.len() > 0 {
        let rest = es.drop_first();
        assert forall|a: int, b: int| 0 <= a < b < rest.len() implies text_before(
            #[trigger] rest[a].0,
            #[trigger] rest[b].0,
        ) by {
            assert(rest[a] == es[a + 1] && rest[b] == es[b + 1]);
        }
        entries_are_found_by_name(rest, name, i - 1);
        assert forall|j: int| 1 <= j < es.len() implies #[trigger] es[j] == rest[j - 1] by {}
        if es[0].0 != name {
            if lookup(rest, name) is None {
                assert forall|j: int| 0 <= j < es.len() implies (#[trigger] es[j]).0 != name by {
                    if j > 0 {
                        assert(rest[j - 1].0 != name);
                    }
                }
            } else {
                let v = lookup(rest, name)->0;
                let j = choose|j: int| 0 <= j < rest.len() && rest[j] == (name, v);
                assert(es[j + 1] == (name, v));
            }
        } else {
            assert(es[0] == (name, es[0].1));
        }
        if 0 < i < es.len() {
            text_order_is_total(es[0].0, es[i].0, es[0].0);
            assert(text_before(es[0].0, es[i].0));
        }
    }
}

/// An option has the value that stands beside its name.
pub proof fn options_are_found_by_name(o: &Options, name: &str, r: Option<&str>)
    requires
        call_ensures(Options::get, (o, name), r),
    ensures
        match r {
            Some(v) => lookup(o@, name@) == Some(v@),
            None => lookup(o@, name@) is None,
        },
{
}

/// Putting an entry in: it is there, every entry of another name stays, nothing
/// else comes, and the order of the names is kept.
pub proof fn insertions_keep_the_others(es: Entries, name: Seq<char>, value: Seq<char>)
    requires
        sorted(es),
    ensures
        sorted(insert_entry(es, name, value)),
        insert_entry(es, name, value).contains((name, value)),
        forall|e: (Seq<char>, Seq<char>)|
            #![trigger insert_entry(es, name, value).contains(e)]
            insert_entry(es, name, value).contains(e) <==> e == (name, value) || (es.contains(e)
                && e.0 != name),
{
    let out = insert_entry(es, name, value);
    insert_keeps_order(es, name, value);
    assert forall|e: (Seq<char>, Seq<char>)|
        #![trigger out.contains(e)]
        out.contains(e) <==> e == (name, value) || (es.contains(e) && e.0 != name) by {
        lookup_after_insert(es, name, value, e.0);
        lemma_contained_is_found(out, e);
        lemma_contained_is_found(es, e);
    }
}

proof fn lemma_contained_is_found(es: Entries, e: (Seq<char>, Seq<char>))
    requires
        sorted(es),
    ensures
        es.contains(e) <==> lookup(es, e.0) == Some(e.1),
{
    entries_are_found_by_name(es, e.0, 0);
    if es.contains(e) {
        let i = choose|i: int| 0 <= i < es.len() && es[i] == e;
        entries_are_found_by_name(es, e.0, i);
    }
}

/// Setting an option: it then has the value, and every other has what it had.
pub proof fn set_options_are_read_back(
    o: &mut Options,
    name: &str,
    value: &str,
    other: Seq<char>,
)
    requires
        sorted(old(o)@),
        call_ensures(Options::insert, (o, name, value), ()),
    ensures
        lookup(final(o)@, name@) == Some(value@),
        other != name@ ==> lookup(final(o)@, other) == lookup(old(o)@, other),
{
    lookup_after_insert(old(o)@, name@, value@, other);
    lookup_after_insert(old(o)@, name@, value@, name@);
}

/// Setting one of the numbers: the option of its name holds it in decimal, and
/// every other option has what it had.
pub proof fn set_numbers_stand_under_their_names(
    b: &mut Options,
    t: &mut Options,
    w: &mut Options,
    z: &mut Options,
    v: u16,
    n: u64,
    other: Seq<char>,
)
    requires
        sorted(old(b)@) && sorted(old(t)@) && sorted(old(w)@) && sorted(old(z)@),
        call_ensures(Options::set_blksize, (b, v), ()),
        call_ensures(Options::set_timeout, (t, v), ()),
        call_ensures(Options::set_windowsize, (w, v), ()),
        call_ensures(Options::set_tsize, (z, n), ()),
    ensures
        lookup(final(b)@, "blksize"@) == Some(decimal(v as nat)),
        lookup(final(t)@, "timeout"@) == Some(decimal(v as nat)),
        lookup(final(w)@, "windowsize"@) == Some(decimal(v as nat)),
        lookup(final(z)@, "tsize"@) == Some(decimal(n as nat)),
        other != "blksize"@ ==> lookup(final(b)@, other) == lookup(old(b)@, other),
        other != "timeout"@ ==> lookup(final(t)@, other) == lookup(old(t)@, other),
        other != "windowsize"@ ==> lookup(final(w)@, other) == lookup(old(w)@, other),
        other != "tsize"@ ==> lookup(final(z)@, other) == lookup(old(z)@, other),
{
    lookup_after_insert(old(b)@, "blksize"@, decimal(v as nat), other);
    lookup_after_insert(old(t)@, "timeout"@, decimal(v as nat), other);
    lookup_after_insert(old(w)@, "windowsize"@, decimal(v as nat), other);
    lookup_after_insert(old(z)@, "tsize"@, decimal(n as nat), other);
    lookup_after_insert(old(b)@, "blksize"@, decimal(v as nat), "blksize"@);
    lookup_after_insert(old(t)@, "timeout"@, decimal(v as nat), "timeout"@);
    lookup_after_insert(old(w)@, "windowsize"@, decimal(v as nat), "windowsize"@);
    lookup_after_insert(old(z)@, "tsize"@, decimal(n as nat), "tsize"@);
}

/// The number that an option holds: what its value writes, if that is a number
/// of its width.
pub open spec fn held(es: Entries, name: Seq<char>, max: nat) -> Option<nat> {
    match lookup(es, name) {
        Some(text) => parse_unsigned(text, max),
        None => None,
    }
}

/// The four numbers that options can hold are read from the options of their
/// names.
pub proof fn numbers_are_read_from_their_options(
    o: &Options,
    b: Option<u16>,
    t: Option<u16>,
    w: Option<u16>,
    z: Option<u64>,
)
    requires
        call_ensures(Options::blksize, (o,), b),
        call_ensures(Options::timeout, (o,), t),
        call_ensures(Options::windowsize, (o,), w),
        call_ensures(Options::tsize, (o,), z),
    ensures
        match held(o@, "blksize"@, 65535) {
            Some(n) => b == Some(n as u16),
            None => b is None,
        },
        match held(o@, "timeout"@, 65535) {
            Some(n) => t == Some(n as u16),
            None => t is None,
        },
        match held(o@, "windowsize"@, 65535) {
            Some(n) => w == Some(n as u16),
            None => w is None,
        },
        match held(o@, "tsize"@, u64::MAX as nat) {
            Some(n) => z == Some(n as u64),
            None => z is None,
        },
        forall|x: Entries, name: Seq<char>|
            #![trigger option_u16(x, name)]
            option_u16(x, name) == (match held(x, name, 65535) {
                Some(n) => Some(n as u16),
                None => None,
            }),
        forall|x: Entries, name: Seq<char>|
            #![trigger option_u64(x, name)]
            option_u64(x, name) == (match held(x, name, u64::MAX as nat) {
                Some(n) => Some(n as u64),
                None => None,
            }),
{
}

/// The parameters of a transfer that negotiated none.
pub proof fn defaults_are_those_of_the_protocol(n: Negotiation)
    requires
        call_ensures(Negotiation::defaults, (), n),
    ensures
        n == default_negotiation(),
        n.blksize == 512,
        n.timeout == 5,
        n.windowsize == 1,
        n.tsize is None,
{
}

/// Each parameter that the other side rules on takes the value that it gave,
/// and each that it does not rule on stays as it was.
pub proof fn rulings_replace_what_they_rule_on(n: &Negotiation, o: &Options, r: Negotiation)
    requires
        call_ensures(Negotiation::apply_oack, (n, o), r),
    ensures
        r == oack_applied(*n, o@),
        r.blksize == (match held(o@, "blksize"@, 65535) {
            Some(v) => v as u16,
            None => n.blksize,
        }),
        r.timeout == (match held(o@, "timeout"@, 65535) {
            Some(v) => v as u16,
            None => n.timeout,
        }),
        r.windowsize == (match held(o@, "windowsize"@, 65535) {
            Some(v) => v as u16,
            None => n.windowsize,
        }),
        r.tsize == (match held(o@, "tsize"@, u64::MAX as nat) {
            Some(v) => Some(v as u64),
            None => n.tsize,
        }),
{
}

/// The ranges of the parameters.
pub proof fn ranges_are_those_of_the_protocol(v: u16, n: Negotiation)
    ensures
        blksize_in_range(v) <==> 8 <= v <= 65464,
        timeout_in_range(v) <==> 1 <= v <= 255,
        windowsize_in_range(v) <==> v >= 1,
        in_range(n) <==> 8 <= n.blksize <= 65464 && 1 <= n.timeout <= 255 && n.windowsize >= 1,
{
}

/// A request is accepted exactly where each number that it holds is in its
/// range. Then what it asks for stands, and the defaults for the rest; else the
/// first of block size, timeout and window that is out of range is reported.
pub proof fn requests_are_validated(o: &Options, r: Result<Negotiation, TftpError>)
    requires
        call_ensures(validate_request, (o,), r),
    ensures
        ({
            let b = held(o@, "blksize"@, 65535);
            let t = held(o@, "timeout"@, 65535);
            let w = held(o@, "windowsize"@, 65535);
            let bad_b = b matches Some(v) && !(8 <= v <= 65464);
            let bad_t = t matches Some(v) && !(1 <= v <= 255);
            let bad_w = w matches Some(v) && v == 0;
            match r {
                Ok(n) => {
                    &&& !bad_b && !bad_t && !bad_w
                    &&& n.blksize == (match b {
                        Some(v) => v as int,
                        None => 512,
                    })
                    &&& n.timeout == (match t {
                        Some(v) => v as int,
                        None => 5,
                    })
                    &&& n.windowsize == (match w {
                        Some(v) => v as int,
                        None => 1,
                    })
                    &&& n.tsize == (match held(o@, "tsize"@, u64::MAX as nat) {
                        Some(v) => Some(v as u64),
                        None => None,
                    })
                },
                Err(e) => {
                    &&& bad_b || bad_t || bad_w
                    &&& bad_b ==> e@ == ErrorView::InvalidBlockSize((b->0) as u16)
                    &&& !bad_b && bad_t ==> e@ == ErrorView::Protocol(
                        "invalid timeout "@ + decimal(t->0),
                    )
                    &&& !bad_b && !bad_t ==> e@ == ErrorView::Protocol("windowsize must be > 0"@)
                },
            }
        }),
        match r {
            Ok(n) => requested(o@) == Ok::<Negotiation, ErrorView>(n),
            Err(e) => requested(o@) == Err::<Negotiation, ErrorView>(e@),
        },
{
    if let Some(v) = held(o@, "blksize"@, 65535) {
        assert(v <= 65535);
    }
    if let Some(v) = held(o@, "timeout"@, 65535) {
        assert(v <= 65535);
    }
    if let Some(v) = held(o@, "windowsize"@, 65535) {
        assert(v <= 65535);
    }
}

/// What a client is set up with: the values of the protocol where nothing else
/// is said, and the negotiated ones once they are known.
pub proof fn negotiated_values_replace_requested_ones(
    d: ClientConfig,
    cfg: &ClientConfig,
    neg: Negotiation,
    out: ClientConfig,
)
    requires
        call_ensures(ClientConfig::default, (), d),
        call_ensures(apply_negotiation, (cfg, neg), out),
    ensures
        d.blksize == 512 && d.timeout_secs == 5 && d.windowsize == 1 && d.retries == 6
            && d.resume_from_block == 0,
        out.blksize == neg.blksize,
        out.timeout_secs == neg.timeout,
        out.windowsize == neg.windowsize,
        out.retries == cfg.retries,
        out.resume_from_block == cfg.resume_from_block,
{
}

/// The time goes into the account of a transfer, and changes nothing else; an
/// account starts with nothing in it.
pub proof fn accounts_are_timed(s: TransferStats, millis: u64, r: TransferStats, d: TransferStats)
    requires
        call_ensures(TransferStats::timed, (s, millis), r),
        call_ensures(TransferStats::default, (), d),
    ensures
        r.duration_ms == millis,
        r.bytes == s.bytes && r.blocks == s.blocks && r.total_bytes == s.total_bytes,
        d.bytes == 0 && d.blocks == 0 && d.total_bytes is None && d.duration_ms == 0,
{
}

/// The four names under which the numbers stand.
pub proof fn options_have_their_names()
    ensures
        BLKSIZE@ == seq!['b', 'l', 'k', 's', 'i', 'z', 'e'],
        TIMEOUT@ == seq!['t', 'i', 'm', 'e', 'o', 'u', 't'],
        TSIZE@ == seq!['t', 's', 'i', 'z', 'e'],
        WINDOWSIZE@ == seq!['w', 'i', 'n', 'd', 'o', 'w', 's', 'i', 'z', 'e'],
{
    reveal_strlit("blksize");
    reveal_strlit("timeout");
    reveal_strlit("tsize");
    reveal_strlit("windowsize");
    assert(BLKSIZE@ =~= seq!['b', 'l', 'k', 's', 'i', 'z', 'e']);
    assert(TIMEOUT@ =~= seq!['t', 'i', 'm', 'e', 'o', 'u', 't']);
    assert(TSIZE@ =~= seq!['t', 's', 'i', 'z', 'e']);
    assert(WINDOWSIZE@ =~= seq!['w', 'i', 'n', 'd', 'o', 'w', 's', 'i', 'z', 'e']);
}

} // verus!
