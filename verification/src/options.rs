//! Transfer options and their negotiation.
//!
//! A set of options is modelled by the sequence of its entries in the byte
//! order of their names. On the wire every entry is its name and its value,
//! each closed by a NUL byte.

use crate::error::{ErrorView, TftpError};
use crate::packet::{
    field_len_after, plain, plain_entries, put_cstr, take_cstr, take_text, taken_text_is_plain,
    taken_text_shortens, text_field, text_field_reads_back, ParseError,
};
use crate::text::{
    decimal, decimal_reads_back, decimal_text, is_before, parse_number, parse_unsigned, same_text,
    text_before, text_order_is_total,
};
use crate::wire::{buffer_content, growable_to, quoted, quoted_text};
use crate::{
    DEFAULT_BLOCK_SIZE, DEFAULT_TIMEOUT_SECS, DEFAULT_WINDOW_SIZE, MAX_BLOCK_SIZE, MAX_WINDOW_SIZE,
};
use vstd::prelude::*;
use vstd::string::*;

verus! {

/// The option that sets the block size.
pub const BLKSIZE: &'static str = "blksize";

/// The option that sets the timeout, in seconds.
pub const TIMEOUT: &'static str = "timeout";

/// The option that announces the size of the file.
pub const TSIZE: &'static str = "tsize";

/// The option that sets the number of blocks per window.
pub const WINDOWSIZE: &'static str = "windowsize";

/// Option names with their values.
pub type Entries = Seq<(Seq<char>, Seq<char>)>;

/// Whether the entries stand in the order of their names, no name twice.
pub open spec fn sorted(es: Entries) -> bool {
    forall|i: int, j: int|
        0 <= i < j < es.len() ==> text_before(#[trigger] es[i].0, #[trigger] es[j].0)
}

/// The value that stands beside `name`, if there is one.
pub open spec fn lookup(es: Entries, name: Seq<char>) -> Option<Seq<char>>
    decreases es.len(),
{
    if es.len() == 0 {
        None
    } else if es[0].0 == name {
        Some(es[0].1)
    } else {
        lookup(es.drop_first(), name)
    }
}

/// The entries with `value` beside `name`: in place of the value that stood
/// there, or as a new entry where the order wants it.
pub open spec fn insert_entry(es: Entries, name: Seq<char>, value: Seq<char>) -> Entries
    decreases es.len(),
{
    if es.len() == 0 || text_before(name, es[0].0) {
        seq![(name, value)] + es
    } else if es[0].0 == name {
        seq![(name, value)] + es.drop_first()
    } else {
        seq![es[0]] + insert_entry(es.drop_first(), name, value)
    }
}

/// What the entries are on the wire.
pub open spec fn encode_entries(es: Entries) -> Seq<u8>
    decreases es.len(),
{
    if es.len() == 0 {
        Seq::empty()
    } else {
        text_field(es[0].0) + text_field(es[0].1) + encode_entries(es.drop_first())
    }
}

/// The entries that `buf` writes, put into `es` one after the other.
pub open spec fn decode_entries(buf: Seq<u8>, es: Entries) -> Result<Entries, ParseError>
    decreases buf.len(),
{
    if buf.len() == 0 {
        Ok(es)
    } else {
        match take_text(buf) {
            Err(e) => Err(e),
            Ok((name, rest)) => if rest.len() == 0 {
                Err(ParseError::UnterminatedString)
            } else {
                match take_text(rest) {
                    Err(e) => Err(e),
                    Ok((value, after)) => {
                        proof {
                            taken_text_shortens(buf);
                            taken_text_shortens(rest);
                        }
                        decode_entries(after, insert_entry(es, name, value))
                    },
                }
            },
        }
    }
}

/// The number beside `name`, if there is one of at most `max`.
pub open spec fn option_number(es: Entries, name: Seq<char>, max: nat) -> Option<nat> {
    match lookup(es, name) {
        Some(t) => parse_unsigned(t, max),
        None => None,
    }
}

/// The 16-bit number beside `name`, if there is one.
pub open spec fn option_u16(es: Entries, name: Seq<char>) -> Option<u16> {
    match option_number(es, name, u16::MAX as nat) {
        Some(n) => Some(n as u16),
        None => None,
    }
}

/// The 64-bit number beside `name`, if there is one.
pub open spec fn option_u64(es: Entries, name: Seq<char>) -> Option<u64> {
    match option_number(es, name, u64::MAX as nat) {
        Some(n) => Some(n as u64),
        None => None,
    }
}

/// Whether every name of `es` comes before `name`.
spec fn all_before(es: Entries, name: Seq<char>) -> bool {
    forall|i: int| 0 <= i < es.len() ==> text_before(#[trigger] es[i].0, name)
}

proof fn lemma_insert_after(es: Entries, i: int, name: Seq<char>, value: Seq<char>)
    requires
        0 <= i <= es.len(),
        all_before(es.take(i), name),
    ensures
        insert_entry(es, name, value) == es.take(i) + insert_entry(es.skip(i), name, value),
    decreases i,
{
    if i == 0 {
        assert(es.skip(0) =~= es);
        assert(es.take(0) + insert_entry(es, name, value) =~= insert_entry(es, name, value));
    } else {
        let rest = es.drop_first();
        assert(es.take(i)[0] == es[0]);
        text_order_is_total(es[0].0, name, es[0].0);
        assert forall|j: int| 0 <= j < rest.take(i - 1).len() implies text_before(
            #[trigger] rest.take(i - 1)[j].0,
            name,
        ) by {
            assert(es.take(i)[j + 1] == rest.take(i - 1)[j]);
        }
        lemma_insert_after(rest, i - 1, name, value);
        assert(rest.skip(i - 1) =~= es.skip(i));
        assert(insert_entry(es, name, value) =~= seq![es[0]] + insert_entry(rest, name, value));
        assert(seq![es[0]] + (rest.take(i - 1) + insert_entry(es.skip(i), name, value)) =~= es.take(
            i,
        ) + insert_entry(es.skip(i), name, value));
    }
}

/// Putting an entry into sorted entries keeps them sorted.
pub proof fn insert_keeps_order(es: Entries, name: Seq<char>, value: Seq<char>)
    requires
        sorted(es),
    ensures
        sorted(insert_entry(es, name, value)),
{
    lemma_insert_sorted(es, name, value);
}

/// The entries after an insertion are sorted, and each of them is the new one
/// or one that was there.
proof fn lemma_insert_sorted(es: Entries, name: Seq<char>, value: Seq<char>)
    requires
        sorted(es),
    ensures
        sorted(insert_entry(es, name, value)),
        forall|i: int|
            0 <= i < insert_entry(es, name, value).len() ==> {
                ||| (#[trigger] insert_entry(es, name, value)[i]).0 == name
                ||| exists|j: int|
                    0 <= j < es.len() && insert_entry(es, name, value)[i].0 == (
                    #[trigger] es[j]).0
            },
    decreases es.len(),
{
    let out = insert_entry(es, name, value);
    if es.len() == 0 || text_before(name, es[0].0) {
        assert forall|i: int, j: int| 0 <= i < j < out.len() implies text_before(
            #[trigger] out[i].0,
            #[trigger] out[j].0,
        ) by {
            if i == 0 {
                assert(out[j] == es[j - 1]);
                if j > 1 {
                    text_order_is_total(name, es[0].0, es[j - 1].0);
                }
            } else {
                assert(out[i] == es[i - 1] && out[j] == es[j - 1]);
            }
        }
        assert forall|i: int| 0 <= i < out.len() implies ((#[trigger] out[i]).0 == name
            || exists|j: int| 0 <= j < es.len() && out[i].0 == (#[trigger] es[j]).0) by {
            if i > 0 {
                assert(out[i] == es[i - 1]);
            }
        }
    } else if es[0].0 == name {
        assert forall|i: int| 0 <= i < out.len() implies (#[trigger] out[i]).0 == es[i].0 by {}
        assert forall|i: int, j: int| 0 <= i < j < out.len() implies text_before(
            #[trigger] out[i].0,
            #[trigger] out[j].0,
        ) by {
            assert(out[i].0 == es[i].0 && out[j].0 == es[j].0);
        }
    } else {
        let rest = es.drop_first();
        assert forall|i: int, j: int| 0 <= i < j < rest.len() implies text_before(
            #[trigger] rest[i].0,
            #[trigger] rest[j].0,
        ) by {
            assert(rest[i] == es[i + 1] && rest[j] == es[j + 1]);
        }
        lemma_insert_sorted(rest, name, value);
        let tail = insert_entry(rest, name, value);
        text_order_is_total(name, es[0].0, name);
        text_order_is_total(es[0].0, name, es[0].0);
        assert forall|i: int| 0 <= i < out.len() implies ((#[trigger] out[i]).0 == name
            || exists|j: int| 0 <= j < es.len() && out[i].0 == (#[trigger] es[j]).0) by {
            if i > 0 {
                assert(out[i] == tail[i - 1]);
                if tail[i - 1].0 != name {
                    let j = choose|j: int|
                        0 <= j < rest.len() && tail[i - 1].0 == (#[trigger] rest[j]).0;
                    assert(es[j + 1] == rest[j]);
                }
            } else {
                assert(out[i] == es[0]);
            }
        }
        assert forall|i: int, j: int| 0 <= i < j < out.len() implies text_before(
            #[trigger] out[i].0,
            #[trigger] out[j].0,
        ) by {
            assert(out[j] == tail[j - 1]);
            if i == 0 {
                assert(out[0] == es[0]);
                if tail[j - 1].0 != name {
                    let k = choose|k: int|
                        0 <= k < rest.len() && tail[j - 1].0 == (#[trigger] rest[k]).0;
                    assert(es[k + 1] == rest[k]);
                }
            } else {
                assert(out[i] == tail[i - 1]);
            }
        }
    }
}

/// After an insertion the name leads to the new value, and every other name
/// to what it led to before.
pub proof fn lookup_after_insert(
    es: Entries,
    name: Seq<char>,
    value: Seq<char>,
    other: Seq<char>,
)
    requires
        sorted(es),
    ensures
        lookup(insert_entry(es, name, value), other) == (if other == name {
            Some(value)
        } else {
            lookup(es, other)
        }),
    decreases es.len(),
{
    let out = insert_entry(es, name, value);
    if es.len() == 0 || text_before(name, es[0].0) {
        assert(out.drop_first() =~= es);
    } else if es[0].0 == name {
        assert(out.drop_first() =~= es.drop_first());
    } else {
        let rest = es.drop_first();
        assert forall|i: int, j: int| 0 <= i < j < rest.len() implies text_before(
            #[trigger] rest[i].0,
            #[trigger] rest[j].0,
        ) by {
            assert(rest[i] == es[i + 1] && rest[j] == es[j + 1]);
        }
        lookup_after_insert(rest, name, value, other);
        assert(out.drop_first() =~= insert_entry(rest, name, value));
    }
}

proof fn lemma_lookup_skip(es: Entries, i: int, name: Seq<char>)
    requires
        0 <= i <= es.len(),
        forall|j: int| 0 <= j < i ==> (#[trigger] es[j]).0 != name,
    ensures
        lookup(es, name) == lookup(es.skip(i), name),
    decreases i,
{
    if i == 0 {
        assert(es.skip(0) =~= es);
    } else {
        let rest = es.drop_first();
        assert forall|j: int| 0 <= j < i - 1 implies (#[trigger] rest[j]).0 != name by {
            assert(rest[j] == es[j + 1]);
        }
        lemma_lookup_skip(rest, i - 1, name);
        assert(rest.skip(i - 1) =~= es.skip(i));
    }
}

/// A set of options.
#[derive(Debug, PartialEq, Eq)]
pub struct Options {
    entries: Vec<(String, String)>,
}

impl View for Options {
    type V = Entries;

    closed spec fn view(&self) -> Entries {
        entries_of(self.entries@)
    }
}

impl Default for Options {
    fn default() -> (o: Self)
        ensures
            o@ == Entries::empty(),
            sorted(o@),
    {
        let o = Options { entries: Vec::new() };
        assert(o@ =~= Entries::empty());
        o
    }
}

impl Options {
    #[verifier::type_invariant]
    spec fn ordered(self) -> bool {
        sorted(entries_of(self.entries@))
    }

    /// No options.
    pub fn new() -> (o: Self)
        ensures
            o@ == Entries::empty(),
            sorted(o@),
    {
        Self::default()
    }

    /// Whether there is no option.
    pub fn is_empty(&self) -> (r: bool)
        ensures
            r == (self@.len() == 0),
    {
        self.entries.len() == 0
    }

    /// The value of the option `name`, if it is there.
    pub fn get(&self, name: &str) -> (r: Option<&str>)
        ensures
            match r {
                Some(t) => lookup(self@, name@) == Some(t@),
                None => lookup(self@, name@) is None,
            },
    {
        let mut i: usize = 0;
        while i < self.entries.len()
            invariant
                i <= self.entries.len(),
                forall|j: int| 0 <= j < i ==> (#[trigger] self@[j]).0 != name@,
            decreases self.entries.len() - i,
        {
            if same_text(self.entries[i].0.as_str(), name) {
                proof {
                    lemma_lookup_skip(self@, i as int, name@);
                    assert(self@.skip(i as int)[0] == self@[i as int]);
                }
                return Some(self.entries[i].1.as_str());
            }
            i = i + 1;
        }
        proof {
            lemma_lookup_skip(self@, i as int, name@);
        }
        None
    }

    /// Sets the option `name` to `value`, whether or not it was there.
    pub fn insert(&mut self, name: &str, value: &str)
        ensures
            final(self)@ == insert_entry(old(self)@, name@, value@),
            sorted(final(self)@),
    {
        proof {
            use_type_invariant(&*self);
        }
        let ghost before = self@;
        let mut entries: Vec<(String, String)> = Vec::new();
        std::mem::swap(&mut entries, &mut self.entries);
        let mut i: usize = 0;
        while i < entries.len() && is_before(entries[i].0.as_str(), name)
            invariant
                i <= entries.len(),
                entries_of(entries@) == before,
                forall|j: int| 0 <= j < i ==> text_before(#[trigger] before[j].0, name@),
            decreases entries.len() - i,
        {
            i = i + 1;
        }
        let ghost rest = before.skip(i as int);
        proof {
            assert forall|j: int| 0 <= j < before.take(i as int).len() implies text_before(
                #[trigger] before.take(i as int)[j].0,
                name@,
            ) by {
                assert(before.take(i as int)[j] == before[j]);
            }
            lemma_insert_after(before, i as int, name@, value@);
            if i < before.len() {
                text_order_is_total(name@, before[i as int].0, name@);
                text_order_is_total(before[i as int].0, name@, before[i as int].0);
                assert(rest[0] == before[i as int]);
            }
            lemma_insert_sorted(before, name@, value@);
        }
        if i < entries.len() && same_text(entries[i].0.as_str(), name) {
            entries.set(i, (name.to_owned(), value.to_owned()));
            assert(entries_of(entries@) =~= before.take(i as int) + (seq![(name@, value@)]
                + rest.drop_first()));
        } else {
            entries.insert(i, (name.to_owned(), value.to_owned()));
            assert(entries_of(entries@) =~= before.take(i as int) + (seq![(name@, value@)] + rest));
        }
        self.entries = entries;
    }

    /// The names and values, in the order of the names.
    pub fn iter(&self) -> (r: Vec<(&str, &str)>)
        ensures
            r@.len() == self@.len(),
            forall|i: int|
                0 <= i < r@.len() ==> self@[i] == ((#[trigger] r@[i]).0@, r@[i].1@),
            sorted(self@),
    {
        proof {
            use_type_invariant(self);
        }
        let mut out: Vec<(&str, &str)> = Vec::new();
        let mut i: usize = 0;
        while i < self.entries.len()
            invariant
                i <= self.entries.len(),
                out@.len() == i,
                forall|j: int| 0 <= j < i ==> self@[j] == ((#[trigger] out@[j]).0@, out@[j].1@),
            decreases self.entries.len() - i,
        {
            out.push((self.entries[i].0.as_str(), self.entries[i].1.as_str()));
            i = i + 1;
        }
        out
    }

    /// The number that the option `name` holds, if there is one of at most
    /// `max`.
    fn number(&self, name: &str, max: u64) -> (r: Option<u64>)
        ensures
            match r {
                Some(v) => option_number(self@, name@, max as nat) == Some(v as nat) && v <= max,
                None => option_number(self@, name@, max as nat) is None,
            },
    {
        match self.get(name) {
            Some(t) => parse_number(t, max),
            None => None,
        }
    }

    /// The 16-bit number that the option `name` holds, if there is one.
    fn short_number(&self, name: &str) -> (r: Option<u16>)
        ensures
            r == option_u16(self@, name@),
    {
        match self.number(name, 65535) {
            Some(v) => Some(v as u16),
            None => None,
        }
    }

    /// The block size, if the options hold one.
    pub fn blksize(&self) -> (r: Option<u16>)
        ensures
            r == option_u16(self@, BLKSIZE@),
    {
        self.short_number(BLKSIZE)
    }

    /// Sets the block size.
    pub fn set_blksize(&mut self, v: u16)
        ensures
            final(self)@ == insert_entry(old(self)@, BLKSIZE@, decimal(v as nat)),
            sorted(final(self)@),
    {
        self.insert(BLKSIZE, decimal_text(v as u64).as_str());
    }

    /// The timeout in seconds, if the options hold one.
    pub fn timeout(&self) -> (r: Option<u16>)
        ensures
            r == option_u16(self@, TIMEOUT@),
    {
        self.short_number(TIMEOUT)
    }

    /// Sets the timeout in seconds.
    pub fn set_timeout(&mut self, v: u16)
        ensures
            final(self)@ == insert_entry(old(self)@, TIMEOUT@, decimal(v as nat)),
            sorted(final(self)@),
    {
        self.insert(TIMEOUT, decimal_text(v as u64).as_str());
    }

    /// The size of the file, if the options hold one.
    pub fn tsize(&self) -> (r: Option<u64>)
        ensures
            r == option_u64(self@, TSIZE@),
    {
        self.number(TSIZE, u64::MAX)
    }

    /// Sets the size of the file.
    pub fn set_tsize(&mut self, v: u64)
        ensures
            final(self)@ == insert_entry(old(self)@, TSIZE@, decimal(v as nat)),
            sorted(final(self)@),
    {
        self.insert(TSIZE, decimal_text(v).as_str());
    }

    /// The number of blocks per window, if the options hold one.
    pub fn windowsize(&self) -> (r: Option<u16>)
        ensures
            r == option_u16(self@, WINDOWSIZE@),
    {
        self.short_number(WINDOWSIZE)
    }

    /// Sets the number of blocks per window.
    pub fn set_windowsize(&mut self, v: u16)
        ensures
            final(self)@ == insert_entry(old(self)@, WINDOWSIZE@, decimal(v as nat)),
            sorted(final(self)@),
    {
        self.insert(WINDOWSIZE, decimal_text(v as u64).as_str());
    }

    /// Reads options up to the end of `buf`. Where a name comes twice the
    /// later value stands.
    pub fn decode_from(buf: &[u8]) -> (r: Result<Self, ParseError>)
        ensures
            match r {
                Ok(o) => decode_entries(buf@, Entries::empty()) == Ok::<Entries, ParseError>(o@)
                    && sorted(o@),
                Err(e) => decode_entries(buf@, Entries::empty()) == Err::<Entries, ParseError>(e),
            },
    {
        let mut out = Options::new();
        let mut left = buf;
        while left.len() > 0
            invariant
                decode_entries(buf@, Entries::empty()) == decode_entries(left@, out@),
                sorted(out@),
            decreases left.len(),
        {
            match take_cstr(left) {
                Err(e) => {
                    return Err(e);
                },
                Ok((name, rest)) => {
                    if rest.len() == 0 {
                        return Err(ParseError::UnterminatedString);
                    }
                    match take_cstr(rest) {
                        Err(e) => {
                            return Err(e);
                        },
                        Ok((value, after)) => {
                            proof {
                                taken_text_shortens(left@);
                                taken_text_shortens(rest@);
                            }
                            out.insert(name.as_str(), value.as_str());
                            left = after;
                        },
                    }
                },
            }
        }
        Ok(out)
    }

    /// Appends the options to `buf`.
    pub fn encode_into(&self, buf: &mut bytes::BytesMut)
        requires
            growable_to(buffer_content(*old(buf)).len() + encode_entries(self@).len()),
        ensures
            buffer_content(*final(buf)) == buffer_content(*old(buf)) + encode_entries(self@),
    {
        let mut i: usize = 0;
        assert(self@.skip(0) =~= self@);
        while i < self.entries.len()
            invariant
                i <= self.entries.len(),
                growable_to(buffer_content(*buf).len() + encode_entries(self@.skip(i as int)).len()),
                buffer_content(*old(buf)) + encode_entries(self@) == buffer_content(*buf)
                    + encode_entries(self@.skip(i as int)),
            decreases self.entries.len() - i,
        {
            let ghost before = buffer_content(*buf);
            assert(self@.skip(i as int).drop_first() =~= self@.skip(i + 1));
            put_cstr(buf, self.entries[i].0.as_str());
            put_cstr(buf, self.entries[i].1.as_str());
            assert(before + encode_entries(self@.skip(i as int)) =~= buffer_content(*buf)
                + encode_entries(self@.skip(i + 1)));
            i = i + 1;
        }
        assert(buffer_content(*buf) + encode_entries(self@.skip(i as int)) =~= buffer_content(
            *buf,
        ));
    }
}

/// The text of one entry, from the quoted name and the quoted value.
pub open spec fn entry_text(e: (Seq<char>, Seq<char>)) -> Seq<char> {
    e.0 + ": "@ + e.1
}

/// The texts of the entries, from quoted names and values, with commas between
/// them.
pub open spec fn entries_text(es: Entries) -> Seq<char>
    decreases es.len(),
{
    if es.len() == 0 {
        Seq::empty()
    } else if es.len() == 1 {
        entry_text(es[0])
    } else {
        entries_text(es.drop_last()) + ", "@ + entry_text(es.last())
    }
}

/// The text of a set of options, from quoted names and values.
pub open spec fn options_text(es: Entries) -> Seq<char> {
    "Options { inner: {"@ + entries_text(es) + "} }"@
}

/// The entries with their names and values quoted.
pub open spec fn quoted_entries(es: Entries) -> Entries {
    Seq::new(es.len(), |i: int| (quoted_text(es[i].0), quoted_text(es[i].1)))
}

/// The content of pairs of texts.
pub open spec fn entries_of(v: Seq<(String, String)>) -> Entries {
    Seq::new(v.len(), |i: int| (v[i].0@, v[i].1@))
}

/// A text that shows options, from their quoted names and values.
pub fn describe_entries(quoted: &Vec<(String, String)>) -> (s: String)
    ensures
        s@ == options_text(entries_of(quoted@)),
{
    let mut s = String::new();
    let mut i: usize = 0;
    let ghost es = entries_of(quoted@);
    assert(s@ =~= entries_text(es.take(0)));
    while i < quoted.len()
        invariant
            i <= quoted.len(),
            es == entries_of(quoted@),
            s@ == entries_text(es.take(i as int)),
        decreases quoted.len() - i,
    {
        if i > 0 {
            s.append(", ");
        }
        s.append(quoted[i].0.as_str());
        s.append(": ");
        s.append(quoted[i].1.as_str());
        assert(es.take(i + 1).drop_last() =~= es.take(i as int));
        assert(s@ =~= entries_text(es.take(i + 1)));
        i = i + 1;
    }
    assert(es.take(i as int) =~= es);
    "Options { inner: {".to_owned().concat(s.as_str()).concat("} }")
}

impl Options {
    /// A text that shows the options.
    pub fn describe(&self) -> (s: String)
        ensures
            s@ == options_text(quoted_entries(self@)),
    {
        let mut v: Vec<(String, String)> = Vec::new();
        let mut i: usize = 0;
        while i < self.entries.len()
            invariant
                i <= self.entries.len(),
                v@.len() == i,
                forall|j: int|
                    0 <= j < i ==> entries_of(v@)[j] == #[trigger] quoted_entries(self@)[j],
            decreases self.entries.len() - i,
        {
            v.push(
                (quoted(self.entries[i].0.as_str()), quoted(self.entries[i].1.as_str())),
            );
            i = i + 1;
        }
        assert(entries_of(v@) =~= quoted_entries(self@));
        describe_entries(&v)
    }

    /// The number of bytes that the options take after `start` others, if it
    /// can be counted.
    pub(crate) fn len_after(&self, start: usize) -> (r: Option<usize>)
        ensures
            match r {
                Some(n) => n == start + encode_entries(self@).len(),
                None => start + encode_entries(self@).len() > usize::MAX,
            },
    {
        let mut n: usize = start;
        let mut i: usize = 0;
        assert(self@.skip(0) =~= self@);
        while i < self.entries.len()
            invariant
                i <= self.entries.len(),
                start + encode_entries(self@).len() == n + encode_entries(
                    self@.skip(i as int),
                ).len(),
            decreases self.entries.len() - i,
        {
            assert(self@.skip(i as int).drop_first() =~= self@.skip(i + 1));
            n = match field_len_after(self.entries[i].0.as_str(), n) {
                None => {
                    return None;
                },
                Some(m) => match field_len_after(self.entries[i].1.as_str(), m) {
                    None => {
                        return None;
                    },
                    Some(k) => k,
                },
            };
            i = i + 1;
        }
        Some(n)
    }
}

impl Clone for Options {
    fn clone(&self) -> (o: Self)
        ensures
            o@ == self@,
            sorted(o@),
    {
        proof {
            use_type_invariant(self);
        }
        let mut entries: Vec<(String, String)> = Vec::new();
        let mut i: usize = 0;
        while i < self.entries.len()
            invariant
                i <= self.entries.len(),
                entries@.len() == i,
                forall|j: int| 0 <= j < i ==> entries_of(entries@)[j] == #[trigger] self@[j],
            decreases self.entries.len() - i,
        {
            let e = &self.entries[i];
            entries.push((e.0.clone(), e.1.clone()));
            i = i + 1;
        }
        assert(entries_of(entries@) =~= self@);
        Options { entries }
    }
}

/// The parameters of a transfer. `tsize` is the size of the file where the
/// other side announced it.
#[derive(Debug, Clone, Copy, PartialEq, Eq, Structural)]
pub struct Negotiation {
    pub blksize: u16,
    pub timeout: u16,
    pub windowsize: u16,
    pub tsize: Option<u64>,
}

/// The parameters of a transfer that negotiated none.
pub open spec fn default_negotiation() -> Negotiation {
    Negotiation {
        blksize: DEFAULT_BLOCK_SIZE,
        timeout: DEFAULT_TIMEOUT_SECS,
        windowsize: DEFAULT_WINDOW_SIZE,
        tsize: None,
    }
}

/// The parameters `n` with those that the options hold put in their place.
pub open spec fn oack_applied(n: Negotiation, es: Entries) -> Negotiation {
    Negotiation {
        blksize: match option_u16(es, BLKSIZE@) {
            Some(v) => v,
            None => n.blksize,
        },
        timeout: match option_u16(es, TIMEOUT@) {
            Some(v) => v,
            None => n.timeout,
        },
        windowsize: match option_u16(es, WINDOWSIZE@) {
            Some(v) => v,
            None => n.windowsize,
        },
        tsize: match option_u64(es, TSIZE@) {
            Some(v) => Some(v),
            None => n.tsize,
        },
    }
}

/// Whether `v` can be negotiated as a block size.
pub open spec fn blksize_in_range(v: u16) -> bool {
    8 <= v <= MAX_BLOCK_SIZE
}

/// Whether `v` can be negotiated as a timeout.
pub open spec fn timeout_in_range(v: u16) -> bool {
    1 <= v <= 255
}

/// Whether `v` can be negotiated as a window size.
pub open spec fn windowsize_in_range(v: u16) -> bool {
    1 <= v <= MAX_WINDOW_SIZE
}

/// Whether all parameters lie in their ranges.
pub open spec fn in_range(n: Negotiation) -> bool {
    &&& blksize_in_range(n.blksize)
    &&& timeout_in_range(n.timeout)
    &&& windowsize_in_range(n.windowsize)
}

/// What a request for the options gets: the defaults with the requested
/// values in their place, or what is wrong with the first of block size,
/// timeout and window size that is out of its range.
pub open spec fn requested(es: Entries) -> Result<Negotiation, ErrorView> {
    match (option_u16(es, BLKSIZE@), option_u16(es, TIMEOUT@), option_u16(es, WINDOWSIZE@)) {
        (Some(v), _, _) if !blksize_in_range(v) => Err(ErrorView::InvalidBlockSize(v)),
        (_, Some(v), _) if !timeout_in_range(v) => Err(
            ErrorView::Protocol("invalid timeout "@ + decimal(v as nat)),
        ),
        (_, _, Some(v)) if !windowsize_in_range(v) => Err(
            ErrorView::Protocol("windowsize must be > 0"@),
        ),
        _ => Ok(oack_applied(default_negotiation(), es)),
    }
}

impl Negotiation {
    /// The parameters of a transfer that negotiated none.
    pub fn defaults() -> (n: Self)
        ensures
            n == default_negotiation(),
    {
        Self {
            blksize: DEFAULT_BLOCK_SIZE,
            timeout: DEFAULT_TIMEOUT_SECS,
            windowsize: DEFAULT_WINDOW_SIZE,
            tsize: None,
        }
    }

    /// The parameters after the other side answered with the options `oack`.
    pub fn apply_oack(&self, oack: &Options) -> (n: Self)
        ensures
            n == oack_applied(*self, oack@),
    {
        let mut out = *self;
        if let Some(v) = oack.blksize() {
            out.blksize = v;
        }
        if let Some(v) = oack.timeout() {
            out.timeout = v;
        }
        if let Some(v) = oack.windowsize() {
            out.windowsize = v;
        }
        if let Some(v) = oack.tsize() {
            out.tsize = Some(v);
        }
        out
    }
}

/// The parameters that a request for the options `req` gets, or what is wrong
/// with it.
pub fn validate_request(req: &Options) -> (r: Result<Negotiation, TftpError>)
    ensures
        match r {
            Ok(n) => requested(req@) == Ok::<Negotiation, ErrorView>(n),
            Err(e) => requested(req@) == Err::<Negotiation, ErrorView>(e@),
        },
{
    let mut n = Negotiation::defaults();
    if let Some(v) = req.blksize() {
        if !(8 <= v && v <= MAX_BLOCK_SIZE) {
            return Err(TftpError::InvalidBlockSize(v));
        }
        n.blksize = v;
    }
    if let Some(v) = req.timeout() {
        if v == 0 || v > 255 {
            return Err(
                TftpError::Protocol(
                    "invalid timeout ".to_owned().concat(decimal_text(v as u64).as_str()),
                ),
            );
        }
        n.timeout = v;
    }
    if let Some(v) = req.windowsize() {
        if v == 0 {
            return Err(TftpError::protocol("windowsize must be > 0"));
        }
        n.windowsize = v;
    }
    n.tsize = req.tsize();
    Ok(n)
}

/// The four option names differ from each other.
pub proof fn option_names_differ()
    ensures
        BLKSIZE@ != TIMEOUT@,
        BLKSIZE@ != TSIZE@,
        BLKSIZE@ != WINDOWSIZE@,
        TIMEOUT@ != TSIZE@,
        TIMEOUT@ != WINDOWSIZE@,
        TSIZE@ != WINDOWSIZE@,
{
    reveal_strlit("blksize");
    reveal_strlit("timeout");
    reveal_strlit("tsize");
    reveal_strlit("windowsize");
    assert(BLKSIZE@[0] == 'b' && TIMEOUT@[1] == 'i' && TSIZE@[1] == 's' && WINDOWSIZE@[0] == 'w');
    assert(TIMEOUT@[0] == 't' && TSIZE@[0] == 't');
}

/// A number set as an option is the number that the option then holds, and
/// every other option holds what it held.
pub proof fn set_number_reads_back(es: Entries, name: Seq<char>, v: nat, max: nat, other: Seq<char>)
    requires
        sorted(es),
        v <= max,
    ensures
        option_number(insert_entry(es, name, decimal(v)), name, max) == Some(v),
        other != name ==> option_number(insert_entry(es, name, decimal(v)), other, max)
            == option_number(es, other, max),
{
    lookup_after_insert(es, name, decimal(v), name);
    lookup_after_insert(es, name, decimal(v), other);
    decimal_reads_back(v, max);
}

/// An option that is none of the four changes no parameter of a transfer.
pub proof fn unknown_options_are_ignored(
    n: Negotiation,
    es: Entries,
    name: Seq<char>,
    value: Seq<char>,
)
    requires
        sorted(es),
        name != BLKSIZE@,
        name != TIMEOUT@,
        name != TSIZE@,
        name != WINDOWSIZE@,
    ensures
        oack_applied(n, insert_entry(es, name, value)) == oack_applied(n, es),
        requested(insert_entry(es, name, value)) == requested(es),
{
    lookup_after_insert(es, name, value, BLKSIZE@);
    lookup_after_insert(es, name, value, TIMEOUT@);
    lookup_after_insert(es, name, value, TSIZE@);
    lookup_after_insert(es, name, value, WINDOWSIZE@);
}

/// Options without entries change no parameter.
pub proof fn empty_oack_changes_nothing(n: Negotiation)
    ensures
        oack_applied(n, Entries::empty()) == n,
{
}

/// A request that is accepted leads to parameters in their ranges.
pub proof fn accepted_requests_are_in_range(es: Entries)
    ensures
        requested(es) matches Ok(n) ==> in_range(n),
        requested(es) matches Ok(n) ==> n == oack_applied(default_negotiation(), es),
{
}

proof fn lemma_insert_last(es: Entries, i: int)
    requires
        sorted(es),
        0 <= i < es.len(),
    ensures
        insert_entry(es.take(i), es[i].0, es[i].1) == es.take(i + 1),
{
    let front = es.take(i);
    assert(front.take(i) =~= front);
    assert forall|j: int| 0 <= j < front.len() implies text_before(
        #[trigger] front[j].0,
        es[i].0,
    ) by {
        assert(front[j] == es[j]);
    }
    lemma_insert_after(front, i, es[i].0, es[i].1);
    assert(front.skip(i) =~= Entries::empty());
    assert(front + (seq![(es[i].0, es[i].1)] + Entries::empty()) =~= es.take(i + 1));
}

proof fn lemma_decode_rest(es: Entries, i: int)
    requires
        sorted(es),
        plain_entries(es),
        0 <= i <= es.len(),
    ensures
        decode_entries(encode_entries(es.skip(i)), es.take(i)) == Ok::<Entries, ParseError>(es),
    decreases es.len() - i,
{
    if i < es.len() {
        let rest = es.skip(i);
        assert(rest.drop_first() =~= es.skip(i + 1));
        let tail = encode_entries(es.skip(i + 1));
        let (name, value) = es[i];
        assert(rest[0] == es[i]);
        assert(encode_entries(rest) =~= text_field(name) + (text_field(value) + tail));
        text_field_reads_back(name, text_field(value) + tail);
        text_field_reads_back(value, tail);
        lemma_insert_last(es, i);
        lemma_decode_rest(es, i + 1);
    } else {
        assert(es.skip(i) =~= Entries::empty());
        assert(es.take(i) =~= es);
    }
}

/// Options whose names and values hold no NUL read back from the wire as
/// themselves.
pub proof fn options_read_back(es: Entries)
    requires
        sorted(es),
        plain_entries(es),
    ensures
        decode_entries(encode_entries(es), Entries::empty()) == Ok::<Entries, ParseError>(es),
{
    lemma_decode_rest(es, 0);
    assert(es.skip(0) =~= es);
    assert(es.take(0) =~= Entries::empty());
}

proof fn lemma_insert_plain(es: Entries, name: Seq<char>, value: Seq<char>)
    requires
        plain_entries(es),
        plain(name),
        plain(value),
    ensures
        plain_entries(insert_entry(es, name, value)),
    decreases es.len(),
{
    let out = insert_entry(es, name, value);
    if es.len() == 0 || text_before(name, es[0].0) {
        assert forall|i: int| 0 <= i < out.len() implies plain((#[trigger] out[i]).0) && plain(
            out[i].1,
        ) by {
            if i > 0 {
                assert(out[i] == es[i - 1]);
            }
        }
    } else {
        let rest = es.drop_first();
        assert forall|i: int| 0 <= i < rest.len() implies plain((#[trigger] rest[i]).0) && plain(
            rest[i].1,
        ) by {
            assert(rest[i] == es[i + 1]);
        }
        lemma_insert_plain(rest, name, value);
        let tail = insert_entry(rest, name, value);
        assert forall|i: int| 0 <= i < out.len() implies plain((#[trigger] out[i]).0) && plain(
            out[i].1,
        ) by {
            if i > 0 {
                assert(es[0].0 == name ==> out[i] == rest[i - 1]);
                assert(es[0].0 != name ==> out[i] == tail[i - 1]);
            } else {
                assert(out[i] == es[0] || out[i] == (name, value));
            }
        }
    }
}

/// Options that were read from the wire are in order and hold no NUL.
pub proof fn decoded_entries_are_plain(buf: Seq<u8>, es: Entries)
    requires
        sorted(es),
        plain_entries(es),
    ensures
        decode_entries(buf, es) matches Ok(out) ==> sorted(out) && plain_entries(out),
    decreases buf.len(),
{
    if buf.len() > 0 {
        taken_text_shortens(buf);
        taken_text_is_plain(buf);
        if let Ok((name, rest)) = take_text(buf) {
            taken_text_shortens(rest);
            taken_text_is_plain(rest);
            if let Ok((value, after)) = take_text(rest) {
                lemma_insert_sorted(es, name, value);
                lemma_insert_plain(es, name, value);
                decoded_entries_are_plain(after, insert_entry(es, name, value));
            }
        }
    }
}

} // verus!
