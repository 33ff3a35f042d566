//! Laws of packets: what they are as bytes, and what bytes are as packets.

use crate::error::{code_name, code_number, numbered_code, ErrorView, TftpError, TftpErrorCode};
use crate::opcode::{numbered_opcode, opcode_number, Opcode};
use crate::options::{
    decode_entries, describe_entries, encode_entries, entries_of, entries_text, insert_entry,
    options_text, quoted_entries, Entries, Options,
};
use crate::packet::{
    describe_error, describe_request, encode_packet, lemma_nul_index, packet_text,
    parse_error_message, parse_packet, take_cstr, take_text, text_field, Packet, PacketView,
    ParseError,
};
use crate::text::decimal;
use crate::transfer::{recv_packet, Received};
use crate::wire::{
    be_bytes, be_number, buffer_content, byte_text, byte_texts, number_of, quoted_text,
};
use vstd::prelude::*;
use vstd::string::*;
use vstd::utf8::*;

verus! {

/// A number goes over the wire as two bytes: how often it holds 256, then the
/// rest.
pub proof fn high_bytes_come_first(v: u16, hi: u8, lo: u8, n: u16)
    requires
        call_ensures(number_of, (hi, lo), n),
    ensures
        n == hi * 256 + lo,
        be_bytes(v) == seq![(v / 256) as u8, (v % 256) as u8],
        be_bytes(v)[0] * 256 + be_bytes(v)[1] == v,
        be_number(hi, lo) == hi * 256 + lo,
{
}

/// The numbers of the operations.
pub proof fn operations_have_their_numbers(op: Opcode, v: u16, n: u16, r: Option<Opcode>)
    requires
        call_ensures(Opcode::as_u16, (op,), n),
        call_ensures(Opcode::from_u16, (v,), r),
    ensures
        op == Opcode::Rrq <==> n == 1,
        op == Opcode::Wrq <==> n == 2,
        op == Opcode::Data <==> n == 3,
        op == Opcode::Ack <==> n == 4,
        op == Opcode::Error <==> n == 5,
        op == Opcode::Oack <==> n == 6,
        n == opcode_number(op),
        r == numbered_opcode(v),
        r is Some <==> 1 <= v <= 6,
        v == n ==> r == Some(op),
{
}

/// The numbers of the error codes. A number without a code stands for the
/// code that says nothing.
pub proof fn error_codes_have_their_numbers(code: TftpErrorCode, v: u16, n: u16, r: TftpErrorCode)
    requires
        call_ensures(TftpErrorCode::as_u16, (code,), n),
        call_ensures(TftpErrorCode::from_u16, (v,), r),
    ensures
        code == TftpErrorCode::NotDefined <==> n == 0,
        code == TftpErrorCode::FileNotFound <==> n == 1,
        code == TftpErrorCode::AccessViolation <==> n == 2,
        code == TftpErrorCode::DiskFull <==> n == 3,
        code == TftpErrorCode::IllegalOperation <==> n == 4,
        code == TftpErrorCode::UnknownTransferId <==> n == 5,
        code == TftpErrorCode::FileAlreadyExists <==> n == 6,
        code == TftpErrorCode::NoSuchUser <==> n == 7,
        code == TftpErrorCode::OptionNegotiation <==> n == 8,
        n == code_number(code),
        r == numbered_code(v),
        v == n ==> r == code,
        v > 8 ==> r == TftpErrorCode::NotDefined,
{
}

/// The operation of a packet is that of its kind.
pub proof fn packets_name_their_operation(p: &Packet, op: Opcode)
    requires
        call_ensures(Packet::opcode, (p,), op),
    ensures
        p is Rrq <==> op == Opcode::Rrq,
        p is Wrq <==> op == Opcode::Wrq,
        p is Data <==> op == Opcode::Data,
        p is Ack <==> op == Opcode::Ack,
        p is Error <==> op == Opcode::Error,
        p is Oack <==> op == Opcode::Oack,
{
}

/// What a text is on the wire: its UTF-8 bytes, and a NUL byte after them.
pub proof fn text_fields_are_closed_by_a_nul(s: Seq<char>)
    ensures
        text_field(s) == encode_utf8(s) + seq![0u8],
{
    assert(text_field(s) =~= encode_utf8(s) + seq![0u8]);
}

/// What options are on the wire: nothing where there are none, name and value
/// of each as text fields, and one option after the other.
pub proof fn options_are_written_one_after_the_other(
    a: Entries,
    b: Entries,
    n: Seq<char>,
    v: Seq<char>,
)
    ensures
        encode_entries(Entries::empty()) == Seq::<u8>::empty(),
        encode_entries(seq![(n, v)]) == encode_utf8(n) + seq![0u8] + encode_utf8(v) + seq![0u8],
        encode_entries(a + b) == encode_entries(a) + encode_entries(b),
    decreases a.len(),
{
    let one = seq![(n, v)];
    assert(one.drop_first() =~= Entries::empty());
    assert(encode_entries(one.drop_first()) =~= Seq::<u8>::empty());
    assert(encode_entries(one) =~= encode_utf8(n) + seq![0u8] + encode_utf8(v) + seq![0u8]);
    if a.len() == 0 {
        assert(a + b =~= b);
        assert(encode_entries(a) + encode_entries(b) =~= encode_entries(b));
    } else {
        assert((a + b).drop_first() =~= a.drop_first() + b);
        options_are_written_one_after_the_other(a.drop_first(), b, n, v);
        assert(encode_entries(a + b) =~= encode_entries(a) + encode_entries(b));
    }
}

/// The layout of every packet: the number of its operation in two bytes, the
/// high one first, then its parts in this order.
pub proof fn packets_have_their_layout(p: &Packet, buf: bytes::BytesMut)
    requires
        call_ensures(Packet::encode, (p,), buf),
    ensures
        buffer_content(buf) == encode_packet(p@),
        match p@ {
            PacketView::Rrq { filename, mode, options } => buffer_content(buf) == seq![0u8, 1u8]
                + encode_utf8(filename) + seq![0u8] + encode_utf8(mode) + seq![0u8]
                + encode_entries(options),
            PacketView::Wrq { filename, mode, options } => buffer_content(buf) == seq![0u8, 2u8]
                + encode_utf8(filename) + seq![0u8] + encode_utf8(mode) + seq![0u8]
                + encode_entries(options),
            PacketView::Data { block, data } => buffer_content(buf) == seq![
                0u8,
                3u8,
                (block / 256) as u8,
                (block % 256) as u8,
            ] + data,
            PacketView::Ack { block } => buffer_content(buf) == seq![
                0u8,
                4u8,
                (block / 256) as u8,
                (block % 256) as u8,
            ],
            PacketView::Error { code, message } => buffer_content(buf) == seq![
                0u8,
                5u8,
                0u8,
                code_number(code) as u8,
            ] + encode_utf8(message) + seq![0u8],
            PacketView::Oack { options } => buffer_content(buf) == seq![0u8, 6u8] + encode_entries(
                options,
            ),
        },
{
    let b = encode_packet(p@);
    match p@ {
        PacketView::Rrq { filename, mode, options } => {
            assert(b =~= seq![0u8, 1u8] + encode_utf8(filename) + seq![0u8] + encode_utf8(mode)
                + seq![0u8] + encode_entries(options));
        },
        PacketView::Wrq { filename, mode, options } => {
            assert(b =~= seq![0u8, 2u8] + encode_utf8(filename) + seq![0u8] + encode_utf8(mode)
                + seq![0u8] + encode_entries(options));
        },
        PacketView::Data { block, data } => {
            assert(b =~= seq![0u8, 3u8, (block / 256) as u8, (block % 256) as u8] + data);
        },
        PacketView::Ack { block } => {
            assert(b =~= seq![0u8, 4u8, (block / 256) as u8, (block % 256) as u8]);
        },
        PacketView::Error { code, message } => {
            assert(code_number(code) <= 8);
            assert(b =~= seq![0u8, 5u8, 0u8, code_number(code) as u8] + encode_utf8(message) + seq![
                0u8,
            ]);
        },
        PacketView::Oack { options } => {
            assert(b =~= seq![0u8, 6u8] + encode_entries(options));
        },
    }
}

/// A text field goes up to the first NUL byte and is left out with it. Without
/// a NUL byte there is no text field, and what is not UTF-8 is no text.
pub proof fn text_fields_end_at_the_first_nul(x: Seq<u8>, y: Seq<u8>)
    requires
        forall|i: int| 0 <= i < x.len() ==> #[trigger] x[i] != 0,
    ensures
        take_text(x) == Err::<(Seq<char>, Seq<u8>), ParseError>(ParseError::UnterminatedString),
        take_text(x + seq![0u8] + y) == (if valid_utf8(x) {
            Ok::<(Seq<char>, Seq<u8>), ParseError>((decode_utf8(x), y))
        } else {
            Err::<(Seq<char>, Seq<u8>), ParseError>(ParseError::InvalidUtf8)
        }),
{
    let b = x + seq![0u8] + y;
    lemma_nul_index(x, x.len() as int);
    assert forall|i: int| 0 <= i < x.len() implies #[trigger] b[i] != 0 by {
        assert(b[i] == x[i]);
    }
    lemma_nul_index(b, x.len() as int);
    assert(b.take(x.len() as int) =~= x);
    assert(b.skip(x.len() as int + 1) =~= y);
}

/// Reading a text field takes it off the front.
pub proof fn taken_fields_leave_the_rest(buf: &[u8], r: Result<(String, &[u8]), ParseError>)
    requires
        call_ensures(take_cstr, (buf,), r),
    ensures
        r matches Ok((s, rest)) ==> exists|n: int|
            0 <= n < buf@.len() && buf@[n] == 0 && valid_utf8(buf@.take(n)) && s@ == decode_utf8(
                buf@.take(n),
            ) && rest@ == #[trigger] buf@.skip(n + 1) && forall|i: int|
                0 <= i < n ==> #[trigger] buf@[i] != 0,
        r == Err::<(String, &[u8]), ParseError>(ParseError::UnterminatedString) <==> (forall|i: int|
            0 <= i < buf@.len() ==> #[trigger] buf@[i] != 0),
        r matches Err(e) ==> e == ParseError::UnterminatedString || e == ParseError::InvalidUtf8,
{
    let b = buf@;
    if forall|i: int| 0 <= i < b.len() ==> #[trigger] b[i] != 0 {
        text_fields_end_at_the_first_nul(b, b);
    } else {
        let n = lemma_first_nul(b);
        let x = b.take(n);
        assert(b =~= x + seq![0u8] + b.skip(n + 1));
        text_fields_end_at_the_first_nul(x, b.skip(n + 1));
    }
}

proof fn lemma_first_nul(b: Seq<u8>) -> (n: int)
    requires
        !(forall|i: int| 0 <= i < b.len() ==> #[trigger] b[i] != 0),
    ensures
        0 <= n < b.len(),
        b[n] == 0,
        forall|i: int| 0 <= i < n ==> #[trigger] b[i] != 0,
    decreases b.len(),
{
    let last = b.len() - 1;
    let front = b.drop_last();
    if forall|i: int| 0 <= i < front.len() ==> #[trigger] front[i] != 0 {
        assert forall|i: int| 0 <= i < last implies #[trigger] b[i] != 0 by {
            assert(front[i] == b[i]);
        }
        last
    } else {
        let n = lemma_first_nul(front);
        assert forall|i: int| 0 <= i < n implies #[trigger] b[i] != 0 by {
            assert(front[i] == b[i]);
        }
        n
    }
}

/// Options are read pair by pair, each put with those before it; where a name
/// or a value is missing or is no text, there are none.
pub proof fn options_are_read_pair_by_pair(x: Seq<u8>, y: Seq<u8>, t: Seq<u8>, es: Entries)
    requires
        forall|i: int| 0 <= i < x.len() ==> #[trigger] x[i] != 0,
        forall|i: int| 0 <= i < y.len() ==> #[trigger] y[i] != 0,
    ensures
        decode_entries(Seq::empty(), es) == Ok::<Entries, ParseError>(es),
        x.len() > 0 ==> decode_entries(x, es) == Err::<Entries, ParseError>(
            ParseError::UnterminatedString,
        ),
        !valid_utf8(x) ==> decode_entries(x + seq![0u8] + t, es) == Err::<Entries, ParseError>(
            ParseError::InvalidUtf8,
        ),
        valid_utf8(x) ==> decode_entries(x + seq![0u8] + y, es) == Err::<Entries, ParseError>(
            ParseError::UnterminatedString,
        ),
        valid_utf8(x) && !valid_utf8(y) ==> decode_entries(
            x + seq![0u8] + (y + seq![0u8] + t),
            es,
        ) == Err::<Entries, ParseError>(ParseError::InvalidUtf8),
        valid_utf8(x) && valid_utf8(y) ==> decode_entries(x + seq![0u8] + (y + seq![0u8] + t), es)
            == decode_entries(t, insert_entry(es, decode_utf8(x), decode_utf8(y))),
{
    text_fields_end_at_the_first_nul(x, t);
    text_fields_end_at_the_first_nul(x, y);
    text_fields_end_at_the_first_nul(x, y + seq![0u8] + t);
    text_fields_end_at_the_first_nul(y, t);
}

/// What a datagram is as a packet. Too few bytes are none, nor are bytes that
/// open with no known operation. A DATA packet and an ACK hold the number of
/// the block in the next two bytes; the rest of a DATA packet is its data.
pub proof fn blocks_are_read_from_their_places(buf: &[u8], r: Result<Packet, ParseError>)
    requires
        call_ensures(Packet::parse, (buf,), r),
    ensures
        match r {
            Ok(p) => parse_packet(buf@) == Ok::<PacketView, ParseError>(p@),
            Err(e) => parse_packet(buf@) == Err::<PacketView, ParseError>(e),
        },
        buf@.len() < 2 ==> r == Err::<Packet, ParseError>(
            ParseError::Truncated { need: 2, got: buf@.len() as usize },
        ),
        buf@.len() >= 2 && !(buf@[0] == 0 && 1 <= buf@[1] <= 6) ==> r == Err::<Packet, ParseError>(
            ParseError::UnknownOpcode((buf@[0] * 256 + buf@[1]) as u16),
        ),
        2 <= buf@.len() < 4 && buf@[0] == 0 && 3 <= buf@[1] <= 5 ==> r == Err::<Packet, ParseError>(
            ParseError::Truncated { need: 2, got: (buf@.len() - 2) as usize },
        ),
        buf@.len() >= 4 && buf@[0] == 0 && buf@[1] == 3 ==> (r matches Ok(p) && p@ == (
        PacketView::Data { block: (buf@[2] * 256 + buf@[3]) as u16, data: buf@.skip(4) })),
        buf@.len() >= 4 && buf@[0] == 0 && buf@[1] == 4 ==> (r matches Ok(p) && p@ == (
        PacketView::Ack { block: (buf@[2] * 256 + buf@[3]) as u16 })),
        r matches Ok(p) ==> buf@.len() >= 2 && buf@[0] == 0 && match p@ {
            PacketView::Rrq { .. } => buf@[1] == 1,
            PacketView::Wrq { .. } => buf@[1] == 2,
            PacketView::Data { .. } => buf@[1] == 3,
            PacketView::Ack { .. } => buf@[1] == 4,
            PacketView::Error { .. } => buf@[1] == 5,
            PacketView::Oack { .. } => buf@[1] == 6,
        },
{
    if buf@.len() >= 4 {
        assert(buf@.skip(2).skip(2) =~= buf@.skip(4));
        assert(buf@.skip(2)[0] == buf@[2] && buf@.skip(2)[1] == buf@[3]);
    }
}

/// A datagram that opens with the number of the ERROR operation holds the code
/// in the next two bytes and the message in the text field after them; what
/// follows is passed over.
pub proof fn errors_are_read_from_their_places(hi: u8, lo: u8, x: Seq<u8>, y: Seq<u8>)
    requires
        forall|i: int| 0 <= i < x.len() ==> #[trigger] x[i] != 0,
    ensures
        parse_packet(seq![0u8, 5u8, hi, lo] + x) == Err::<PacketView, ParseError>(
            ParseError::UnterminatedString,
        ),
        parse_packet(seq![0u8, 5u8, hi, lo] + (x + seq![0u8] + y)) == (if valid_utf8(x) {
            Ok::<PacketView, ParseError>(
                PacketView::Error {
                    code: numbered_code((hi * 256 + lo) as u16),
                    message: decode_utf8(x),
                },
            )
        } else {
            Err::<PacketView, ParseError>(ParseError::InvalidUtf8)
        }),
{
    let a = seq![0u8, 5u8, hi, lo] + x;
    let b = seq![0u8, 5u8, hi, lo] + (x + seq![0u8] + y);
    text_fields_end_at_the_first_nul(x, y);
    assert(a.skip(2).skip(2) =~= x);
    assert(b.skip(2).skip(2) =~= x + seq![0u8] + y);
}

/// A datagram that opens with the number of a request holds the name of the
/// file, the mode and the options, in this order.
pub proof fn requests_are_read_from_their_places(op: u8, x: Seq<u8>, y: Seq<u8>, t: Seq<u8>)
    requires
        op == 1 || op == 2,
        forall|i: int| 0 <= i < x.len() ==> #[trigger] x[i] != 0,
        forall|i: int| 0 <= i < y.len() ==> #[trigger] y[i] != 0,
    ensures
        ({
            let whole = parse_packet(seq![0u8, op] + (x + seq![0u8] + (y + seq![0u8] + t)));
            &&& valid_utf8(x) && valid_utf8(y) ==> match decode_entries(t, Entries::empty()) {
                Ok(options) => whole == Ok::<PacketView, ParseError>(
                    if op == 1 {
                        PacketView::Rrq { filename: decode_utf8(x), mode: decode_utf8(y), options }
                    } else {
                        PacketView::Wrq { filename: decode_utf8(x), mode: decode_utf8(y), options }
                    },
                ),
                Err(e) => whole == Err::<PacketView, ParseError>(e),
            }
            &&& !(valid_utf8(x) && valid_utf8(y)) ==> whole == Err::<PacketView, ParseError>(
                ParseError::InvalidUtf8,
            )
        }),
        parse_packet(seq![0u8, op] + x) == Err::<PacketView, ParseError>(
            ParseError::UnterminatedString,
        ),
        valid_utf8(x) ==> parse_packet(seq![0u8, op] + (x + seq![0u8] + y)) == Err::<
            PacketView,
            ParseError,
        >(ParseError::UnterminatedString),
        !valid_utf8(x) ==> parse_packet(seq![0u8, op] + (x + seq![0u8] + t)) == Err::<
            PacketView,
            ParseError,
        >(ParseError::InvalidUtf8),
{
    text_fields_end_at_the_first_nul(x, t);
    assert((seq![0u8, op] + (x + seq![0u8] + t)).skip(2) =~= x + seq![0u8] + t);
    let rest = y + seq![0u8] + t;
    text_fields_end_at_the_first_nul(x, rest);
    text_fields_end_at_the_first_nul(x, y);
    text_fields_end_at_the_first_nul(y, t);
    assert((seq![0u8, op] + (x + seq![0u8] + rest)).skip(2) =~= x + seq![0u8] + rest);
    assert((seq![0u8, op] + x).skip(2) =~= x);
    assert((seq![0u8, op] + (x + seq![0u8] + y)).skip(2) =~= x + seq![0u8] + y);
}

/// A datagram that opens with the number of the OACK operation holds options.
pub proof fn announcements_are_read_from_their_place(t: Seq<u8>)
    ensures
        parse_packet(seq![0u8, 6u8] + t) == (match decode_entries(t, Entries::empty()) {
            Ok(options) => Ok::<PacketView, ParseError>(PacketView::Oack { options }),
            Err(e) => Err::<PacketView, ParseError>(e),
        }),
{
    assert((seq![0u8, 6u8] + t).skip(2) =~= t);
}

/// Options are read from all of the bytes, and written to the end of a buffer.
pub proof fn options_go_over_the_wire(
    bytes: &[u8],
    r: Result<Options, ParseError>,
    o: &Options,
    buf: &mut bytes::BytesMut,
)
    requires
        call_ensures(Options::decode_from, (bytes,), r),
        call_ensures(Options::encode_into, (o, buf), ()),
    ensures
        match r {
            Ok(x) => decode_entries(bytes@, Entries::empty()) == Ok::<Entries, ParseError>(x@),
            Err(e) => decode_entries(bytes@, Entries::empty()) == Err::<Entries, ParseError>(e),
        },
        buffer_content(*final(buf)) == buffer_content(*old(buf)) + encode_entries(o@),
{
}

/// A set of options starts empty, shows its entries in order, and is copied
/// with them.
pub proof fn options_show_their_entries(
    a: Options,
    d: Options,
    o: &Options,
    none: bool,
    v: Vec<(&str, &str)>,
    c: Options,
    i: int,
)
    requires
        call_ensures(Options::new, (), a),
        call_ensures(Options::default, (), d),
        call_ensures(Options::is_empty, (o,), none),
        call_ensures(Options::iter, (o,), v),
        call_ensures(Options::clone, (o,), c),
    ensures
        a@.len() == 0 && d@.len() == 0,
        none <==> o@.len() == 0,
        v@.len() == o@.len(),
        0 <= i < v@.len() ==> o@[i] == (v@[i].0@, v@[i].1@),
        c@ == o@,
{
}

/// A copy of a packet is the same packet, and a packet can be written where a
/// buffer can grow to what it takes.
pub proof fn packets_are_copied_whole(p: &Packet, q: Packet, fits: bool)
    requires
        call_ensures(Packet::clone, (p,), q),
        call_ensures(Packet::fits, (p,), fits),
    ensures
        q@ == p@,
        fits <==> encode_packet(p@).len() <= isize::MAX as int / 2,
{
}

/// Failures keep the text that they are made of.
pub proof fn failures_keep_their_text(t: &str, a: TftpError, e: ParseError, b: TftpError)
    requires
        call_ensures(TftpError::protocol, (t,), a),
        call_ensures(<TftpError as From<ParseError>>::from, (e,), b),
    ensures
        a@ == ErrorView::Protocol(t@),
        b@ == ErrorView::Parse(parse_error_message(e)),
{
}

/// What is received is the packet in the datagram; where there is none, the
/// failure says so: what is wrong with the datagram, what the operating system
/// reported, or that the time was up.
pub proof fn datagrams_become_packets(r: Received, out: Result<Packet, TftpError>)
    requires
        call_ensures(recv_packet, (r,), out),
    ensures
        match r {
            Received::Datagram(bytes) => match parse_packet(bytes@) {
                Ok(p) => out matches Ok(q) && q@ == p,
                Err(e) => out matches Err(x) && x@ == ErrorView::Parse(parse_error_message(e)),
            },
            Received::Failed(text) => out matches Err(x) && x@ == ErrorView::Io(text@),
            Received::TimedOut => out matches Err(x) && x@ == ErrorView::Protocol(
                "recv timeout"@,
            ),
        },
{
}

/// The sentences that report what is wrong with a datagram.
pub proof fn parse_errors_are_reported(e: ParseError, s: String)
    requires
        call_ensures(ParseError::message, (&e,), s),
    ensures
        s@ == parse_error_message(e),
        match e {
            ParseError::Truncated { need, got } => s@ == "buffer too short: need "@ + decimal(
                need as nat,
            ) + ", got "@ + decimal(got as nat),
            ParseError::UnknownOpcode(v) => s@ == "unknown opcode: "@ + decimal(v as nat),
            ParseError::UnterminatedString => s@ == "missing NUL terminator in string field"@,
            ParseError::InvalidUtf8 => s@ == "invalid UTF-8 in string field"@,
            ParseError::BlockMismatch { expected, got } => s@
                == "DATA block number mismatch: expected "@ + decimal(expected as nat) + ", got "@
                + decimal(got as nat),
            ParseError::BlockWrap => s@
                == "DATA block number wraps from 65535 to 0 not allowed in single transfer"@,
        },
{
}

/// The texts that show packets.
pub proof fn packets_are_shown_with_their_fields(p: &Packet, s: String)
    requires
        call_ensures(Packet::describe, (p,), s),
    ensures
        s@ == packet_text(p@),
        match p@ {
            PacketView::Rrq { filename, mode, options } => s@ == "Rrq"@ + " { filename: "@
                + quoted_text(filename) + ", mode: "@ + quoted_text(mode) + ", options: "@
                + options_text(quoted_entries(options)) + " }"@,
            PacketView::Wrq { filename, mode, options } => s@ == "Wrq"@ + " { filename: "@
                + quoted_text(filename) + ", mode: "@ + quoted_text(mode) + ", options: "@
                + options_text(quoted_entries(options)) + " }"@,
            PacketView::Data { block, data } => s@ == "Data { block: "@ + decimal(block as nat)
                + ", data: "@ + (seq!['b', '"'] + byte_texts(data) + seq!['"']) + " }"@,
            PacketView::Ack { block } => s@ == "Ack { block: "@ + decimal(block as nat) + " }"@,
            PacketView::Error { code, message } => s@ == "Error { code: "@ + code_name(code) + ", message: "@ + quoted_text(
                message,
            ) + " }"@,
            PacketView::Oack { options } => s@ == "Oack { options: "@ + options_text(
                quoted_entries(options),
            ) + " }"@,
        },
{
}

/// The text that shows options: their names and values quoted, in order, with
/// commas between them.
pub proof fn options_are_shown_in_order(es: Entries, e: (Seq<char>, Seq<char>))
    ensures
        options_text(es) == "Options { inner: {"@ + entries_text(es) + "} }"@,
        entries_text(Entries::empty()) == Seq::<char>::empty(),
        entries_text(seq![e]) == e.0 + ": "@ + e.1,
        es.len() > 0 ==> entries_text(es.push(e)) == entries_text(es) + ", "@ + (e.0 + ": "@ + e.1),
        quoted_entries(es).len() == es.len(),
        forall|i: int|
            0 <= i < es.len() ==> #[trigger] quoted_entries(es)[i] == (
                quoted_text(es[i].0),
                quoted_text(es[i].1),
            ),
{
    assert(es.push(e).drop_last() =~= es);
}

/// The texts that are put together of quoted parts.
pub proof fn quoted_parts_are_put_together(
    kind: &str,
    filename: &str,
    mode: &str,
    options: &str,
    request: String,
    code: TftpErrorCode,
    message: &str,
    error: String,
    quoted: &Vec<(String, String)>,
    whole: String,
    o: &Options,
    shown: String,
)
    requires
        call_ensures(describe_request, (kind, filename, mode, options), request),
        call_ensures(describe_error, (code, message), error),
        call_ensures(describe_entries, (quoted,), whole),
        call_ensures(Options::describe, (o,), shown),
    ensures
        request@ == kind@ + " { filename: "@ + filename@ + ", mode: "@ + mode@ + ", options: "@
            + options@ + " }"@,
        error@ == "Error { code: "@ + code_name(code) + ", message: "@ + message@ + " }"@,
        whole@ == options_text(entries_of(quoted@)),
        entries_of(quoted@).len() == quoted@.len(),
        forall|i: int|
            0 <= i < quoted@.len() ==> #[trigger] entries_of(quoted@)[i] == (
                quoted@[i].0@,
                quoted@[i].1@,
            ),
        shown@ == options_text(quoted_entries(o@)),
{
}

/// The texts of bytes follow one another.
pub proof fn bytes_are_shown_one_after_the_other(a: Seq<u8>, b: Seq<u8>, c: u8)
    ensures
        byte_texts(Seq::empty()) == Seq::<char>::empty(),
        byte_texts(seq![c]) == byte_text(c),
        byte_texts(a + b) == byte_texts(a) + byte_texts(b),
    decreases b.len(),
{
    assert(seq![c].drop_last() =~= Seq::empty());
    assert(byte_texts(seq![c].drop_last()) =~= Seq::<char>::empty());
    assert(byte_texts(seq![c]) =~= byte_text(c));
    if b.len() == 0 {
        assert(a + b =~= a);
        assert(byte_texts(a) + byte_texts(b) =~= byte_texts(a));
    } else {
        bytes_are_shown_one_after_the_other(a, b.drop_last(), c);
        assert((a + b).drop_last() =~= a + b.drop_last());
        assert(byte_texts(a + b) =~= byte_texts(a) + byte_texts(b));
    }
}

} // verus!
