//! Packets and their encoding.
//!
//! Every packet opens with a two-byte operation code, the high byte first. A
//! text field is its UTF-8 bytes, closed by a NUL byte.

use crate::error::{
    code_name, code_number, code_numbers_lead_back, numbered_code, ErrorView, TftpError,
    TftpErrorCode,
};
use crate::opcode::{numbered_opcode, opcode_number, opcode_numbers_lead_back, Opcode};
use crate::options::{
    decode_entries, decoded_entries_are_plain, encode_entries, options_read_back, options_text,
    quoted_entries, sorted, Entries, Options,
};
use crate::text::{decimal, decimal_text};
use crate::wire::{
    as_slice, be_bytes, be_bytes_read_back, be_number, buffer_content, byte_texts, bytes_content,
    bytes_literal, copy_from_slice, growable_to, new_buffer, number_of, put_slice, put_u16, put_u8, quoted,
    quoted_text, utf8_text,
};
use vstd::prelude::*;
use vstd::slice::*;
use vstd::string::*;
use vstd::utf8::*;

verus! {

/// Why a run of bytes is no packet.
#[derive(Debug, Clone, Copy, PartialEq, Eq, Structural)]
pub enum ParseError {
    Truncated { need: usize, got: usize },
    UnknownOpcode(u16),
    UnterminatedString,
    InvalidUtf8,
    BlockMismatch { expected: u16, got: u16 },
    BlockWrap,
}

/// A text on the wire: its UTF-8 bytes and a NUL byte.
pub open spec fn text_field(s: Seq<char>) -> Seq<u8> {
    encode_utf8(s).push(0)
}

/// The place of the first NUL byte, or the length where there is none.
pub open spec fn nul_index(b: Seq<u8>) -> nat
    decreases b.len(),
{
    if b.len() == 0 || b[0] == 0 {
        0
    } else {
        1 + nul_index(b.drop_first())
    }
}

/// The text field that opens `b`, and the bytes after it.
pub open spec fn take_text(b: Seq<u8>) -> Result<(Seq<char>, Seq<u8>), ParseError> {
    let n = nul_index(b) as int;
    if n == b.len() {
        Err(ParseError::UnterminatedString)
    } else if !valid_utf8(b.take(n)) {
        Err(ParseError::InvalidUtf8)
    } else {
        Ok((decode_utf8(b.take(n)), b.skip(n + 1)))
    }
}

pub(crate) proof fn lemma_nul_index(b: Seq<u8>, i: int)
    requires
        0 <= i <= b.len(),
        forall|j: int| 0 <= j < i ==> #[trigger] b[j] != 0,
    ensures
        nul_index(b) <= b.len(),
        i <= nul_index(b),
        i < b.len() && b[i] == 0 ==> nul_index(b) == i,
        i == b.len() ==> nul_index(b) == i,
    decreases b.len(),
{
    if b.len() > 0 && b[0] != 0 {
        let rest = b.drop_first();
        if i > 0 {
            assert forall|j: int| 0 <= j < i - 1 implies #[trigger] rest[j] != 0 by {
                assert(rest[j] == b[j + 1]);
            }
            lemma_nul_index(rest, i - 1);
        } else {
            lemma_nul_index(rest, 0);
        }
    }
}

/// What follows a text field is shorter than what it opened.
pub proof fn taken_text_shortens(b: Seq<u8>)
    ensures
        take_text(b) matches Ok((_, rest)) ==> rest.len() < b.len(),
{
    lemma_nul_index(b, 0);
}

/// Reads the text field that opens `buf`; hands back the bytes after it.
pub fn take_cstr(buf: &[u8]) -> (r: Result<(String, &[u8]), ParseError>)
    ensures
        match r {
            Ok((s, rest)) => take_text(buf@) == Ok::<(Seq<char>, Seq<u8>), ParseError>(
                (s@, rest@),
            ),
            Err(e) => take_text(buf@) == Err::<(Seq<char>, Seq<u8>), ParseError>(e),
        },
{
    let mut pos: usize = 0;
    while pos < buf.len() && buf[pos] != 0
        invariant
            pos <= buf.len(),
            forall|j: int| 0 <= j < pos ==> #[trigger] buf@[j] != 0,
        decreases buf.len() - pos,
    {
        pos = pos + 1;
    }
    proof {
        lemma_nul_index(buf@, pos as int);
    }
    if pos == buf.len() {
        return Err(ParseError::UnterminatedString);
    }
    let field = slice_subrange(buf, 0, pos);
    assert(field@ =~= buf@.take(pos as int));
    match utf8_text(field) {
        Some(s) => {
            let rest = slice_subrange(buf, pos + 1, buf.len());
            assert(rest@ =~= buf@.skip(pos + 1));
            Ok((s, rest))
        },
        None => Err(ParseError::InvalidUtf8),
    }
}

/// Appends a text field to `buf`.
pub(crate) fn put_cstr(buf: &mut bytes::BytesMut, s: &str)
    requires
        growable_to(buffer_content(*old(buf)).len() + text_field(s@).len()),
    ensures
        buffer_content(*final(buf)) == buffer_content(*old(buf)) + text_field(s@),
{
    put_slice(buf, s.as_bytes());
    put_u8(buf, 0);
    assert(buffer_content(*buf) =~= buffer_content(*old(buf)) + text_field(s@));
}

/// The number of bytes that a text field takes after `start` others, if it
/// can be counted.
pub(crate) fn field_len_after(s: &str, start: usize) -> (r: Option<usize>)
    ensures
        match r {
            Some(n) => n == start + text_field(s@).len(),
            None => start + text_field(s@).len() > usize::MAX,
        },
{
    match start.checked_add(s.as_bytes().len()) {
        None => None,
        Some(n) => n.checked_add(1),
    }
}

/// The sentence that reports a parse error.
pub open spec fn parse_error_message(e: ParseError) -> Seq<char> {
    match e {
        ParseError::Truncated { need, got } => "buffer too short: need "@ + decimal(need as nat)
            + ", got "@ + decimal(got as nat),
        ParseError::UnknownOpcode(v) => "unknown opcode: "@ + decimal(v as nat),
        ParseError::UnterminatedString => "missing NUL terminator in string field"@,
        ParseError::InvalidUtf8 => "invalid UTF-8 in string field"@,
        ParseError::BlockMismatch { expected, got } => "DATA block number mismatch: expected "@
            + decimal(expected as nat) + ", got "@ + decimal(got as nat),
        ParseError::BlockWrap =>
            "DATA block number wraps from 65535 to 0 not allowed in single transfer"@,
    }
}

impl ParseError {
    /// The sentence that reports the error.
    pub fn message(&self) -> (s: String)
        ensures
            s@ == parse_error_message(*self),
    {
        match *self {
            ParseError::Truncated { need, got } => "buffer too short: need ".to_owned().concat(
                decimal_text(need as u64).as_str(),
            ).concat(", got ").concat(decimal_text(got as u64).as_str()),
            ParseError::UnknownOpcode(v) => "unknown opcode: ".to_owned().concat(
                decimal_text(v as u64).as_str(),
            ),
            ParseError::UnterminatedString => "missing NUL terminator in string field".to_owned(),
            ParseError::InvalidUtf8 => "invalid UTF-8 in string field".to_owned(),
            ParseError::BlockMismatch { expected, got } =>
                "DATA block number mismatch: expected ".to_owned().concat(
                decimal_text(expected as u64).as_str(),
            ).concat(", got ").concat(decimal_text(got as u64).as_str()),
            ParseError::BlockWrap =>
                "DATA block number wraps from 65535 to 0 not allowed in single transfer".to_owned(),
        }
    }
}

impl vstd::std_specs::convert::FromSpecImpl<ParseError> for TftpError {
    open spec fn obeys_from_spec() -> bool {
        false
    }

    open spec fn from_spec(e: ParseError) -> Self {
        arbitrary()
    }
}

impl From<ParseError> for TftpError {
    fn from(e: ParseError) -> (r: Self)
        ensures
            r@ == ErrorView::Parse(parse_error_message(e)),
    {
        TftpError::Parse(e.message())
    }
}

/// A packet.
#[derive(Debug, PartialEq, Eq)]
pub enum Packet {
    /// A request to read a file.
    Rrq { filename: String, mode: String, options: Options },
    /// A request to write a file.
    Wrq { filename: String, mode: String, options: Options },
    /// A block of a file. The last one is shorter than the block size.
    Data { block: u16, data: bytes::Bytes },
    /// The acknowledgement of a block.
    Ack { block: u16 },
    /// The end of a transfer that failed.
    Error { code: TftpErrorCode, message: String },
    /// The options that a server accepts.
    Oack { options: Options },
}

/// The content of a [`Packet`].
pub enum PacketView {
    Rrq { filename: Seq<char>, mode: Seq<char>, options: Entries },
    Wrq { filename: Seq<char>, mode: Seq<char>, options: Entries },
    Data { block: u16, data: Seq<u8> },
    Ack { block: u16 },
    Error { code: TftpErrorCode, message: Seq<char> },
    Oack { options: Entries },
}

impl View for Packet {
    type V = PacketView;

    open spec fn view(&self) -> PacketView {
        match *self {
            Packet::Rrq { filename, mode, options } => PacketView::Rrq {
                filename: filename@,
                mode: mode@,
                options: options@,
            },
            Packet::Wrq { filename, mode, options } => PacketView::Wrq {
                filename: filename@,
                mode: mode@,
                options: options@,
            },
            Packet::Data { block, data } => PacketView::Data { block, data: bytes_content(data) },
            Packet::Ack { block } => PacketView::Ack { block },
            Packet::Error { code, message } => PacketView::Error { code, message: message@ },
            Packet::Oack { options } => PacketView::Oack { options: options@ },
        }
    }
}

impl Clone for Packet {
    fn clone(&self) -> (p: Self)
        ensures
            p@ == self@,
    {
        match self {
            Packet::Rrq { filename, mode, options } => Packet::Rrq {
                filename: filename.clone(),
                mode: mode.clone(),
                options: options.clone(),
            },
            Packet::Wrq { filename, mode, options } => Packet::Wrq {
                filename: filename.clone(),
                mode: mode.clone(),
                options: options.clone(),
            },
            Packet::Data { block, data } => Packet::Data { block: *block, data: data.clone() },
            Packet::Ack { block } => Packet::Ack { block: *block },
            Packet::Error { code, message } => Packet::Error {
                code: *code,
                message: message.clone(),
            },
            Packet::Oack { options } => Packet::Oack { options: options.clone() },
        }
    }
}

/// The operation of a packet.
pub open spec fn packet_opcode(p: PacketView) -> Opcode {
    match p {
        PacketView::Rrq { .. } => Opcode::Rrq,
        PacketView::Wrq { .. } => Opcode::Wrq,
        PacketView::Data { .. } => Opcode::Data,
        PacketView::Ack { .. } => Opcode::Ack,
        PacketView::Error { .. } => Opcode::Error,
        PacketView::Oack { .. } => Opcode::Oack,
    }
}

/// What follows the operation code of a packet.
pub open spec fn encode_body(p: PacketView) -> Seq<u8> {
    match p {
        PacketView::Rrq { filename, mode, options } => text_field(filename) + text_field(mode)
            + encode_entries(options),
        PacketView::Wrq { filename, mode, options } => text_field(filename) + text_field(mode)
            + encode_entries(options),
        PacketView::Data { block, data } => be_bytes(block) + data,
        PacketView::Ack { block } => be_bytes(block),
        PacketView::Error { code, message } => be_bytes(code_number(code)) + text_field(message),
        PacketView::Oack { options } => encode_entries(options),
    }
}

/// A packet on the wire.
pub open spec fn encode_packet(p: PacketView) -> Seq<u8> {
    be_bytes(opcode_number(packet_opcode(p))) + encode_body(p)
}

/// The filename, mode and options of a request.
pub open spec fn parse_request(b: Seq<u8>) -> Result<
    (Seq<char>, Seq<char>, Entries),
    ParseError,
> {
    match take_text(b) {
        Err(e) => Err(e),
        Ok((filename, rest)) => match take_text(rest) {
            Err(e) => Err(e),
            Ok((mode, tail)) => match decode_entries(tail, Entries::empty()) {
                Err(e) => Err(e),
                Ok(options) => Ok((filename, mode, options)),
            },
        },
    }
}

/// The packet with the operation `op` and the body `b`.
pub open spec fn parse_body(op: Opcode, b: Seq<u8>) -> Result<PacketView, ParseError> {
    match op {
        Opcode::Rrq => match parse_request(b) {
            Err(e) => Err(e),
            Ok((filename, mode, options)) => Ok(PacketView::Rrq { filename, mode, options }),
        },
        Opcode::Wrq => match parse_request(b) {
            Err(e) => Err(e),
            Ok((filename, mode, options)) => Ok(PacketView::Wrq { filename, mode, options }),
        },
        Opcode::Oack => match decode_entries(b, Entries::empty()) {
            Err(e) => Err(e),
            Ok(options) => Ok(PacketView::Oack { options }),
        },
        _ => if b.len() < 2 {
            Err(ParseError::Truncated { need: 2, got: b.len() as usize })
        } else {
            let number = be_number(b[0], b[1]);
            match op {
                Opcode::Data => Ok(PacketView::Data { block: number, data: b.skip(2) }),
                Opcode::Ack => Ok(PacketView::Ack { block: number }),
                _ => match take_text(b.skip(2)) {
                    Err(e) => Err(e),
                    Ok((message, _)) => Ok(
                        PacketView::Error { code: numbered_code(number), message },
                    ),
                },
            }
        },
    }
}

/// The packet that `b` writes. What follows an ACK or the message of an ERROR
/// is passed over.
pub open spec fn parse_packet(b: Seq<u8>) -> Result<PacketView, ParseError> {
    if b.len() < 2 {
        Err(ParseError::Truncated { need: 2, got: b.len() as usize })
    } else {
        match numbered_opcode(be_number(b[0], b[1])) {
            None => Err(ParseError::UnknownOpcode(be_number(b[0], b[1]))),
            Some(op) => parse_body(op, b.skip(2)),
        }
    }
}

/// Reads the filename, mode and options of a request.
fn take_request(buf: &[u8]) -> (r: Result<(String, String, Options), ParseError>)
    ensures
        match r {
            Ok((f, m, o)) => parse_request(buf@) == Ok::<
                (Seq<char>, Seq<char>, Entries),
                ParseError,
            >((f@, m@, o@)),
            Err(e) => parse_request(buf@) == Err::<(Seq<char>, Seq<char>, Entries), ParseError>(e),
        },
{
    match take_cstr(buf) {
        Err(e) => Err(e),
        Ok((filename, rest)) => match take_cstr(rest) {
            Err(e) => Err(e),
            Ok((mode, tail)) => match Options::decode_from(tail) {
                Err(e) => Err(e),
                Ok(options) => Ok((filename, mode, options)),
            },
        },
    }
}

impl Packet {
    /// The operation of the packet.
    pub fn opcode(&self) -> (op: Opcode)
        ensures
            op == packet_opcode(self@),
    {
        match self {
            Self::Rrq { .. } => Opcode::Rrq,
            Self::Wrq { .. } => Opcode::Wrq,
            Self::Data { .. } => Opcode::Data,
            Self::Ack { .. } => Opcode::Ack,
            Self::Error { .. } => Opcode::Error,
            Self::Oack { .. } => Opcode::Oack,
        }
    }

    /// Writes the packet.
    pub fn encode(&self) -> (buf: bytes::BytesMut)
        requires
            growable_to(encode_packet(self@).len()),
        ensures
            buffer_content(buf) == encode_packet(self@),
    {
        let mut buf = new_buffer();
        put_u16(&mut buf, self.opcode().as_u16());
        match self {
            Self::Rrq { filename, mode, options } | Self::Wrq { filename, mode, options } => {
                put_cstr(&mut buf, filename.as_str());
                put_cstr(&mut buf, mode.as_str());
                options.encode_into(&mut buf);
            },
            Self::Data { block, data } => {
                put_u16(&mut buf, *block);
                put_slice(&mut buf, as_slice(data));
            },
            Self::Ack { block } => {
                put_u16(&mut buf, *block);
            },
            Self::Error { code, message } => {
                put_u16(&mut buf, code.as_u16());
                put_cstr(&mut buf, message.as_str());
            },
            Self::Oack { options } => {
                options.encode_into(&mut buf);
            },
        }
        assert(buffer_content(buf) =~= encode_packet(self@));
        buf
    }

    /// Reads the packet that a datagram holds.
    pub fn parse(buf: &[u8]) -> (r: Result<Self, ParseError>)
        ensures
            match r {
                Ok(p) => parse_packet(buf@) == Ok::<PacketView, ParseError>(p@),
                Err(e) => parse_packet(buf@) == Err::<PacketView, ParseError>(e),
            },
    {
        if buf.len() < 2 {
            return Err(ParseError::Truncated { need: 2, got: buf.len() });
        }
        let op: u16 = number_of(buf[0], buf[1]);
        let rest = slice_subrange(buf, 2, buf.len());
        assert(rest@ =~= buf@.skip(2));
        match Opcode::from_u16(op) {
            None => Err(ParseError::UnknownOpcode(op)),
            Some(Opcode::Rrq) => match take_request(rest) {
                Err(e) => Err(e),
                Ok((filename, mode, options)) => Ok(Self::Rrq { filename, mode, options }),
            },
            Some(Opcode::Wrq) => match take_request(rest) {
                Err(e) => Err(e),
                Ok((filename, mode, options)) => Ok(Self::Wrq { filename, mode, options }),
            },
            Some(Opcode::Oack) => match Options::decode_from(rest) {
                Err(e) => Err(e),
                Ok(options) => Ok(Self::Oack { options }),
            },
            Some(op) => {
                if rest.len() < 2 {
                    return Err(ParseError::Truncated { need: 2, got: rest.len() });
                }
                let number: u16 = number_of(rest[0], rest[1]);
                let tail = slice_subrange(rest, 2, rest.len());
                assert(tail@ =~= rest@.skip(2));
                match op {
                    Opcode::Data => Ok(
                        Self::Data { block: number, data: copy_from_slice(tail) },
                    ),
                    Opcode::Ack => Ok(Self::Ack { block: number }),
                    _ => match take_cstr(tail) {
                        Err(e) => Err(e),
                        Ok((message, _)) => Ok(
                            Self::Error { code: TftpErrorCode::from_u16(number), message },
                        ),
                    },
                }
            },
        }
    }

    /// Whether the packet can be written: whether a buffer can grow to its
    /// length.
    pub fn fits(&self) -> (r: bool)
        ensures
            r == growable_to(encode_packet(self@).len()),
    {
        let body = match self {
            Self::Rrq { filename, mode, options } | Self::Wrq { filename, mode, options } => {
                match field_len_after(filename.as_str(), 2) {
                    None => None,
                    Some(n) => match field_len_after(mode.as_str(), n) {
                        None => None,
                        Some(m) => options.len_after(m),
                    },
                }
            },
            Self::Data { block, data } => as_slice(data).len().checked_add(4),
            Self::Ack { block } => Some(4),
            Self::Error { code, message } => field_len_after(message.as_str(), 4),
            Self::Oack { options } => options.len_after(2),
        };
        match body {
            Some(n) => n <= (isize::MAX as usize) / 2,
            None => false,
        }
    }

    /// A text that shows the packet.
    pub fn describe(&self) -> (s: String)
        ensures
            s@ == packet_text(self@),
    {
        match self {
            Self::Rrq { filename, mode, options } => describe_request(
                "Rrq",
                quoted(filename.as_str()).as_str(),
                quoted(mode.as_str()).as_str(),
                options.describe().as_str(),
            ),
            Self::Wrq { filename, mode, options } => describe_request(
                "Wrq",
                quoted(filename.as_str()).as_str(),
                quoted(mode.as_str()).as_str(),
                options.describe().as_str(),
            ),
            Self::Data { block, data } => "Data { block: ".to_owned().concat(
                decimal_text(*block as u64).as_str(),
            ).concat(", data: ").concat(bytes_literal(data).as_str()).concat(" }"),
            Self::Ack { block } => "Ack { block: ".to_owned().concat(
                decimal_text(*block as u64).as_str(),
            ).concat(" }"),
            Self::Error { code, message } => describe_error(
                *code,
                quoted(message.as_str()).as_str(),
            ),
            Self::Oack { options } => "Oack { options: ".to_owned().concat(
                options.describe().as_str(),
            ).concat(" }"),
        }
    }
}

/// The text of a request, from its quoted filename and mode and the text of
/// its options.
pub open spec fn request_text(
    kind: Seq<char>,
    filename: Seq<char>,
    mode: Seq<char>,
    options: Seq<char>,
) -> Seq<char> {
    kind + " { filename: "@ + filename + ", mode: "@ + mode + ", options: "@ + options + " }"@
}

/// The text of an ERROR packet, from its quoted message.
pub open spec fn error_text(code: TftpErrorCode, message: Seq<char>) -> Seq<char> {
    "Error { code: "@ + code_name(code) + ", message: "@ + message + " }"@
}

/// The text of a packet.
pub open spec fn packet_text(p: PacketView) -> Seq<char> {
    match p {
        PacketView::Rrq { filename, mode, options } => request_text(
            "Rrq"@,
            quoted_text(filename),
            quoted_text(mode),
            options_text(quoted_entries(options)),
        ),
        PacketView::Wrq { filename, mode, options } => request_text(
            "Wrq"@,
            quoted_text(filename),
            quoted_text(mode),
            options_text(quoted_entries(options)),
        ),
        PacketView::Data { block, data } => "Data { block: "@ + decimal(block as nat)
            + ", data: "@ + (seq!['b', '"'] + byte_texts(data) + seq!['"']) + " }"@,
        PacketView::Ack { block } => "Ack { block: "@ + decimal(block as nat) + " }"@,
        PacketView::Error { code, message } => error_text(code, quoted_text(message)),
        PacketView::Oack { options } => "Oack { options: "@ + options_text(quoted_entries(options))
            + " }"@,
    }
}

/// A text that shows a request, from its quoted filename and mode and the text
/// of its options.
pub fn describe_request(kind: &str, filename: &str, mode: &str, options: &str) -> (s: String)
    ensures
        s@ == request_text(kind@, filename@, mode@, options@),
{
    kind.to_owned().concat(" { filename: ").concat(filename).concat(", mode: ").concat(mode).concat(
        ", options: ",
    ).concat(options).concat(" }")
}

/// A text that shows an ERROR packet, from its quoted message.
pub fn describe_error(code: TftpErrorCode, message: &str) -> (s: String)
    ensures
        s@ == error_text(code, message@),
{
    "Error { code: ".to_owned().concat(code.name()).concat(", message: ").concat(message).concat(
        " }",
    )
}

/// Whether a text can stand in a text field: whether it holds no NUL.
pub open spec fn plain(s: Seq<char>) -> bool {
    forall|i: int| 0 <= i < s.len() ==> #[trigger] s[i] != '\0'
}

/// Whether all names and values can stand in text fields.
pub open spec fn plain_entries(es: Entries) -> bool {
    forall|i: int| 0 <= i < es.len() ==> plain((#[trigger] es[i]).0) && plain(es[i].1)
}

/// Whether a packet can be written so that it reads back: its texts hold no
/// NUL and its options are in order.
pub open spec fn writable(p: PacketView) -> bool {
    match p {
        PacketView::Rrq { filename, mode, options } => plain(filename) && plain(mode)
            && plain_entries(options) && sorted(options),
        PacketView::Wrq { filename, mode, options } => plain(filename) && plain(mode)
            && plain_entries(options) && sorted(options),
        PacketView::Data { .. } => true,
        PacketView::Ack { .. } => true,
        PacketView::Error { code, message } => plain(message),
        PacketView::Oack { options } => plain_entries(options) && sorted(options),
    }
}

/// A byte of the encoding is NUL only where the text holds a NUL.
proof fn lemma_plain_bytes(s: Seq<char>)
    ensures
        plain(s) <==> (forall|i: int| 0 <= i < encode_utf8(s).len() ==> #[trigger] encode_utf8(s)[i]
            != 0),
    decreases s.len(),
{
    let b = encode_utf8(s);
    if s.len() > 0 {
        let v = s[0] as u32;
        let rest = s.drop_first();
        let first = encode_scalar(v);
        lemma_plain_bytes(rest);
        char_is_scalar(s[0]);
        assert(b == first + encode_utf8(rest));
        assert(has_width_1_encoding(v) ==> ((v & 0x7F) as u8 == 0 <==> v == 0)) by {
            assert(v <= 0x7F ==> ((v & 0x7F) as u8 == 0 <==> v == 0)) by (bit_vector);
        }
        assert(leading_byte_width_2(v) != 0) by {
            assert((0xC0u8 | ((v >> 6) & 0x1F) as u8) != 0) by (bit_vector);
        }
        assert(leading_byte_width_3(v) != 0) by {
            assert((0xE0u8 | ((v >> 12) & 0x0F) as u8) != 0) by (bit_vector);
        }
        assert(leading_byte_width_4(v) != 0) by {
            assert((0xF0u8 | ((v >> 18) & 0x7) as u8) != 0) by (bit_vector);
        }
        assert(last_continuation_byte(v) != 0) by {
            assert((0x80u8 | (v & 0x3F) as u8) != 0) by (bit_vector);
        }
        assert(second_last_continuation_byte(v) != 0) by {
            assert((0x80u8 | ((v >> 6) & 0x3F) as u8) != 0) by (bit_vector);
        }
        assert(third_last_continuation_byte(v) != 0) by {
            assert((0x80u8 | ((v >> 12) & 0x3F) as u8) != 0) by (bit_vector);
        }
        char_u32_cast(s[0], v);
        assert(s[0] == '\0' <==> v == 0);
        assert((forall|i: int| 0 <= i < first.len() ==> #[trigger] first[i] != 0) <==> s[0]
            != '\0') by {
            if s[0] == '\0' {
                assert(first[0] == 0);
            }
        }
        assert(plain(s) <==> s[0] != '\0' && plain(rest)) by {
            if s[0] != '\0' && plain(rest) {
                assert forall|i: int| 0 <= i < s.len() implies #[trigger] s[i] != '\0' by {
                    if i > 0 {
                        assert(rest[i - 1] == s[i]);
                    }
                }
            }
            if plain(s) {
                assert forall|i: int| 0 <= i < rest.len() implies #[trigger] rest[i] != '\0' by {
                    assert(rest[i] == s[i + 1]);
                }
            }
        }
        let tail = encode_utf8(rest);
        assert((forall|i: int| 0 <= i < b.len() ==> #[trigger] b[i] != 0) <==> (forall|i: int|
            0 <= i < first.len() ==> #[trigger] first[i] != 0) && (forall|i: int|
            0 <= i < tail.len() ==> #[trigger] tail[i] != 0)) by {
            if forall|i: int| 0 <= i < b.len() ==> #[trigger] b[i] != 0 {
                assert forall|i: int| 0 <= i < first.len() implies #[trigger] first[i] != 0 by {
                    assert(b[i] == first[i]);
                }
                assert forall|i: int| 0 <= i < tail.len() implies #[trigger] tail[i] != 0 by {
                    assert(b[first.len() + i] == tail[i]);
                }
            }
        }
    }
}

/// A text without NUL, written as a text field before other bytes, reads back
/// as itself, and the other bytes are left.
pub proof fn text_field_reads_back(s: Seq<char>, tail: Seq<u8>)
    requires
        plain(s),
    ensures
        take_text(text_field(s) + tail) == Ok::<(Seq<char>, Seq<u8>), ParseError>((s, tail)),
{
    let bytes = encode_utf8(s);
    let b = text_field(s) + tail;
    lemma_plain_bytes(s);
    assert forall|j: int| 0 <= j < bytes.len() implies #[trigger] b[j] != 0 by {
        assert(b[j] == bytes[j]);
    }
    lemma_nul_index(b, bytes.len() as int);
    assert(b.take(bytes.len() as int) =~= bytes);
    assert(b.skip(bytes.len() as int + 1) =~= tail);
    encode_utf8_valid_utf8(s);
    encode_utf8_decode_utf8(s);
}

/// A text that was read from a text field holds no NUL.
pub proof fn taken_text_is_plain(b: Seq<u8>)
    ensures
        take_text(b) matches Ok((s, _)) ==> plain(s),
{
    let n = nul_index(b) as int;
    lemma_nul_index(b, 0);
    if n < b.len() && valid_utf8(b.take(n)) {
        decode_utf8_encode_utf8(b.take(n));
        lemma_plain_bytes(decode_utf8(b.take(n)));
        lemma_before_nul(b);
        assert forall|i: int| 0 <= i < b.take(n).len() implies #[trigger] b.take(n)[i] != 0 by {
            assert(b.take(n)[i] == b[i]);
        }
    }
}

proof fn lemma_before_nul(b: Seq<u8>)
    ensures
        forall|i: int| 0 <= i < nul_index(b) ==> #[trigger] b[i] != 0,
    decreases b.len(),
{
    if b.len() > 0 && b[0] != 0 {
        let rest = b.drop_first();
        lemma_before_nul(rest);
        lemma_nul_index(rest, 0);
        assert forall|i: int| 0 <= i < nul_index(b) implies #[trigger] b[i] != 0 by {
            if i > 0 {
                assert(rest[i - 1] == b[i]);
            }
        }
    }
}

/// A packet whose texts hold no NUL reads back from the wire as itself.
pub proof fn packet_reads_back(p: PacketView)
    requires
        writable(p),
    ensures
        parse_packet(encode_packet(p)) == Ok::<PacketView, ParseError>(p),
{
    let op = packet_opcode(p);
    let b = encode_packet(p);
    let body = encode_body(p);
    be_bytes_read_back(opcode_number(op));
    opcode_numbers_lead_back(op, 0);
    assert(b.skip(2) =~= body);
    assert(b[0] == be_bytes(opcode_number(op))[0] && b[1] == be_bytes(opcode_number(op))[1]);
    match p {
        PacketView::Rrq { filename, mode, options } => {
            lemma_request_reads_back(filename, mode, options);
        },
        PacketView::Wrq { filename, mode, options } => {
            lemma_request_reads_back(filename, mode, options);
        },
        PacketView::Data { block, data } => {
            be_bytes_read_back(block);
            assert(body.skip(2) =~= data);
        },
        PacketView::Ack { block } => {
            be_bytes_read_back(block);
        },
        PacketView::Error { code, message } => {
            be_bytes_read_back(code_number(code));
            code_numbers_lead_back(code, 0);
            assert(body.skip(2) =~= text_field(message) + Seq::<u8>::empty());
            text_field_reads_back(message, Seq::empty());
        },
        PacketView::Oack { options } => {
            options_read_back(options);
        },
    }
}

proof fn lemma_request_reads_back(filename: Seq<char>, mode: Seq<char>, options: Entries)
    requires
        plain(filename),
        plain(mode),
        plain_entries(options),
        sorted(options),
    ensures
        parse_request(text_field(filename) + text_field(mode) + encode_entries(options)) == Ok::<
            (Seq<char>, Seq<char>, Entries),
            ParseError,
        >((filename, mode, options)),
{
    let tail = encode_entries(options);
    assert(text_field(filename) + text_field(mode) + tail =~= text_field(filename) + (text_field(
        mode,
    ) + tail));
    text_field_reads_back(filename, text_field(mode) + tail);
    text_field_reads_back(mode, tail);
    options_read_back(options);
}

/// A packet that was read from the wire can be written so that it reads back
/// as itself.
pub proof fn parsed_packet_reads_back(b: Seq<u8>)
    ensures
        parse_packet(b) matches Ok(p) ==> writable(p) && parse_packet(encode_packet(p)) == Ok::<
            PacketView,
            ParseError,
        >(p),
{
    if let Ok(p) = parse_packet(b) {
        let body = b.skip(2);
        taken_text_is_plain(body);
        if let Ok((_, rest)) = take_text(body) {
            taken_text_is_plain(rest);
            if let Ok((_, tail)) = take_text(rest) {
                decoded_entries_are_plain(tail, Entries::empty());
            }
        }
        decoded_entries_are_plain(body, Entries::empty());
        taken_text_is_plain(body.skip(2));
        packet_reads_back(p);
    }
}

/// Bytes that follow an ACK, or the message of an ERROR, change nothing.
pub proof fn trailing_bytes_are_passed_over(p: PacketView, tail: Seq<u8>)
    requires
        writable(p),
        p is Ack || p is Error,
    ensures
        parse_packet(encode_packet(p) + tail) == Ok::<PacketView, ParseError>(p),
{
    let op = packet_opcode(p);
    let b = encode_packet(p) + tail;
    be_bytes_read_back(opcode_number(op));
    opcode_numbers_lead_back(op, 0);
    assert(b.skip(2) =~= encode_body(p) + tail);
    assert(b[0] == be_bytes(opcode_number(op))[0] && b[1] == be_bytes(opcode_number(op))[1]);
    match p {
        PacketView::Ack { block } => {
            be_bytes_read_back(block);
        },
        PacketView::Error { code, message } => {
            be_bytes_read_back(code_number(code));
            code_numbers_lead_back(code, 0);
            assert(b.skip(2).skip(2) =~= text_field(message) + tail);
            text_field_reads_back(message, tail);
        },
        _ => {},
    }
}

} // verus!
