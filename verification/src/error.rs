//! Errors: the codes that an ERROR packet carries, and what a transfer fails
//! with.

use crate::text::{decimal, decimal_text};
use vstd::prelude::*;
use vstd::string::*;

verus! {

/// The code of an ERROR packet.
#[derive(Debug, Clone, Copy, PartialEq, Eq, Structural)]
pub enum TftpErrorCode {
    NotDefined,
    FileNotFound,
    AccessViolation,
    DiskFull,
    IllegalOperation,
    UnknownTransferId,
    FileAlreadyExists,
    NoSuchUser,
    OptionNegotiation,
}

/// The number that stands for a code on the wire.
pub open spec fn code_number(code: TftpErrorCode) -> u16 {
    match code {
        TftpErrorCode::NotDefined => 0,
        TftpErrorCode::FileNotFound => 1,
        TftpErrorCode::AccessViolation => 2,
        TftpErrorCode::DiskFull => 3,
        TftpErrorCode::IllegalOperation => 4,
        TftpErrorCode::UnknownTransferId => 5,
        TftpErrorCode::FileAlreadyExists => 6,
        TftpErrorCode::NoSuchUser => 7,
        TftpErrorCode::OptionNegotiation => 8,
    }
}

/// The code that a number on the wire stands for: the one with that number,
/// or `NotDefined` where there is none.
pub open spec fn numbered_code(v: u16) -> TftpErrorCode {
    match v {
        1 => TftpErrorCode::FileNotFound,
        2 => TftpErrorCode::AccessViolation,
        3 => TftpErrorCode::DiskFull,
        4 => TftpErrorCode::IllegalOperation,
        5 => TftpErrorCode::UnknownTransferId,
        6 => TftpErrorCode::FileAlreadyExists,
        7 => TftpErrorCode::NoSuchUser,
        8 => TftpErrorCode::OptionNegotiation,
        _ => TftpErrorCode::NotDefined,
    }
}

/// The text that describes a code where nothing more is known.
pub open spec fn code_message(code: TftpErrorCode) -> Seq<char> {
    match code {
        TftpErrorCode::NotDefined => "Not defined"@,
        TftpErrorCode::FileNotFound => "File not found"@,
        TftpErrorCode::AccessViolation => "Access violation"@,
        TftpErrorCode::DiskFull => "Disk full or allocation exceeded"@,
        TftpErrorCode::IllegalOperation => "Illegal TFTP operation"@,
        TftpErrorCode::UnknownTransferId => "Unknown transfer ID"@,
        TftpErrorCode::FileAlreadyExists => "File already exists"@,
        TftpErrorCode::NoSuchUser => "No such user"@,
        TftpErrorCode::OptionNegotiation => "Option negotiation failed"@,
    }
}

/// The name of a code, as it is spelled in this module.
pub open spec fn code_name(code: TftpErrorCode) -> Seq<char> {
    match code {
        TftpErrorCode::NotDefined => "NotDefined"@,
        TftpErrorCode::FileNotFound => "FileNotFound"@,
        TftpErrorCode::AccessViolation => "AccessViolation"@,
        TftpErrorCode::DiskFull => "DiskFull"@,
        TftpErrorCode::IllegalOperation => "IllegalOperation"@,
        TftpErrorCode::UnknownTransferId => "UnknownTransferId"@,
        TftpErrorCode::FileAlreadyExists => "FileAlreadyExists"@,
        TftpErrorCode::NoSuchUser => "NoSuchUser"@,
        TftpErrorCode::OptionNegotiation => "OptionNegotiation"@,
    }
}

impl TftpErrorCode {
    /// The code with the number `v`; `NotDefined` where there is none.
    pub fn from_u16(v: u16) -> (r: Self)
        ensures
            r == numbered_code(v),
    {
        match v {
            1 => Self::FileNotFound,
            2 => Self::AccessViolation,
            3 => Self::DiskFull,
            4 => Self::IllegalOperation,
            5 => Self::UnknownTransferId,
            6 => Self::FileAlreadyExists,
            7 => Self::NoSuchUser,
            8 => Self::OptionNegotiation,
            _ => Self::NotDefined,
        }
    }

    /// The number of the code.
    pub fn as_u16(self) -> (v: u16)
        ensures
            v == code_number(self),
    {
        match self {
            Self::NotDefined => 0,
            Self::FileNotFound => 1,
            Self::AccessViolation => 2,
            Self::DiskFull => 3,
            Self::IllegalOperation => 4,
            Self::UnknownTransferId => 5,
            Self::FileAlreadyExists => 6,
            Self::NoSuchUser => 7,
            Self::OptionNegotiation => 8,
        }
    }

    /// A text for the code where nothing more is known.
    pub fn default_message(self) -> (s: &'static str)
        ensures
            s@ == code_message(self),
    {
        match self {
            Self::NotDefined => "Not defined",
            Self::FileNotFound => "File not found",
            Self::AccessViolation => "Access violation",
            Self::DiskFull => "Disk full or allocation exceeded",
            Self::IllegalOperation => "Illegal TFTP operation",
            Self::UnknownTransferId => "Unknown transfer ID",
            Self::FileAlreadyExists => "File already exists",
            Self::NoSuchUser => "No such user",
            Self::OptionNegotiation => "Option negotiation failed",
        }
    }

    /// The name of the code.
    pub fn name(self) -> (s: &'static str)
        ensures
            s@ == code_name(self),
    {
        match self {
            Self::NotDefined => "NotDefined",
            Self::FileNotFound => "FileNotFound",
            Self::AccessViolation => "AccessViolation",
            Self::DiskFull => "DiskFull",
            Self::IllegalOperation => "IllegalOperation",
            Self::UnknownTransferId => "UnknownTransferId",
            Self::FileAlreadyExists => "FileAlreadyExists",
            Self::NoSuchUser => "NoSuchUser",
            Self::OptionNegotiation => "OptionNegotiation",
        }
    }
}

/// The number of a code leads back to it, and a number that belongs to no
/// code stands for `NotDefined`.
pub proof fn code_numbers_lead_back(code: TftpErrorCode, v: u16)
    ensures
        numbered_code(code_number(code)) == code,
        v > 8 ==> numbered_code(v) == TftpErrorCode::NotDefined,
        v <= 8 ==> code_number(numbered_code(v)) == v,
{
}

/// What a transfer fails with. `Io` holds the text of the failure that the
/// operating system reported.
#[derive(Debug, Clone, PartialEq, Eq)]
pub enum TftpError {
    Io(String),
    Parse(String),
    Remote { code: TftpErrorCode, message: String },
    Timeout { retries: u32 },
    Aborted,
    UnsupportedOption(String),
    InvalidBlockSize(u16),
    Protocol(String),
}

/// The content of a [`TftpError`].
pub enum ErrorView {
    Io(Seq<char>),
    Parse(Seq<char>),
    Remote { code: TftpErrorCode, message: Seq<char> },
    Timeout { retries: u32 },
    Aborted,
    UnsupportedOption(Seq<char>),
    InvalidBlockSize(u16),
    Protocol(Seq<char>),
}

impl View for TftpError {
    type V = ErrorView;

    open spec fn view(&self) -> ErrorView {
        match *self {
            TftpError::Io(s) => ErrorView::Io(s@),
            TftpError::Parse(s) => ErrorView::Parse(s@),
            TftpError::Remote { code, message } => ErrorView::Remote { code, message: message@ },
            TftpError::Timeout { retries } => ErrorView::Timeout { retries },
            TftpError::Aborted => ErrorView::Aborted,
            TftpError::UnsupportedOption(s) => ErrorView::UnsupportedOption(s@),
            TftpError::InvalidBlockSize(v) => ErrorView::InvalidBlockSize(v),
            TftpError::Protocol(s) => ErrorView::Protocol(s@),
        }
    }
}

/// The sentence that reports an error.
pub open spec fn error_message(e: ErrorView) -> Seq<char> {
    match e {
        ErrorView::Io(s) => "I/O error: "@ + s,
        ErrorView::Parse(s) => "invalid packet: "@ + s,
        ErrorView::Remote { code, message } => "remote sent ERROR "@ + code_name(code) + ": "@
            + message,
        ErrorView::Timeout { retries } => "timeout after "@ + decimal(retries as nat)
            + " retries"@,
        ErrorView::Aborted => "transfer aborted by user"@,
        ErrorView::UnsupportedOption(s) => "unsupported option: "@ + s,
        ErrorView::InvalidBlockSize(v) => "invalid block size: "@ + decimal(v as nat),
        ErrorView::Protocol(s) => "protocol violation: "@ + s,
    }
}

impl TftpError {
    /// The sentence that reports the error.
    pub fn message(&self) -> (s: String)
        ensures
            s@ == error_message(self@),
    {
        match self {
            TftpError::Io(t) => "I/O error: ".to_owned().concat(t.as_str()),
            TftpError::Parse(t) => "invalid packet: ".to_owned().concat(t.as_str()),
            TftpError::Remote { code, message } => "remote sent ERROR ".to_owned().concat(
                code.name(),
            ).concat(": ").concat(message.as_str()),
            TftpError::Timeout { retries } => "timeout after ".to_owned().concat(
                decimal_text(*retries as u64).as_str(),
            ).concat(" retries"),
            TftpError::Aborted => "transfer aborted by user".to_owned(),
            TftpError::UnsupportedOption(t) => "unsupported option: ".to_owned().concat(
                t.as_str(),
            ),
            TftpError::InvalidBlockSize(v) => "invalid block size: ".to_owned().concat(
                decimal_text(*v as u64).as_str(),
            ),
            TftpError::Protocol(t) => "protocol violation: ".to_owned().concat(t.as_str()),
        }
    }

    /// A violation of the protocol, described by `text`.
    pub fn protocol(text: &str) -> (e: Self)
        ensures
            e@ == ErrorView::Protocol(text@),
    {
        TftpError::Protocol(text.to_owned())
    }
}

} // verus!
