//! A TFTP implementation: packets, option negotiation, and the decision logic
//! of clients and servers, written as functions and state machines over plain
//! values.
//!
//! Sockets, files, clocks and windows are not part of this crate. A caller
//! performs the actions that the state machines ask for and hands the outcome
//! back to them.

use vstd::prelude::*;

pub mod blocks;
pub mod client;
pub mod commands;
pub mod error;
pub mod exchange;
pub mod gui;
pub mod laws;
pub mod opcode;
pub mod options;
pub mod packet;
pub mod path;
pub mod peer;
pub mod sender;
pub mod server;
pub mod session;
pub mod text;
pub mod transfer;
pub mod wire;

pub use error::TftpError;
pub use opcode::Opcode;
pub use options::Negotiation;
pub use packet::{Packet, ParseError};
pub use session::{ClientConfig, TransferStats};

verus! {

/// The block size of a transfer that negotiated none.
pub const DEFAULT_BLOCK_SIZE: u16 = 512;

/// The largest block size that can be negotiated.
pub const MAX_BLOCK_SIZE: u16 = 65464;

/// The timeout of a transfer that negotiated none, in seconds.
pub const DEFAULT_TIMEOUT_SECS: u16 = 5;

/// The window of a transfer that negotiated none, in blocks.
pub const DEFAULT_WINDOW_SIZE: u16 = 1;

/// The largest window that can be negotiated, in blocks.
pub const MAX_WINDOW_SIZE: u16 = 65535;

/// A transfer mode. Octet is the only one.
#[derive(Debug, Clone, Copy, PartialEq, Eq, Structural)]
pub enum Mode {
    Octet,
}

impl Mode {
    /// The name that stands for the mode in a request.
    pub fn as_str(self) -> (s: &'static str)
        ensures
            s@ == "octet"@,
    {
        match self {
            Mode::Octet => "octet",
        }
    }

    /// The mode that a name in a request stands for, in any mixture of
    /// capital and small letters.
    pub fn parse(s: &str) -> (r: Option<Self>)
        ensures
            r == (if text::ascii_lower_text(s@) == "octet"@ {
                Some(Mode::Octet)
            } else {
                None
            }),
    {
        if text::lower_is(s, "octet") {
            Some(Mode::Octet)
        } else {
            None
        }
    }
}

/// The name of a mode is read as that mode.
pub proof fn mode_name_reads_back()
    ensures
        text::ascii_lower_text("octet"@) == "octet"@,
        text::ascii_lower_text("OCTET"@) == "octet"@,
{
    reveal_strlit("octet");
    reveal_strlit("OCTET");
    assert(text::ascii_lower_text("octet"@) =~= "octet"@);
    assert(text::ascii_lower_text("OCTET"@) =~= "octet"@);
}

} // verus!
