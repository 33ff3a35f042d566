//! What the command line means.

use crate::client::Client;
use crate::session::ClientConfig;
use crate::text::{
    char_index, decimal, decimal_text, find_char, parse_number, parse_unsigned, text_from, text_to,
};
use vstd::prelude::*;
use vstd::string::*;

verus! {

/// The client that a command line asks for. A transfer always starts with the
/// first block: one that is to be resumed is done over as a whole.
pub fn build_client(
    blksize: u16,
    timeout: u16,
    window: u16,
    retries: u32,
    resume: bool,
    ipv6: bool,
) -> (c: Client)
    ensures
        c == (Client {
            cfg: ClientConfig {
                blksize,
                timeout_secs: timeout,
                windowsize: window,
                retries,
                resume_from_block: 0,
            },
            prefer_v6: ipv6,
        }),
{
    let cfg = ClientConfig {
        blksize,
        timeout_secs: timeout,
        windowsize: window,
        retries,
        resume_from_block: 0,
    };
    Client::new(cfg).prefer_ipv6(ipv6)
}

/// The address that a server listens on: every address of the version.
pub open spec fn listen_text(port: u16, ipv6: bool) -> Seq<char> {
    if ipv6 {
        "[::]:"@ + decimal(port as nat)
    } else {
        "0.0.0.0:"@ + decimal(port as nat)
    }
}

/// The address that a server listens on.
pub fn listen_address(port: u16, ipv6: bool) -> (s: String)
    ensures
        s@ == listen_text(port, ipv6),
{
    let any = if ipv6 {
        "[::]:"
    } else {
        "0.0.0.0:"
    };
    any.to_owned().concat(decimal_text(port as u64).as_str())
}

/// A download to start with: the host, the port, the file, and where to put
/// it.
#[derive(Debug, PartialEq, Eq)]
pub struct AutoGet {
    pub host: String,
    pub port: u16,
    pub file: String,
    pub local: String,
}

/// The content of an [`AutoGet`].
pub struct AutoGetView {
    pub host: Seq<char>,
    pub port: u16,
    pub file: Seq<char>,
    pub local: Seq<char>,
}

impl View for AutoGet {
    type V = AutoGetView;

    open spec fn view(&self) -> AutoGetView {
        AutoGetView { host: self.host@, port: self.port, file: self.file@, local: self.local@ }
    }
}

/// What stands before the first comma and what stands after it.
pub open spec fn split_at_comma(s: Seq<char>) -> Option<(Seq<char>, Seq<char>)> {
    let i = char_index(s, ',') as int;
    if i == s.len() {
        None
    } else {
        Some((s.take(i), s.skip(i + 1)))
    }
}

/// The download that `host,port,file,local` describes. Only the last part may
/// hold commas.
pub open spec fn auto_get(s: Seq<char>) -> Option<AutoGetView> {
    match split_at_comma(s) {
        None => None,
        Some((host, after_host)) => match split_at_comma(after_host) {
            None => None,
            Some((port, after_port)) => match split_at_comma(after_port) {
                None => None,
                Some((file, local)) => match parse_unsigned(port, u16::MAX as nat) {
                    None => None,
                    Some(n) => Some(AutoGetView { host, port: n as u16, file, local }),
                },
            },
        },
    }
}

fn cut_at_comma(s: &str) -> (r: Option<(&str, &str)>)
    ensures
        match r {
            Some((a, b)) => split_at_comma(s@) == Some((a@, b@)),
            None => split_at_comma(s@) is None,
        },
{
    match find_char(s, ',') {
        None => None,
        Some(i) => Some((text_to(s, i), text_from(s, i + 1))),
    }
}

/// The download that `host,port,file,local` describes.
pub fn parse_auto_get(s: &str) -> (r: Option<AutoGet>)
    ensures
        match r {
            Some(a) => auto_get(s@) == Some(a@),
            None => auto_get(s@) is None,
        },
{
    match cut_at_comma(s) {
        None => None,
        Some((host, after_host)) => match cut_at_comma(after_host) {
            None => None,
            Some((port, after_port)) => match cut_at_comma(after_port) {
                None => None,
                Some((file, local)) => match parse_number(port, 65535) {
                    None => None,
                    Some(n) => Some(
                        AutoGet {
                            host: host.to_owned(),
                            port: n as u16,
                            file: file.to_owned(),
                            local: local.to_owned(),
                        },
                    ),
                },
            },
        },
    }
}

} // verus!
