use last_tftp::error::{TftpError, TftpErrorCode};
use last_tftp::packet::Packet;
use last_tftp::peer::{candidates, peers_match, resolve, tries_next_address, Peer};
use last_tftp::transfer::{
    is_retryable, parse_target, recv_packet, wait_secs, AfterFailure, Received, Retry,
};

#[test]
fn parse_target_ipv4() {
    let (h, p) = parse_target("192.168.1.1:kernel.bin").unwrap();
    assert_eq!(h, "192.168.1.1");
    assert_eq!(p, "kernel.bin");
}

#[test]
fn parse_target_ipv6() {
    let (h, p) = parse_target("[fe80::1]:fw.img").unwrap();
    assert_eq!(h, "fe80::1");
    assert_eq!(p, "fw.img");
}

#[test]
fn parse_target_hostname() {
    let (h, p) = parse_target("router.lan:config").unwrap();
    assert_eq!(h, "router.lan");
    assert_eq!(p, "config");
}

#[test]
fn parse_target_invalid() {
    assert!(parse_target("nocolon").is_err());
    assert!(parse_target("[fe80::1]fw.img").is_err());
    assert!(parse_target("[]:path").is_err());
}

#[test]
fn parse_target_says_what_is_wrong() {
    let fault = |t: &str| parse_target(t).unwrap_err();
    assert_eq!(fault("nocolon"), TftpError::Protocol("target must be HOST:FILE".to_string()));
    assert_eq!(fault(":x"), TftpError::Protocol("empty host".to_string()));
    assert_eq!(fault("[::1:x"), TftpError::Protocol("invalid IPv6 host".to_string()));
    assert_eq!(fault("[]:x"), TftpError::Protocol("empty IPv6 host".to_string()));
    assert_eq!(fault("[::1]x"), TftpError::Protocol("missing file path".to_string()));
    assert_eq!(fault("[::1]"), TftpError::Protocol("missing file path".to_string()));
    assert_eq!(parse_target("h:").unwrap(), ("h".to_string(), String::new()));
    assert_eq!(parse_target("hé:a:b").unwrap(), ("hé".to_string(), "a:b".to_string()));
}

#[test]
fn received_datagrams() {
    assert_eq!(
        recv_packet(Received::Datagram(vec![0, 4, 0, 1])),
        Ok(Packet::Ack { block: 1 })
    );
    assert_eq!(
        recv_packet(Received::Datagram(vec![9])),
        Err(TftpError::Parse("buffer too short: need 2, got 1".to_string()))
    );
    assert_eq!(
        recv_packet(Received::Failed("refused".to_string())),
        Err(TftpError::Io("refused".to_string()))
    );
    assert_eq!(
        recv_packet(Received::TimedOut),
        Err(TftpError::Protocol("recv timeout".to_string()))
    );
}

#[test]
fn retries_back_off_and_end() {
    let mut delays = Vec::new();
    let mut pauses = Vec::new();
    let mut retry = Retry::new(3, 20, 5).unwrap();
    let mut n = 0;
    let end = loop {
        delays.push(retry.delay());
        n += 1;
        match retry.failed(TftpError::Protocol(format!("failure {n}"))) {
            AfterFailure::Again { pause, retry: next } => {
                pauses.push(pause);
                retry = next;
            }
            AfterFailure::Failed(e) => break e,
        }
    };
    assert_eq!(delays, vec![3, 6, 12, 20, 20]);
    assert_eq!(pauses, vec![3, 6, 12, 20]);
    assert_eq!(end, TftpError::Protocol("failure 5".to_string()));
}

#[test]
fn retries_grow_to_eight_times_the_timeout() {
    let mut delays = Vec::new();
    let mut retry = Retry::for_timeout(5, 6).unwrap();
    loop {
        delays.push(retry.delay());
        match retry.failed(TftpError::Timeout { retries: 0 }) {
            AfterFailure::Again { retry: next, .. } => retry = next,
            AfterFailure::Failed(_) => break,
        }
    }
    assert_eq!(delays, vec![5, 10, 20, 40, 40, 40]);
    assert_eq!(Retry::for_timeout(5, 0).unwrap_err(), TftpError::Timeout { retries: 0 });
}

#[test]
fn waits_double_up_to_a_limit() {
    let waits: Vec<u64> = (0..8).map(|k| wait_secs(5, k)).collect();
    assert_eq!(waits, vec![5, 10, 20, 40, 80, 160, 320, 320]);
    assert_eq!(wait_secs(255, 5), 8160);
    assert_eq!(wait_secs(255, u32::MAX), 16320);
}

#[test]
fn retries_stop_at_final_failures() {
    for e in [TftpError::Io("x".to_string()), TftpError::Aborted, TftpError::InvalidBlockSize(1)] {
        let retry = Retry::new(1, 8, 6).unwrap();
        match retry.failed(e.clone()) {
            AfterFailure::Failed(out) => assert_eq!(out, e),
            AfterFailure::Again { .. } => panic!("retried {e:?}"),
        }
    }
    assert!(matches!(
        Retry::new(1, 8, 6).unwrap().failed(TftpError::Timeout { retries: 1 }),
        AfterFailure::Again { pause: 1, .. }
    ));
    assert_eq!(Retry::new(1, 8, 0).unwrap_err(), TftpError::Timeout { retries: 0 });
    assert_eq!(Retry::new(u64::MAX, 5, 1).unwrap().delay(), u64::MAX);
}

const V4: Peer = Peer::V4 { ip: 0x7f000001, port: 69 };
const MAPPED: Peer = Peer::V6 { ip: 0xffff_7f00_0001, port: 69, flowinfo: 0, scope_id: 0 };
const V6: Peer = Peer::V6 { ip: 1, port: 69, flowinfo: 0, scope_id: 0 };

#[test]
fn peers_match_across_versions() {
    assert!(peers_match(V4, V4));
    assert!(peers_match(V4, MAPPED));
    assert!(peers_match(MAPPED, V4));
    assert!(!peers_match(V4, V6));
    assert!(!peers_match(V4, Peer::V4 { ip: 0x7f000001, port: 70 }));
    assert!(!peers_match(V6, Peer::V6 { ip: 1, port: 69, flowinfo: 0, scope_id: 2 }));
    assert!(!peers_match(V4, Peer::V6 { ip: 0xffff_7f00_0001, port: 69, flowinfo: 1, scope_id: 0 }));
}

#[test]
fn peers_follow_the_port() {
    assert_eq!(V4.follow(V6), Peer::V4 { ip: 0x7f000001, port: 69 });
    assert_eq!(V4.follow(Peer::V4 { ip: 9, port: 4000 }), Peer::V4 { ip: 0x7f000001, port: 4000 });
    assert_eq!(V6.follow(Peer::V4 { ip: 9, port: 0 }), V6);
    assert_eq!(V4.bind_address(), "0.0.0.0:0");
    assert_eq!(V6.bind_address(), "[::]:0");
}

#[test]
fn resolution_prefers_a_version() {
    let both = || Ok(vec![V6, V4, MAPPED]);
    assert_eq!(resolve("h", both(), false), Ok(V4));
    assert_eq!(resolve("h", both(), true), Ok(V6));
    assert_eq!(resolve("h", Ok(vec![V4]), true), Ok(V4));
    assert_eq!(resolve("h", Ok(vec![V6]), false), Ok(V6));
    assert_eq!(
        resolve("h", Ok(vec![]), false),
        Err(TftpError::Protocol("no addresses for h".to_string()))
    );
    assert_eq!(
        resolve("h", Err("nx".to_string()), false),
        Err(TftpError::Protocol("dns resolve h: nx".to_string()))
    );
}

#[test]
fn every_address_is_a_candidate() {
    let both = || Ok(vec![V6, V4, MAPPED]);
    assert_eq!(candidates("h", both(), false), Ok(vec![V4, V6, MAPPED]));
    assert_eq!(candidates("h", both(), true), Ok(vec![V6, MAPPED, V4]));
    assert_eq!(candidates("h", Ok(vec![V4]), true), Ok(vec![V4]));
    assert_eq!(
        candidates("h", Ok(vec![]), true),
        Err(TftpError::Protocol("no addresses for h".to_string()))
    );
    assert_eq!(
        candidates("h", Err("nx".to_string()), true),
        Err(TftpError::Protocol("dns resolve h: nx".to_string()))
    );
    let refused = TftpError::Remote { code: TftpErrorCode::FileNotFound, message: String::new() };
    assert!(tries_next_address(&TftpError::Io("unreachable".to_string())));
    assert!(tries_next_address(&TftpError::Timeout { retries: 6 }));
    assert!(tries_next_address(&TftpError::Protocol("negotiate timeout".to_string())));
    assert!(!tries_next_address(&refused));
    assert!(!is_retryable(&TftpError::Io("unreachable".to_string())));
    assert!(!is_retryable(&refused));
}
