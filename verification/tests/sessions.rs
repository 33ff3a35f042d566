use last_tftp::client::{Client, GetAction, GetSession, Progress, PutSession, PutStep};
use last_tftp::error::{TftpError, TftpErrorCode};
use last_tftp::options::{validate_request, Negotiation, Options};
use last_tftp::packet::Packet;
use last_tftp::peer::Peer;
use last_tftp::server::{
    answer_read, answer_write, clamp_negotiation, create_failure, handle_one, open_failure,
    wait_for, Plan, ReadPhase, ReadSession, ReadStep, Resend, ServerConfig, WaitEvent, WaitStep,
    Wanted, WriteAction, WriteSession,
};
use last_tftp::session::{ClientConfig, TransferStats};

fn config(blksize: u16, windowsize: u16) -> ClientConfig {
    ClientConfig { blksize, timeout_secs: 3, windowsize, retries: 4, resume_from_block: 0 }
}

fn parameters(blksize: u16, windowsize: u16) -> Negotiation {
    Negotiation { blksize, timeout: 3, windowsize, tsize: None }
}

fn data(block: u16, bytes: &[u8]) -> Packet {
    Packet::Data { block, data: bytes::Bytes::copy_from_slice(bytes) }
}

fn ack(block: u16) -> Packet {
    Packet::Ack { block }
}

fn protocol(text: &str) -> TftpError {
    TftpError::Protocol(text.to_string())
}

fn content(len: usize) -> Vec<u8> {
    (0..len as u32).map(|i| (i * 7 + i / 251) as u8).collect()
}

fn payload(p: &Packet) -> Vec<u8> {
    match p {
        Packet::Data { data, .. } => data.to_vec(),
        other => panic!("no data in {other:?}"),
    }
}

#[test]
fn client_requests() {
    let client = Client::new(config(1468, 8)).prefer_ipv6(true);
    assert!(client.prefer_v6);
    assert_eq!(client.config().blksize, 1468);
    let (host, rrq) = client.get("127.0.0.1:hello.bin").unwrap();
    assert_eq!(host, "127.0.0.1");
    assert_eq!(
        &rrq.encode()[..],
        b"\0\x01hello.bin\0octet\0blksize\x001468\0timeout\x003\0windowsize\x008\0"
    );
    let (_, wrq) = client.put("[::1]:f", 20000).unwrap();
    assert_eq!(
        &wrq.encode()[..],
        &b"\0\x02f\0octet\0blksize\x001468\0timeout\x003\0tsize\x0020000\0windowsize\x008\0"[..]
    );
    assert_eq!(client.get("nocolon").unwrap_err(), protocol("target must be HOST:FILE"));
    assert_eq!(client.put(":f", 1).unwrap_err(), protocol("empty host"));
}

#[test]
fn client_negotiation_of_a_read() {
    let client = Client::new(config(512, 4));
    let mut options = Options::new();
    options.set_blksize(1024);
    options.set_tsize(77);
    let (n, acknowledge) = client.negotiate_get(&Packet::Oack { options }).unwrap();
    assert!(acknowledge);
    assert_eq!(n, Negotiation { blksize: 1024, timeout: 5, windowsize: 1, tsize: Some(77) });
    let bold = Client::new(config(1468, 8));
    assert_eq!(bold.negotiate_get(&data(1, b"x")), Ok((Negotiation::defaults(), false)));
    assert_eq!(
        bold.negotiate_get(&Packet::Oack { options: Options::new() }),
        Ok((Negotiation::defaults(), true))
    );
    assert_eq!(
        client.negotiate_get(&data(2, b"x")).unwrap_err(),
        protocol("unexpected reply: Data { block: 2, data: b\"x\" }")
    );
    assert_eq!(
        client
            .negotiate_get(&Packet::Error {
                code: TftpErrorCode::FileNotFound,
                message: "nope".to_string(),
            })
            .unwrap_err(),
        TftpError::Remote { code: TftpErrorCode::FileNotFound, message: "nope".to_string() }
    );
    assert_eq!(
        client.negotiate_get(&ack(0)).unwrap_err(),
        protocol("unexpected reply: Ack { block: 0 }")
    );
}

#[test]
fn client_negotiation_of_a_write() {
    let client = Client::new(config(1468, 4));
    assert_eq!(client.negotiate_put(&ack(0)), Ok(Negotiation::defaults()));
    let mut options = Options::new();
    options.set_windowsize(2);
    assert_eq!(
        client.negotiate_put(&Packet::Oack { options }),
        Ok(Negotiation { blksize: 512, timeout: 5, windowsize: 2, tsize: None })
    );
    assert_eq!(
        client.negotiate_put(&ack(1)).unwrap_err(),
        protocol("unexpected reply: Ack { block: 1 }")
    );
    assert!(matches!(
        client.negotiate_put(&Packet::Error {
            code: TftpErrorCode::AccessViolation,
            message: "writes disabled".to_string(),
        }),
        Err(TftpError::Remote { code: TftpErrorCode::AccessViolation, .. })
    ));
}

#[test]
fn get_session_answers_blocks() {
    let mut s = GetSession::new(&config(4, 2), parameters(4, 2));
    assert_eq!(s.offset(), 0);
    assert_eq!(s.on_packet(&data(1, b"abcd")), Ok(GetAction::Store { ack: None }));
    assert_eq!(s.on_packet(&data(1, b"abcd")), Ok(GetAction::Ack { block: 1 }));
    assert_eq!(s.on_packet(&data(3, b"ijkl")), Ok(GetAction::Ack { block: 1 }));
    assert_eq!(s.on_packet(&data(65535, b"ijkl")), Ok(GetAction::Ack { block: 1 }));
    assert_eq!(s.on_packet(&data(2, b"efgh")), Ok(GetAction::Store { ack: Some(2) }));
    assert_eq!(s.on_packet(&data(0, b"")), Ok(GetAction::Ack { block: 0 }));
    assert_eq!(s.on_packet(&data(3, b"")), Ok(GetAction::Finish { ack: 3 }));
    assert_eq!(
        s.stats(),
        TransferStats { bytes: 8, blocks: 3, total_bytes: None, duration_ms: 0 }
    );
    assert_eq!(s.progress(), Progress { bytes: 8, blocks: 3, total_bytes: None });
}

#[test]
fn get_session_fails() {
    let mut s = GetSession::new(&config(4, 1), parameters(4, 1));
    assert_eq!(
        s.on_packet(&ack(1)).unwrap_err(),
        protocol("unexpected packet during DATA: Ack { block: 1 }")
    );
    let oack = Packet::Oack { options: Options::new() };
    assert_eq!(s.on_packet(&oack), Ok(GetAction::Ack { block: 0 }));
    assert_eq!(s.on_packet(&data(1, b"abcd")), Ok(GetAction::Store { ack: Some(1) }));
    assert_eq!(
        s.on_packet(&oack).unwrap_err(),
        protocol("unexpected packet during DATA: Oack { options: Options { inner: {} } }")
    );
    assert_eq!(
        s.on_packet(&Packet::Error { code: TftpErrorCode::DiskFull, message: "full".to_string() })
            .unwrap_err(),
        TftpError::Remote { code: TftpErrorCode::DiskFull, message: "full".to_string() }
    );
}

#[test]
fn get_session_times_out() {
    let mut s = GetSession::new(&config(4, 1), parameters(4, 1));
    assert_eq!(s.on_packet(&data(1, b"abcd")), Ok(GetAction::Store { ack: Some(1) }));
    for secs in [3, 6, 12, 24] {
        assert_eq!(s.wait(), secs);
        assert_eq!(s.on_silence(), Ok(1));
    }
    assert_eq!(s.wait(), 48);
    assert_eq!(s.on_silence().unwrap_err(), TftpError::Timeout { retries: 4 });
    assert_eq!(s.on_packet(&data(2, b"efgh")), Ok(GetAction::Store { ack: Some(2) }));
    assert_eq!(s.wait(), 3);
    assert_eq!(s.on_silence(), Ok(2));
    let mut once = GetSession::new(
        &ClientConfig { retries: 0, ..config(4, 1) },
        parameters(4, 1),
    );
    assert_eq!(once.on_silence(), Ok(0));
    assert_eq!(once.on_silence().unwrap_err(), TftpError::Timeout { retries: 1 });
}

#[test]
fn get_session_resumes() {
    let cfg = ClientConfig { resume_from_block: 70000, ..config(4, 1) };
    let s = GetSession::new(&cfg, parameters(4, 1));
    assert_eq!(s.expected_block, 70001);
    assert_eq!(s.last_acked, 4464);
    assert_eq!(s.offset(), 280000);
    let cfg = ClientConfig { resume_from_block: 2, ..config(4, 1) };
    let mut s = GetSession::new(&cfg, parameters(4, 1));
    assert_eq!(s.on_packet(&data(1, b"abcd")), Ok(GetAction::Ack { block: 1 }));
    assert_eq!(s.on_packet(&data(3, b"xy")), Ok(GetAction::Finish { ack: 3 }));
    assert_eq!(s.stats().bytes, 2);
}

#[test]
fn get_session_passes_the_last_number() {
    let mut s = GetSession::new(&config(1, 2), parameters(1, 2));
    let mut bytes = 0;
    for k in 1..=140_000u64 {
        let b = (k % 65536) as u16;
        let answer = if k % 2 == 0 { Some(b) } else { None };
        if k == 65_536 || k == 65_537 {
            let last = b.wrapping_sub(1);
            if answer.is_none() {
                let early = data(b.wrapping_add(1), b"y");
                assert_eq!(s.on_packet(&early), Ok(GetAction::Ack { block: last }));
            }
            assert_eq!(s.on_packet(&data(last, b"x")), Ok(GetAction::Ack { block: last }));
            assert_eq!(s.on_packet(&data(65_530, b"x")), Ok(GetAction::Ack { block: 65_530 }));
        }
        assert_eq!(s.on_packet(&data(b, b"x")), Ok(GetAction::Store { ack: answer }));
        bytes += 1;
    }
    let last = data((140_001 % 65536) as u16, b"");
    assert_eq!(s.on_packet(&last), Ok(GetAction::Finish { ack: 8929 }));
    assert_eq!(s.stats().bytes, bytes);
    assert_eq!(s.stats().blocks, 140_001);
}

#[test]
fn put_session_sends_blocks() {
    let mut s = PutSession::new(parameters(4, 1), 8);
    assert!(s.takes_block());
    s.on_chunk(b"abcd");
    assert!(!s.takes_block());
    assert_eq!(s.packets(), vec![data(1, b"abcd")]);
    assert_eq!(s.on_reply(&ack(0)).unwrap_err(), protocol("unexpected ack"));
    assert_eq!(s.on_reply(&ack(2)).unwrap_err(), protocol("unexpected ack"));
    assert_eq!(s.on_reply(&data(1, b"")).unwrap_err(), protocol("unexpected ack"));
    assert!(matches!(
        s.on_reply(&Packet::Error { code: TftpErrorCode::DiskFull, message: String::new() }),
        Err(TftpError::Remote { code: TftpErrorCode::DiskFull, .. })
    ));
    assert_eq!(s.packets(), vec![data(1, b"abcd")]);
    assert_eq!(s.on_reply(&ack(1)), Ok(PutStep::Next));
    s.on_chunk(b"efgh");
    assert_eq!(s.packets(), vec![data(2, b"efgh")]);
    assert_eq!(s.on_reply(&ack(2)), Ok(PutStep::Next));
    assert_eq!(s.progress(), Progress { bytes: 8, blocks: 2, total_bytes: Some(8) });
    s.on_chunk(b"");
    assert_eq!(s.packets(), vec![data(3, b"")]);
    assert_eq!(s.on_reply(&ack(3)), Ok(PutStep::Done));
    assert_eq!(
        s.stats(),
        TransferStats { bytes: 8, blocks: 3, total_bytes: None, duration_ms: 0 }
    );
}

#[test]
fn put_session_sends_windows() {
    let mut s = PutSession::new(parameters(1, 3), 4);
    for chunk in [b"a", b"b", b"c"] {
        assert!(s.takes_block());
        s.on_chunk(chunk);
    }
    assert!(!s.takes_block());
    assert_eq!(s.packets(), vec![data(1, b"a"), data(2, b"b"), data(3, b"c")]);
    assert_eq!(s.on_reply(&ack(1)), Ok(PutStep::Again));
    assert!(!s.takes_block());
    assert_eq!(s.packets(), vec![data(2, b"b"), data(3, b"c")]);
    assert_eq!(s.on_reply(&ack(1)).unwrap_err(), protocol("unexpected ack"));
    assert_eq!(s.on_reply(&ack(3)), Ok(PutStep::Next));
    s.on_chunk(b"d");
    assert!(s.takes_block());
    s.on_chunk(b"");
    assert!(!s.takes_block());
    assert_eq!(s.packets(), vec![data(4, b"d"), data(5, b"")]);
    assert_eq!(s.on_reply(&ack(5)), Ok(PutStep::Done));
    assert_eq!(s.stats().blocks, 5);
}

#[test]
fn put_session_ends_with_an_empty_block() {
    let mut s = PutSession::new(parameters(0, 1), 5);
    s.on_chunk(b"");
    assert_eq!(s.packets(), vec![data(1, b"")]);
    assert_eq!(s.on_reply(&ack(1)), Ok(PutStep::Done));
    assert_eq!(s.stats().blocks, 1);
}

#[test]
fn put_session_passes_the_last_number() {
    let mut s = PutSession::new(parameters(1, 1), 0);
    for k in 1..=70_000u32 {
        s.on_chunk(b"x");
        let b = (k % 65536) as u16;
        assert_eq!(s.packets(), vec![data(b, b"x")]);
        assert_eq!(s.on_reply(&ack(b)), Ok(PutStep::Next));
    }
    assert_eq!(s.stats().blocks, 70_000);
}

#[test]
fn server_plans() {
    let open = ServerConfig::new("/srv", true);
    let closed = ServerConfig::new("/srv", false);
    assert_eq!(open.root, "/srv");
    let mut options = Options::new();
    options.set_blksize(8);
    let wrq = Packet::Wrq {
        filename: "f".to_string(),
        mode: "netascii".to_string(),
        options: options.clone(),
    };
    let rrq = Packet::Rrq { filename: "g".to_string(), mode: String::new(), options: options.clone() };
    match handle_one(rrq, &closed).unwrap() {
        Plan::Read { filename, options: o } => {
            assert_eq!(filename, "g");
            assert_eq!(o, options);
        }
        other => panic!("{other:?}"),
    }
    match handle_one(wrq.clone(), &open.clone()).unwrap() {
        Plan::Write { filename, options: o } => {
            assert_eq!(filename, "f");
            assert_eq!(o, options);
        }
        other => panic!("{other:?}"),
    }
    match handle_one(wrq, &closed).unwrap() {
        Plan::Refuse { answer } => assert_eq!(
            answer,
            Packet::Error {
                code: TftpErrorCode::AccessViolation,
                message: "writes disabled".to_string(),
            }
        ),
        other => panic!("{other:?}"),
    }
    assert_eq!(
        handle_one(ack(3), &open).unwrap_err(),
        protocol("expected RRQ/WRQ, got Ack { block: 3 }")
    );
}

#[test]
fn server_answers() {
    let mut options = Options::new();
    options.set_blksize(1024);
    options.set_windowsize(8);
    let (n, oack) = answer_read(&options, Some(99));
    assert_eq!(n, Negotiation { blksize: 1024, timeout: 5, windowsize: 8, tsize: None });
    assert_eq!(&oack.unwrap().encode()[..], b"\0\x06blksize\x001024\0timeout\x005\0windowsize\x008\0");
    options.set_tsize(0);
    options.set_windowsize(1);
    let (n, oack) = answer_read(&options, Some(99));
    assert_eq!(n.tsize, Some(0));
    assert_eq!(&oack.unwrap().encode()[..], b"\0\x06blksize\x001024\0timeout\x005\0tsize\x0099\0");
    let (_, oack) = answer_read(&options, None);
    assert_eq!(&oack.unwrap().encode()[..], b"\0\x06blksize\x001024\0timeout\x005\0");
    let (n, oack) = answer_write(&options);
    assert_eq!(n.blksize, 1024);
    assert_eq!(&oack.encode()[..], b"\0\x06blksize\x001024\0timeout\x005\0");
    assert_eq!(
        open_failure(true, "gone"),
        Packet::Error {
            code: TftpErrorCode::FileNotFound,
            message: "cannot open file: gone".to_string(),
        }
    );
    assert!(matches!(
        open_failure(false, "no"),
        Packet::Error { code: TftpErrorCode::AccessViolation, .. }
    ));
    assert_eq!(
        create_failure("ro"),
        Packet::Error {
            code: TftpErrorCode::AccessViolation,
            message: "cannot create file: ro".to_string(),
        }
    );
}

#[test]
fn server_clamps() {
    let bad = Negotiation { blksize: 7, timeout: 256, windowsize: 0, tsize: Some(1) };
    let good = Negotiation { blksize: 512, timeout: 5, windowsize: 1, tsize: Some(1) };
    assert_eq!(clamp_negotiation(bad), good);
    assert_eq!(clamp_negotiation(good), good);
    for blksize in [8, 65464] {
        let n = Negotiation { blksize, timeout: 255, windowsize: 65535, tsize: None };
        assert_eq!(clamp_negotiation(n), n);
    }
    assert_eq!(clamp_negotiation(Negotiation { blksize: 65465, ..good }).blksize, 512);
    assert_eq!(clamp_negotiation(Negotiation { timeout: 0, ..good }).timeout, 5);
}

#[test]
fn waits() {
    let peer = Peer::V4 { ip: 1, port: 2 };
    let mapped = Peer::V6 { ip: 0xffff_0000_0001, port: 2, flowinfo: 0, scope_id: 0 };
    let stranger = Peer::V4 { ip: 3, port: 2 };
    let error = || Packet::Error { code: TftpErrorCode::NotDefined, message: String::new() };
    let arrive = |packet: Packet, from: Peer, wanted: Wanted| {
        matches!(wait_for(peer, wanted, WaitEvent::Arrived { packet, from }), WaitStep::Found(_))
    };
    assert!(arrive(ack(1), peer, Wanted::Ack));
    assert!(arrive(ack(1), mapped, Wanted::Ack));
    assert!(!arrive(ack(1), stranger, Wanted::Ack));
    assert!(!arrive(ack(1), peer, Wanted::Data));
    assert!(arrive(data(1, b""), peer, Wanted::Data));
    assert!(!arrive(data(1, b""), peer, Wanted::Ack));
    assert!(arrive(error(), peer, Wanted::Ack));
    assert!(arrive(error(), peer, Wanted::Data));
    assert!(!arrive(error(), stranger, Wanted::Data));
    let fail = |e: WaitEvent| match wait_for(peer, Wanted::Ack, e) {
        WaitStep::Fail(e) => e,
        other => panic!("{other:?}"),
    };
    assert_eq!(fail(WaitEvent::Deadline), protocol("timeout"));
    assert_eq!(fail(WaitEvent::TimedOut), protocol("wait_for timeout"));
    assert_eq!(fail(WaitEvent::Failed(TftpError::Aborted)), TftpError::Aborted);
}

#[test]
fn requests_without_options_need_no_announcement() {
    let mut options = Options::new();
    assert_eq!(answer_read(&options, Some(2)), (Negotiation::defaults(), None));
    assert_eq!(answer_write(&options), (Negotiation::defaults(), ack(0)));
    options.insert("unknown", "1");
    assert_eq!(answer_read(&options, Some(2)), (Negotiation::defaults(), None));
    assert_eq!(answer_write(&options), (Negotiation::defaults(), ack(0)));
    let mut s = ReadSession::new(Negotiation::defaults(), 2, false);
    assert_eq!(s.step(), ReadStep::Chunk { len: 512 });
    assert_eq!(s.on_chunk(b"hi"), data(1, b"hi"));
    assert_eq!(s.step(), ReadStep::Wait { secs: 5 });
    assert_eq!(s.on_reply(&ack(1)), Ok(Resend::Nothing));
    assert_eq!(s.step(), ReadStep::Done);
    for name in ["blksize", "timeout", "tsize", "windowsize"] {
        let mut options = Options::new();
        options.insert(name, "odd");
        assert!(answer_read(&options, Some(2)).1.is_some(), "{name}");
        assert!(matches!(answer_write(&options).1, Packet::Oack { .. }), "{name}");
    }
}

#[test]
fn read_session_waits_for_the_opening() {
    let mut s = ReadSession::new(parameters(2, 2), 7, true);
    assert_eq!(s.step(), ReadStep::Wait { secs: 3 });
    assert_eq!(s.on_reply(&ack(1)), Ok(Resend::Nothing));
    assert_eq!(s.on_wait_failed(protocol("timeout")), Ok(Resend::Announcement));
    assert_eq!(s.step(), ReadStep::Wait { secs: 6 });
    assert!(s.packets().is_empty());
    assert_eq!(s.on_reply(&ack(0)), Ok(Resend::Nothing));
    assert_eq!(s.step(), ReadStep::Chunk { len: 2 });
    let mut s = ReadSession::new(parameters(2, 2), 7, true);
    let refusal = Packet::Error {
        code: TftpErrorCode::OptionNegotiation,
        message: "no".to_string(),
    };
    assert_eq!(
        s.on_reply(&refusal),
        Err(TftpError::Remote {
            code: TftpErrorCode::OptionNegotiation,
            message: "no".to_string(),
        })
    );
    for _ in 0..5 {
        assert_eq!(s.on_wait_failed(protocol("timeout")), Ok(Resend::Announcement));
    }
    assert_eq!(s.on_wait_failed(protocol("timeout")), Err(TftpError::Timeout { retries: 6 }));
}

#[test]
fn read_session_waits_per_window() {
    let mut s = ReadSession::new(parameters(2, 2), 7, false);
    assert_eq!(s.step(), ReadStep::Chunk { len: 2 });
    assert_eq!(s.on_chunk(b"ab"), data(1, b"ab"));
    assert_eq!(s.step(), ReadStep::Chunk { len: 2 });
    assert_eq!(s.on_chunk(b"cd"), data(2, b"cd"));
    assert_eq!(s.step(), ReadStep::Wait { secs: 3 });
    assert_eq!(s.on_reply(&ack(7)), Ok(Resend::Nothing));
    assert_eq!(s.packets(), vec![data(1, b"ab"), data(2, b"cd")]);
    assert_eq!(s.on_reply(&ack(0)), Ok(Resend::Blocks));
    assert_eq!(s.packets(), vec![data(1, b"ab"), data(2, b"cd")]);
    assert_eq!(s.on_reply(&ack(1)), Ok(Resend::Blocks));
    assert_eq!(s.packets(), vec![data(2, b"cd")]);
    assert_eq!(s.step(), ReadStep::Wait { secs: 3 });
    assert_eq!(s.on_reply(&ack(2)), Ok(Resend::Nothing));
    assert_eq!(s.on_chunk(b"ef"), data(3, b"ef"));
    assert_eq!(s.on_chunk(b"g"), data(4, b"g"));
    assert_eq!(s.step(), ReadStep::Wait { secs: 3 });
    assert_eq!(s.on_wait_failed(protocol("timeout")), Ok(Resend::Blocks));
    assert_eq!(s.step(), ReadStep::Wait { secs: 6 });
    assert_eq!(s.packets(), vec![data(3, b"ef"), data(4, b"g")]);
    assert_eq!(s.on_reply(&ack(4)), Ok(Resend::Nothing));
    assert_eq!(s.step(), ReadStep::Done);
    assert_eq!(s.phase, ReadPhase::Done);
    assert_eq!(
        s.stats(),
        TransferStats { bytes: 7, blocks: 3, total_bytes: Some(7), duration_ms: 0 }
    );
}

#[test]
fn read_session_gives_up() {
    let mut s = ReadSession::new(parameters(2, 1), 4, false);
    s.on_chunk(b"ab");
    for secs in [3, 6, 12, 24, 48] {
        assert_eq!(s.step(), ReadStep::Wait { secs });
        assert_eq!(s.on_wait_failed(protocol("timeout")), Ok(Resend::Blocks));
        assert_eq!(s.packets(), vec![data(1, b"ab")]);
    }
    assert_eq!(s.step(), ReadStep::Wait { secs: 96 });
    assert_eq!(s.on_wait_failed(protocol("timeout")), Err(TftpError::Timeout { retries: 6 }));
    assert_eq!(s.on_reply(&ack(1)), Ok(Resend::Nothing));
    s.on_chunk(b"cd");
    assert_eq!(s.step(), ReadStep::Wait { secs: 3 });
    let broken = TftpError::Io("gone".to_string());
    assert_eq!(s.on_wait_failed(broken.clone()), Err(broken));
}

#[test]
fn read_session_ends() {
    let refusal = || Packet::Error { code: TftpErrorCode::DiskFull, message: String::new() };
    let mut s = ReadSession::new(parameters(2, 1), 2, false);
    assert_eq!(s.on_chunk(b"ab"), data(1, b"ab"));
    assert!(matches!(
        s.on_reply(&refusal()),
        Err(TftpError::Remote { code: TftpErrorCode::DiskFull, .. })
    ));
    assert_eq!(s.on_reply(&ack(1)), Ok(Resend::Nothing));
    assert_eq!(s.on_chunk(b""), data(2, b""));
    assert_eq!(s.on_wait_failed(protocol("x")), Ok(Resend::Blocks));
    assert_eq!(s.packets(), vec![data(2, b"")]);
    assert_eq!(s.on_reply(&refusal()), Ok(Resend::Nothing));
    assert_eq!(s.step(), ReadStep::Done);
    assert_eq!(s.stats().blocks, 1);

    let mut empty = ReadSession::new(parameters(2, 1), 0, false);
    assert_eq!(empty.step(), ReadStep::Chunk { len: 0 });
    assert_eq!(empty.on_chunk(b""), data(1, b""));
    for _ in 0..5 {
        assert_eq!(empty.on_wait_failed(protocol("x")), Ok(Resend::Blocks));
    }
    assert_eq!(
        empty.on_wait_failed(protocol("x")),
        Err(TftpError::Timeout { retries: 6 })
    );
    assert_eq!(empty.on_reply(&ack(1)), Ok(Resend::Nothing));
    assert_eq!(empty.step(), ReadStep::Done);
    assert_eq!(empty.stats(), TransferStats::default());
    let mut empty = ReadSession::new(parameters(2, 1), 0, false);
    empty.on_chunk(b"");
    assert_eq!(empty.on_wait_failed(TftpError::Io("x".to_string())), Ok(Resend::Nothing));
    assert_eq!(empty.step(), ReadStep::Done);
}

#[test]
fn read_session_wraps() {
    let mut s = ReadSession::new(parameters(1, 3), 140_000, false);
    for k in 1..=140_000u32 {
        let b = (k % 65536) as u16;
        assert_eq!(s.step(), ReadStep::Chunk { len: 1 });
        assert_eq!(s.on_chunk(b"x"), data(b, b"x"));
        if k % 3 == 0 {
            assert_eq!(s.step(), ReadStep::Wait { secs: 3 });
            assert_eq!(s.on_reply(&ack(b.wrapping_sub(4))), Ok(Resend::Nothing));
            assert_eq!(s.on_reply(&ack(b.wrapping_add(1))), Ok(Resend::Nothing));
            assert_eq!(s.on_reply(&ack(b)), Ok(Resend::Nothing));
        }
    }
    assert_eq!(s.sender.base, 139_998);
    assert_eq!(s.on_chunk(b""), data((140_001 % 65536) as u16, b""));
    assert_eq!(s.on_reply(&ack((140_001 % 65536) as u16)), Ok(Resend::Nothing));
    assert_eq!(s.step(), ReadStep::Done);
    assert_eq!(s.stats().blocks, 140_000);
}

#[test]
fn write_session_answers_blocks() {
    let mut s = WriteSession::new(parameters(4, 1));
    assert_eq!(s.on_packet(&data(2, b"efgh")), Ok(WriteAction::Ack { block: 0 }));
    assert_eq!(s.on_packet(&data(1, b"abcd")), Ok(WriteAction::Store { ack: Some(1) }));
    assert_eq!(s.on_packet(&data(1, b"abcd")), Ok(WriteAction::Ack { block: 1 }));
    assert_eq!(s.on_packet(&data(2, b"ef")), Ok(WriteAction::Finish { ack: 2 }));
    assert_eq!(
        s.stats(),
        TransferStats { bytes: 6, blocks: 1, total_bytes: None, duration_ms: 0 }
    );
    assert!(matches!(
        s.on_packet(&Packet::Error { code: TftpErrorCode::NoSuchUser, message: String::new() }),
        Err(TftpError::Remote { code: TftpErrorCode::NoSuchUser, .. })
    ));
    let mut s = WriteSession::new(parameters(1, 1));
    for k in 1..=65535u16 {
        assert_eq!(s.on_packet(&data(k, b"x")), Ok(WriteAction::Store { ack: Some(k) }));
    }
    assert_eq!(s.on_packet(&data(5, b"x")), Ok(WriteAction::Ack { block: 65535 }));
    assert_eq!(s.on_packet(&data(0, b"x")), Ok(WriteAction::Store { ack: Some(0) }));
    assert_eq!(s.on_packet(&data(1, b"x")), Ok(WriteAction::Store { ack: Some(1) }));
    assert_eq!(s.expected_block, 65_538);
}

#[test]
fn write_session_acknowledges_windows() {
    let mut s = WriteSession::new(parameters(2, 4));
    let mut acks = Vec::new();
    for k in 1..=8u16 {
        match s.on_packet(&data(k, b"xy")) {
            Ok(WriteAction::Store { ack }) => acks.extend(ack),
            other => panic!("{other:?}"),
        }
    }
    match s.on_packet(&data(9, b"z")) {
        Ok(WriteAction::Finish { ack }) => acks.push(ack),
        other => panic!("{other:?}"),
    }
    assert_eq!(acks, vec![4, 8, 9]);
    assert_eq!(s.received, 17);
}

#[test]
fn write_session_sends_its_answer_again() {
    let mut s = WriteSession::new(parameters(2, 4));
    for secs in [3, 6, 12, 24, 48] {
        assert_eq!(s.wait(), secs);
        assert_eq!(s.on_wait_failed(protocol("timeout")), Ok(WriteAction::Announce));
    }
    assert_eq!(s.wait(), 96);
    assert_eq!(s.on_wait_failed(protocol("timeout")), Err(TftpError::Timeout { retries: 6 }));
    assert_eq!(s.on_packet(&data(1, b"xy")), Ok(WriteAction::Store { ack: None }));
    assert_eq!(s.wait(), 3);
    assert_eq!(s.on_wait_failed(protocol("timeout")), Ok(WriteAction::Ack { block: 1 }));
    let broken = TftpError::Io("gone".to_string());
    assert_eq!(s.on_wait_failed(broken.clone()), Err(broken));
}

fn read_over_channel(file: &[u8], cfg: ClientConfig) -> (Vec<u8>, TransferStats, usize) {
    let client = Client::new(cfg);
    let (_, rrq) = client.get("host:file").unwrap();
    let options = match Packet::parse(&rrq.encode()).unwrap() {
        Packet::Rrq { options, .. } => options,
        other => panic!("{other:?}"),
    };
    let (granted, oack) = answer_read(&options, Some(file.len() as u64));
    let reply = Packet::parse(&oack.unwrap().encode()).unwrap();
    let (agreed, acknowledge) = client.negotiate_get(&reply).unwrap();
    assert!(acknowledge);
    assert_eq!(agreed, granted);
    let mut server = ReadSession::new(granted, file.len() as u64, true);
    assert_eq!(server.on_reply(&ack(0)), Ok(Resend::Nothing));
    let mut reader = GetSession::new(&cfg, agreed);
    let mut out = Vec::new();
    let mut at = 0;
    let mut acks = 0;
    while let ReadStep::Chunk { len } = server.step() {
        let n = len.min(file.len() - at);
        let packet = Packet::parse(&server.on_chunk(&file[at..at + n]).encode()).unwrap();
        at += n;
        let answer = match reader.on_packet(&packet).unwrap() {
            GetAction::Store { ack } => {
                out.extend(payload(&packet));
                ack
            }
            GetAction::Finish { ack } => {
                out.extend(payload(&packet));
                Some(ack)
            }
            GetAction::Ack { .. } => panic!("unexpected repetition"),
        };
        match (server.step(), answer) {
            (ReadStep::Chunk { .. }, None) => {}
            (ReadStep::Wait { .. }, Some(b)) => {
                acks += 1;
                assert_eq!(server.on_reply(&ack(b)), Ok(Resend::Nothing));
            }
            other => panic!("the sides disagree: {other:?}"),
        }
    }
    assert_eq!(server.step(), ReadStep::Done);
    (out, reader.stats(), acks)
}

#[test]
fn files_are_read_whole() {
    for window in [1, 2, 8, 65535] {
        for len in [0, 1, 511, 512, 513, 1024, 4096, 10_000] {
            let file = content(len);
            let (out, stats, acks) = read_over_channel(&file, config(512, window));
            assert_eq!(out, file);
            assert_eq!(stats.bytes, len as u64);
            assert_eq!(stats.blocks, len as u64 / 512 + 1);
            assert_eq!(acks, (len / 512 + 1).div_ceil(window as usize));
        }
    }
    let file = content(100);
    assert_eq!(read_over_channel(&file, config(8, 3)).0, file);
    assert_eq!(read_over_channel(&file, config(7, 0)).0, file);
    assert_eq!(read_over_channel(&file, config(65464, 1)).0, file);
}

#[test]
fn large_files_are_read_whole() {
    let file = content(600_000);
    let (out, stats, _) = read_over_channel(&file, config(8, 5));
    assert!(out == file);
    assert_eq!(stats.blocks, 75_001);
}

fn write_over_channel(file: &[u8], cfg: ClientConfig) -> (Vec<u8>, TransferStats) {
    let client = Client::new(cfg);
    let (_, wrq) = client.put("host:file", file.len() as u64).unwrap();
    let options = match Packet::parse(&wrq.encode()).unwrap() {
        Packet::Wrq { options, .. } => options,
        other => panic!("{other:?}"),
    };
    assert_eq!(options.tsize(), Some(file.len() as u64));
    let (granted, oack) = answer_write(&options);
    let agreed = client.negotiate_put(&Packet::parse(&oack.encode()).unwrap()).unwrap();
    assert_eq!(agreed, Negotiation { tsize: None, ..granted });
    let mut writer = PutSession::new(agreed, file.len() as u64);
    let mut server = WriteSession::new(granted);
    let mut out = Vec::new();
    let mut at = 0;
    loop {
        while writer.takes_block() {
            let n = (agreed.blksize as usize).min(file.len() - at);
            writer.on_chunk(&file[at..at + n]);
            at += n;
        }
        let mut answers = Vec::new();
        for packet in writer.packets() {
            match server.on_packet(&packet).unwrap() {
                WriteAction::Store { ack } => answers.extend(ack),
                WriteAction::Finish { ack } => answers.push(ack),
                other => panic!("unexpected repetition: {other:?}"),
            }
            out.extend(payload(&packet));
        }
        assert_eq!(answers.len(), 1);
        match writer.on_reply(&ack(answers[0])).unwrap() {
            PutStep::Next => {}
            PutStep::Done => return (out, writer.stats()),
            PutStep::Again => panic!("unexpected repetition"),
        }
    }
}

#[test]
fn files_are_written_whole() {
    for window in [1, 2, 8, 65535] {
        for len in [0, 1, 511, 512, 513, 1024, 20_000] {
            let file = content(len);
            let (out, stats) = write_over_channel(&file, config(512, window));
            assert_eq!(out, file);
            assert_eq!(stats.bytes, len as u64);
            assert_eq!(stats.blocks, len as u64 / 512 + 1);
        }
    }
    let file = content(600_000);
    let (out, stats) = write_over_channel(&file, config(8, 5));
    assert!(out == file);
    assert_eq!(stats.blocks, 75_001);
}

#[test]
fn resent_blocks_complete_a_write() {
    let mut writer = PutSession::new(parameters(1, 4), 4);
    let mut server = WriteSession::new(parameters(1, 4));
    for chunk in [b"a", b"b", b"c", b"d"] {
        writer.on_chunk(chunk);
    }
    let sent = writer.packets();
    assert_eq!(server.on_packet(&sent[0]), Ok(WriteAction::Store { ack: None }));
    assert_eq!(server.on_packet(&sent[2]), Ok(WriteAction::Ack { block: 1 }));
    assert_eq!(server.on_packet(&sent[3]), Ok(WriteAction::Ack { block: 1 }));
    let mut answers = Vec::new();
    for packet in writer.packets() {
        match server.on_packet(&packet).unwrap() {
            WriteAction::Ack { block } => answers.push(block),
            WriteAction::Store { ack } => answers.extend(ack),
            other => panic!("{other:?}"),
        }
    }
    assert_eq!(answers, vec![1, 4]);
    assert_eq!(writer.on_reply(&ack(4)), Ok(PutStep::Next));
    for packet in &sent {
        assert_eq!(server.on_packet(packet), Ok(WriteAction::Ack { block: 4 }));
    }
}

/// Carries a file over a channel that loses one packet in five.
#[test]
fn losses_do_not_harm_a_read() {
    let file = content(2000);
    let neg = parameters(16, 4);
    let mut server = ReadSession::new(neg, file.len() as u64, true);
    let mut reader = GetSession::new(&ClientConfig { retries: 1000, ..config(16, 4) }, neg);
    let mut state = 3u32;
    let mut lost = move || {
        state = state.wrapping_mul(1664525).wrapping_add(1013904223);
        (state >> 16) % 5 == 0
    };
    let mut out = Vec::new();
    let mut at = 0;
    let mut to_reader = vec![Packet::Oack { options: Options::new() }];
    let mut complete = false;
    for _ in 0..100_000 {
        let mut answers = Vec::new();
        for packet in to_reader.drain(..) {
            if complete || lost() {
                continue;
            }
            match reader.on_packet(&packet).unwrap() {
                GetAction::Ack { block } => answers.push(block),
                GetAction::Store { ack } => {
                    out.extend(payload(&packet));
                    answers.extend(ack);
                }
                GetAction::Finish { ack } => {
                    out.extend(payload(&packet));
                    answers.push(ack);
                    complete = true;
                }
            }
        }
        if answers.is_empty() && !complete {
            answers.push(reader.on_silence().unwrap());
        }
        answers.retain(|_| !lost());
        if answers.is_empty() && !complete {
            match server.on_wait_failed(protocol("timeout")).unwrap() {
                Resend::Announcement => {
                    to_reader.push(Packet::Oack { options: Options::new() })
                }
                Resend::Blocks => to_reader.extend(server.packets()),
                Resend::Nothing => {}
            }
        }
        for block in answers {
            if let Resend::Blocks = server.on_reply(&ack(block)).unwrap() {
                to_reader.extend(server.packets());
            }
        }
        while let ReadStep::Chunk { len } = server.step() {
            let n = len.min(file.len() - at);
            to_reader.push(server.on_chunk(&file[at..at + n]));
            at += n;
        }
        if complete {
            break;
        }
        if to_reader.len() > 64 {
            to_reader.truncate(64);
        }
    }
    assert!(complete);
    assert_eq!(out, file);
}

#[test]
fn disorder_does_not_harm_a_read() {
    let file = content(1000);
    let mut s = GetSession::new(&config(100, 4), parameters(100, 4));
    let mut out = Vec::new();
    let mut state = 1u32;
    for _ in 0..100_000 {
        state = state.wrapping_mul(1664525).wrapping_add(1013904223);
        let k = (state >> 16) as usize % 12;
        if k == 0 {
            s.on_silence().ok();
            continue;
        }
        let from = ((k - 1) * 100).min(1000);
        let to = (k * 100).min(1000);
        let packet = data(k as u16, &file[from..to]);
        match s.on_packet(&packet).unwrap() {
            GetAction::Store { .. } => out.extend(payload(&packet)),
            GetAction::Finish { .. } => {
                out.extend(payload(&packet));
                break;
            }
            GetAction::Ack { block } => assert!((block as u64) < s.expected_block),
        }
        assert_eq!(out[..], file[..out.len()]);
    }
    assert_eq!(out, file);
}

#[test]
fn disorder_does_not_harm_a_write() {
    let file = content(950);
    let mut s = WriteSession::new(parameters(100, 1));
    let mut out = Vec::new();
    let mut state = 7u32;
    let mut complete = false;
    for _ in 0..100_000 {
        state = state.wrapping_mul(1664525).wrapping_add(1013904223);
        let k = (state >> 16) as usize % 10 + 1;
        let packet = data(k as u16, &file[(k - 1) * 100..(k * 100).min(950)]);
        match s.on_packet(&packet).unwrap() {
            WriteAction::Store { .. } => out.extend(payload(&packet)),
            WriteAction::Finish { ack } => {
                assert_eq!(ack, 10);
                out.extend(payload(&packet));
                complete = true;
                break;
            }
            WriteAction::Ack { block } => assert_eq!(u64::from(block), s.expected_block - 1),
            WriteAction::Announce => panic!("nothing to announce"),
        }
        assert_eq!(out[..], file[..out.len()]);
    }
    assert!(complete);
    assert_eq!(out, file);
    assert_eq!(s.received, 950);
}

#[test]
fn valid_requests_are_granted_as_they_are() {
    let mut options = Options::new();
    options.set_blksize(65464);
    options.set_timeout(255);
    options.set_windowsize(64);
    options.insert("unknown", "1");
    let valid = validate_request(&options).unwrap();
    assert_eq!(answer_write(&options).0, valid);
    assert_eq!(valid, Negotiation { blksize: 65464, timeout: 255, windowsize: 64, tsize: None });
    assert_eq!(valid.apply_oack(&Options::new()), valid);
}
