use last_tftp::error::{TftpError, TftpErrorCode};
use last_tftp::opcode::Opcode;
use last_tftp::options::{describe_entries, validate_request, Negotiation, Options};
use last_tftp::packet::{describe_error, describe_request, Packet, ParseError};
use last_tftp::session::{apply_negotiation, ClientConfig, TransferStats};
use last_tftp::{Mode, DEFAULT_BLOCK_SIZE, MAX_BLOCK_SIZE};

#[test]
fn mode_parse_roundtrip() {
    assert_eq!(Mode::parse("octet"), Some(Mode::Octet));
    assert_eq!(Mode::parse("OCTET"), Some(Mode::Octet));
    assert_eq!(Mode::parse("netascii"), None);
    assert_eq!(Mode::Octet.as_str(), "octet");
}

#[test]
fn mode_parse_is_exact_about_length() {
    assert_eq!(Mode::parse("OcTeT"), Some(Mode::Octet));
    assert_eq!(Mode::parse("octets"), None);
    assert_eq!(Mode::parse(""), None);
    assert_eq!(Mode::parse("öctet"), None);
}

#[test]
fn const_values_match_rfc() {
    assert_eq!(DEFAULT_BLOCK_SIZE, 512);
    assert_eq!(MAX_BLOCK_SIZE, 65464);
}

#[test]
fn opcode_roundtrip() {
    for op in [
        Opcode::Rrq,
        Opcode::Wrq,
        Opcode::Data,
        Opcode::Ack,
        Opcode::Error,
        Opcode::Oack,
    ] {
        assert_eq!(Opcode::from_u16(op.as_u16()), Some(op));
    }
}

#[test]
fn opcode_unknown_opcode_rejected() {
    assert_eq!(Opcode::from_u16(0), None);
    assert_eq!(Opcode::from_u16(7), None);
    assert_eq!(Opcode::from_u16(u16::MAX), None);
}

#[test]
fn error_codes_lead_back() {
    for v in 0..=8u16 {
        assert_eq!(TftpErrorCode::from_u16(v).as_u16(), v);
    }
    assert_eq!(TftpErrorCode::from_u16(9), TftpErrorCode::NotDefined);
    assert_eq!(TftpErrorCode::from_u16(65535), TftpErrorCode::NotDefined);
    assert_eq!(TftpErrorCode::DiskFull.default_message(), "Disk full or allocation exceeded");
    assert_eq!(TftpErrorCode::NotDefined.default_message(), "Not defined");
    assert_eq!(TftpErrorCode::OptionNegotiation.default_message(), "Option negotiation failed");
}

#[test]
fn error_messages() {
    assert_eq!(TftpError::Io("broken pipe".to_string()).message(), "I/O error: broken pipe");
    assert_eq!(TftpError::Parse("x".to_string()).message(), "invalid packet: x");
    assert_eq!(
        TftpError::Remote { code: TftpErrorCode::FileNotFound, message: "nope".to_string() }
            .message(),
        "remote sent ERROR FileNotFound: nope"
    );
    assert_eq!(TftpError::Timeout { retries: 6 }.message(), "timeout after 6 retries");
    assert_eq!(TftpError::Aborted.message(), "transfer aborted by user");
    assert_eq!(
        TftpError::UnsupportedOption("multicast".to_string()).message(),
        "unsupported option: multicast"
    );
    assert_eq!(TftpError::InvalidBlockSize(7).message(), "invalid block size: 7");
    assert_eq!(TftpError::Protocol("p".to_string()).message(), "protocol violation: p");
}

#[test]
fn parse_error_messages() {
    assert_eq!(
        ParseError::Truncated { need: 2, got: 1 }.message(),
        "buffer too short: need 2, got 1"
    );
    assert_eq!(ParseError::UnknownOpcode(99).message(), "unknown opcode: 99");
    assert_eq!(ParseError::InvalidUtf8.message(), "invalid UTF-8 in string field");
    assert_eq!(
        ParseError::BlockMismatch { expected: 3, got: 70 }.message(),
        "DATA block number mismatch: expected 3, got 70"
    );
    assert_eq!(
        ParseError::BlockWrap.message(),
        "DATA block number wraps from 65535 to 0 not allowed in single transfer"
    );
    assert_eq!(
        TftpError::from(ParseError::UnterminatedString),
        TftpError::Parse("missing NUL terminator in string field".to_string())
    );
}

#[test]
fn encode_decode_roundtrip() {
    let mut opts = Options::new();
    opts.set_blksize(1468);
    opts.set_timeout(3);
    opts.set_windowsize(8);

    let mut buf = bytes::BytesMut::new();
    opts.encode_into(&mut buf);
    let parsed = Options::decode_from(&buf).unwrap();
    assert_eq!(opts, parsed);
}

#[test]
fn empty_options_encode_to_nothing() {
    let opts = Options::new();
    let mut buf = bytes::BytesMut::new();
    opts.encode_into(&mut buf);
    assert!(buf.is_empty());
}

#[test]
fn options_are_kept_in_byte_order() {
    let mut opts = Options::default();
    assert!(opts.is_empty());
    opts.insert("tsize", "9");
    opts.insert("blksize", "8");
    opts.insert("blksiz", "7");
    opts.insert("blksize", "1024");
    opts.insert("Zeta", "ü");
    assert_eq!(
        opts.iter(),
        vec![("Zeta", "ü"), ("blksiz", "7"), ("blksize", "1024"), ("tsize", "9")]
    );
    assert_eq!(opts.get("blksize"), Some("1024"));
    assert_eq!(opts.get("timeout"), None);
    assert!(!opts.is_empty());
    let mut buf = bytes::BytesMut::new();
    opts.encode_into(&mut buf);
    assert_eq!(&buf[..], "Zeta\0ü\0blksiz\07\0blksize\01024\0tsize\09\0".as_bytes());
    assert_eq!(opts.clone(), opts);
}

#[test]
fn numbers_in_options() {
    let mut opts = Options::new();
    opts.set_tsize(u64::MAX);
    assert_eq!(opts.get("tsize"), Some("18446744073709551615"));
    assert_eq!(opts.tsize(), Some(u64::MAX));
    opts.insert("tsize", "18446744073709551616");
    assert_eq!(opts.tsize(), None);
    opts.insert("blksize", "+512");
    assert_eq!(opts.blksize(), Some(512));
    opts.insert("blksize", "65535");
    assert_eq!(opts.blksize(), Some(65535));
    for bad in ["65536", "", "+", "-1", " 5", "5 ", "++5", "5a", "٥"] {
        opts.insert("blksize", bad);
        assert_eq!(opts.blksize(), None, "{bad}");
    }
    opts.insert("timeout", "0007");
    assert_eq!(opts.timeout(), Some(7));
    opts.set_windowsize(0);
    assert_eq!(opts.windowsize(), Some(0));
}

#[test]
fn options_decode_errors() {
    assert_eq!(Options::decode_from(b"blksize"), Err(ParseError::UnterminatedString));
    assert_eq!(Options::decode_from(b"blksize\0"), Err(ParseError::UnterminatedString));
    assert_eq!(Options::decode_from(b"blksize\0512"), Err(ParseError::UnterminatedString));
    assert_eq!(Options::decode_from(b"\xff\xfe\x001\0"), Err(ParseError::InvalidUtf8));
    assert_eq!(Options::decode_from(b"a\0\xc3\x28\0"), Err(ParseError::InvalidUtf8));
    let twice = Options::decode_from(b"a\01\0b\0\0a\02\0").unwrap();
    assert_eq!(twice.iter(), vec![("a", "2"), ("b", "")]);
}

#[test]
fn negotiation_defaults() {
    let n = Negotiation::defaults();
    assert_eq!(n.blksize, 512);
    assert_eq!(n.timeout, 5);
    assert_eq!(n.windowsize, 1);
    assert_eq!(n.tsize, None);
}

#[test]
fn apply_oack_overrides_only_present() {
    let n = Negotiation::defaults();
    let mut oack = Options::new();
    oack.set_blksize(8192);
    let applied = n.apply_oack(&oack);
    assert_eq!(applied.blksize, 8192);
    assert_eq!(applied.timeout, 5);
    assert_eq!(applied.windowsize, 1);
    assert_eq!(applied.tsize, None);
}

#[test]
fn apply_oack_preserves_tsize_from_oack() {
    let n = Negotiation::defaults();
    let mut oack = Options::new();
    oack.set_tsize(102400);
    let applied = n.apply_oack(&oack);
    assert_eq!(applied.tsize, Some(102400));
}

#[test]
fn validate_request_blksize_bounds() {
    let mut req = Options::new();
    req.set_blksize(7);
    assert!(matches!(validate_request(&req), Err(TftpError::InvalidBlockSize(7))));

    req.set_blksize(65465);
    assert!(matches!(validate_request(&req), Err(TftpError::InvalidBlockSize(65465))));

    req.set_blksize(1468);
    let n = validate_request(&req).unwrap();
    assert_eq!(n.blksize, 1468);
}

#[test]
fn validate_request_timeout_bounds() {
    let mut req = Options::new();
    req.set_timeout(0);
    assert!(validate_request(&req).is_err());
    req.set_timeout(256);
    assert!(validate_request(&req).is_err());
    req.set_timeout(60);
    assert_eq!(validate_request(&req).unwrap().timeout, 60);
}

#[test]
fn validate_request_reports_the_first_fault() {
    let mut req = Options::new();
    req.set_windowsize(0);
    assert_eq!(
        validate_request(&req),
        Err(TftpError::Protocol("windowsize must be > 0".to_string()))
    );
    req.set_timeout(300);
    assert_eq!(
        validate_request(&req),
        Err(TftpError::Protocol("invalid timeout 300".to_string()))
    );
    req.set_blksize(0);
    assert_eq!(validate_request(&req), Err(TftpError::InvalidBlockSize(0)));
    let mut req = Options::new();
    req.set_windowsize(65535);
    req.set_tsize(12);
    req.insert("multicast", "");
    assert_eq!(
        validate_request(&req),
        Ok(Negotiation { blksize: 512, timeout: 5, windowsize: 65535, tsize: Some(12) })
    );
}

#[test]
fn apply_negotiation_overrides() {
    let cfg = ClientConfig::default();
    let neg = Negotiation { blksize: 1468, timeout: 3, windowsize: 8, tsize: None };
    let out = apply_negotiation(&cfg, neg);
    assert_eq!(out.blksize, 1468);
    assert_eq!(out.timeout_secs, 3);
    assert_eq!(out.windowsize, 8);
}

#[test]
fn client_config_defaults() {
    let cfg = ClientConfig::default();
    assert_eq!(cfg.blksize, 512);
    assert_eq!(cfg.timeout_secs, 5);
    assert_eq!(cfg.windowsize, 1);
    assert_eq!(cfg.retries, 6);
    assert_eq!(cfg.resume_from_block, 0);
    assert_eq!(
        TransferStats::default(),
        TransferStats { bytes: 0, blocks: 0, total_bytes: None, duration_ms: 0 }
    );
}

#[test]
fn transfers_are_timed() {
    let stats = TransferStats { bytes: 8, blocks: 2, total_bytes: Some(8), duration_ms: 0 };
    assert_eq!(stats.timed(1500), TransferStats { duration_ms: 1500, ..stats });
}

#[test]
fn encode_decode_rrq_no_options() {
    let p = Packet::Rrq {
        filename: "kernel.bin".into(),
        mode: "octet".into(),
        options: Options::default(),
    };
    let bytes = p.encode();
    assert_eq!(bytes[0..2], [0, 1]);
    let parsed = Packet::parse(&bytes).unwrap();
    assert_eq!(parsed, p);
}

#[test]
fn encode_decode_wrq_with_options() {
    let mut opts = Options::default();
    opts.set_blksize(1468);
    opts.set_timeout(3);
    let p = Packet::Wrq {
        filename: "fw.img".into(),
        mode: "octet".into(),
        options: opts.clone(),
    };
    let parsed = Packet::parse(&p.encode()).unwrap();
    assert_eq!(parsed, p);
}

#[test]
fn encode_decode_data_and_ack() {
    let data = Packet::Data { block: 42, data: bytes::Bytes::from_static(b"hello") };
    assert_eq!(Packet::parse(&data.encode()).unwrap(), data);

    let ack = Packet::Ack { block: 42 };
    assert_eq!(Packet::parse(&ack.encode()).unwrap(), ack);
}

#[test]
fn encode_decode_error() {
    let err = Packet::Error {
        code: TftpErrorCode::FileNotFound,
        message: "no such file".into(),
    };
    assert_eq!(Packet::parse(&err.encode()).unwrap(), err);
}

#[test]
fn encode_decode_oack() {
    let mut opts = Options::default();
    opts.set_blksize(1468);
    opts.set_windowsize(8);
    let oack = Packet::Oack { options: opts.clone() };
    assert_eq!(Packet::parse(&oack.encode()).unwrap(), oack);
}

#[test]
fn truncated_buffer_rejected() {
    let buf = [0u8, 1];
    let err = Packet::parse(&buf).unwrap_err();
    assert!(matches!(err, ParseError::UnterminatedString));
}

#[test]
fn packet_unknown_opcode_rejected() {
    let buf = [0u8, 99, 0, 0];
    let err = Packet::parse(&buf).unwrap_err();
    assert!(matches!(err, ParseError::UnknownOpcode(99)));
}

#[test]
fn packets_on_the_wire() {
    let data = Packet::Data { block: 0x0102, data: bytes::Bytes::from_static(b"\0\xff") };
    assert_eq!(&data.encode()[..], [0, 3, 1, 2, 0, 255]);
    assert_eq!(&Packet::Ack { block: 65535 }.encode()[..], [0, 4, 255, 255]);
    let error = Packet::Error { code: TftpErrorCode::NoSuchUser, message: "é".to_string() };
    assert_eq!(&error.encode()[..], [0, 5, 0, 7, 0xc3, 0xa9, 0]);
    assert_eq!(error.opcode(), Opcode::Error);
    let mut options = Options::new();
    options.set_windowsize(4);
    let rrq = Packet::Rrq { filename: "a".to_string(), mode: "octet".to_string(), options };
    assert_eq!(&rrq.encode()[..], b"\0\x01a\0octet\0windowsize\x004\0");
    assert!(rrq.fits());
    assert_eq!(rrq.clone(), rrq);
    assert_eq!(data.clone(), data);
}

#[test]
fn packets_that_are_no_packets() {
    assert_eq!(Packet::parse(&[]), Err(ParseError::Truncated { need: 2, got: 0 }));
    assert_eq!(Packet::parse(&[0]), Err(ParseError::Truncated { need: 2, got: 1 }));
    assert_eq!(Packet::parse(&[0, 3]), Err(ParseError::Truncated { need: 2, got: 0 }));
    assert_eq!(Packet::parse(&[0, 4, 1]), Err(ParseError::Truncated { need: 2, got: 1 }));
    assert_eq!(Packet::parse(&[0, 5, 1]), Err(ParseError::Truncated { need: 2, got: 1 }));
    assert_eq!(Packet::parse(&[0, 5, 0, 1]), Err(ParseError::UnterminatedString));
    assert_eq!(Packet::parse(b"\0\x02a\0octet"), Err(ParseError::UnterminatedString));
    assert_eq!(Packet::parse(b"\0\x01\x80\0octet\0"), Err(ParseError::InvalidUtf8));
    assert_eq!(Packet::parse(&[1, 0]), Err(ParseError::UnknownOpcode(256)));
    assert_eq!(Packet::parse(&[0, 6]), Ok(Packet::Oack { options: Options::new() }));
}

#[test]
fn trailing_bytes_change_nothing() {
    assert_eq!(Packet::parse(&[0, 4, 0, 9, 77, 78]), Ok(Packet::Ack { block: 9 }));
    assert_eq!(
        Packet::parse(b"\0\x05\0\x01gone\0rest"),
        Ok(Packet::Error { code: TftpErrorCode::FileNotFound, message: "gone".to_string() })
    );
}

#[test]
fn a_text_with_a_nul_does_not_read_back() {
    let p = Packet::Error { code: TftpErrorCode::NotDefined, message: "a\0b".to_string() };
    assert_eq!(
        Packet::parse(&p.encode()),
        Ok(Packet::Error { code: TftpErrorCode::NotDefined, message: "a".to_string() })
    );
}

#[test]
fn packets_describe_themselves() {
    let mut options = Options::new();
    options.set_tsize(3);
    options.insert("a", "b\"c");
    let rrq = Packet::Rrq { filename: "f\n".to_string(), mode: "octet".to_string(), options };
    assert_eq!(
        rrq.describe(),
        "Rrq { filename: \"f\\n\", mode: \"octet\", options: Options { inner: {\"a\": \"b\\\"c\", \"tsize\": \"3\"} } }"
    );
    let data = Packet::Data { block: 7, data: bytes::Bytes::from_static(b"a\"\\\n\r\t\0\x01\xfe ~") };
    assert_eq!(
        data.describe(),
        "Data { block: 7, data: b\"a\\\"\\\\\\n\\r\\t\\0\\x01\\xfe ~\" }"
    );
    assert_eq!(Packet::Ack { block: 65535 }.describe(), "Ack { block: 65535 }");
    assert_eq!(
        Packet::Error { code: TftpErrorCode::DiskFull, message: "x".to_string() }.describe(),
        "Error { code: DiskFull, message: \"x\" }"
    );
    assert_eq!(
        Packet::Oack { options: Options::new() }.describe(),
        "Oack { options: Options { inner: {} } }"
    );
    let wrq = Packet::Wrq {
        filename: String::new(),
        mode: "octet".to_string(),
        options: Options::new(),
    };
    assert_eq!(
        wrq.describe(),
        "Wrq { filename: \"\", mode: \"octet\", options: Options { inner: {} } }"
    );
}

#[test]
fn descriptions_are_put_together() {
    assert_eq!(
        describe_request("Rrq", "\"f\"", "\"m\"", "o"),
        "Rrq { filename: \"f\", mode: \"m\", options: o }"
    );
    assert_eq!(
        describe_error(TftpErrorCode::NoSuchUser, "\"x\""),
        "Error { code: NoSuchUser, message: \"x\" }"
    );
    assert_eq!(describe_entries(&vec![]), "Options { inner: {} }");
    assert_eq!(
        describe_entries(&vec![
            ("a".to_string(), "b".to_string()),
            ("c".to_string(), "d".to_string()),
            ("e".to_string(), "f".to_string()),
        ]),
        "Options { inner: {a: b, c: d, e: f} }"
    );
}
