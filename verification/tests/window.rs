use last_tftp::client::Client;
use last_tftp::commands::{build_client, listen_address, parse_auto_get, AutoGet};
use last_tftp::error::TftpError;
use last_tftp::gui::{
    can_start, closed_event, collect_local_ips, joins_remote_name, opened_event, size_unit,
    unit_name, window_client, window_target, Board, Direction, GuiMsg, Ip, LastAction,
    ProgressKind, RowStatus, ServerFields, ServerTransferEvent, Tab,
};
use last_tftp::options::Options;
use last_tftp::packet::Packet;
use last_tftp::path::{
    clean_filename, collapse, sanitize_path, strip_verbatim, PathChoice, Segment, Step,
};
use last_tftp::session::{ClientConfig, TransferStats};

#[test]
fn command_line_clients() {
    let cfg = ClientConfig {
        blksize: 1468,
        timeout_secs: 5,
        windowsize: 8,
        retries: 6,
        resume_from_block: 0,
    };
    assert_eq!(build_client(1468, 5, 8, 6, false, false), Client::new(cfg));
    assert_eq!(build_client(1468, 5, 8, 6, true, true), Client::new(cfg).prefer_ipv6(true));
    assert_eq!(listen_address(6969, false), "0.0.0.0:6969");
    assert_eq!(listen_address(69, true), "[::]:69");
}

#[test]
fn automatic_downloads() {
    assert_eq!(
        parse_auto_get("h,6969,a/b,/tmp/x,y"),
        Some(AutoGet {
            host: "h".to_string(),
            port: 6969,
            file: "a/b".to_string(),
            local: "/tmp/x,y".to_string(),
        })
    );
    assert_eq!(
        parse_auto_get(",0,,"),
        Some(AutoGet { host: String::new(), port: 0, file: String::new(), local: String::new() })
    );
    assert_eq!(parse_auto_get("h,69,f"), None);
    assert_eq!(parse_auto_get("h,65536,f,l"), None);
    assert_eq!(parse_auto_get("h,,f,l"), None);
    assert_eq!(parse_auto_get(""), None);
}

#[test]
fn names_are_cleaned() {
    assert_eq!(clean_filename("a\\b/c"), Ok("a/b/c".to_string()));
    assert_eq!(clean_filename(""), Ok(String::new()));
    assert_eq!(clean_filename("../x"), Ok("../x".to_string()));
    assert_eq!(clean_filename("ü.bin"), Ok("ü.bin".to_string()));
    let clean = clean_filename("a\\b").unwrap();
    assert_eq!(clean_filename(&clean), Ok(clean.clone()));
    for bad in ["/etc/passwd", "\\share", "C:x", "a:", "x/y:z"] {
        assert_eq!(
            clean_filename(bad),
            Err(TftpError::Protocol("path escape denied".to_string())),
            "{bad}"
        );
    }
}

#[test]
fn paths_collapse() {
    assert_eq!(collapse(&vec![Step::Root, Step::Normal, Step::Parent, Step::Normal]), vec![0, 3]);
    assert_eq!(collapse(&vec![Step::Root, Step::Parent, Step::Parent, Step::Normal]), vec![0, 3]);
    assert_eq!(collapse(&vec![Step::Prefix, Step::Root, Step::Parent]), vec![0, 1]);
    assert_eq!(collapse(&vec![Step::Current, Step::Parent, Step::Normal]), vec![2]);
    assert_eq!(collapse(&vec![Step::Parent, Step::Normal, Step::Parent]), Vec::<usize>::new());
    assert_eq!(collapse(&vec![Step::Root, Step::Normal, Step::Normal]), vec![0, 1, 2]);
    assert_eq!(collapse(&vec![]), Vec::<usize>::new());
}

fn path(names: &[&str]) -> Vec<Segment> {
    let mut out = vec![Segment { step: Step::Root, name: Vec::new() }];
    for n in names {
        out.push(Segment { step: Step::Normal, name: n.as_bytes().to_vec() });
    }
    out
}

#[test]
fn paths_are_confined() {
    let root = path(&["srv", "tftp"]);
    assert_eq!(sanitize_path(&root, &path(&["srv", "tftp", "a"]), true), Ok(PathChoice::Resolved));
    assert_eq!(sanitize_path(&root, &path(&["srv", "tftp", "a"]), false), Ok(PathChoice::Joined));
    assert_eq!(sanitize_path(&root, &root, true), Ok(PathChoice::Resolved));
    let denied = Err(TftpError::Protocol("path escape denied".to_string()));
    assert_eq!(sanitize_path(&root, &path(&["srv", "tftp2", "a"]), true), denied);
    assert_eq!(sanitize_path(&root, &path(&["srv"]), true), denied);
    assert_eq!(sanitize_path(&root, &path(&["etc", "passwd"]), false), denied);
    let mut odd = path(&["srv", "tftp"]);
    odd[1].step = Step::Prefix;
    assert_eq!(sanitize_path(&root, &odd, true), denied);
}

#[test]
fn verbatim_paths() {
    assert_eq!(strip_verbatim("\\\\?\\C:\\x"), Some("C:\\x".to_string()));
    assert_eq!(strip_verbatim("\\\\?\\UNC\\host\\s"), Some("\\\\host\\s".to_string()));
    assert_eq!(strip_verbatim("\\\\?\\"), Some(String::new()));
    assert_eq!(strip_verbatim("/srv"), None);
    assert_eq!(strip_verbatim("\\\\.\\x"), None);
}

#[test]
fn defaults_of_the_window() {
    assert_eq!(Tab::default(), Tab::Client);
    assert_eq!(LastAction::default(), LastAction::Get);
    let f = ServerFields::initial();
    assert_eq!((f.root.as_str(), f.port, f.allow_write, f.running), (".", 69, false, false));
    let f = ServerFields::default();
    assert_eq!((f.root.as_str(), f.port, f.allow_write, f.running), ("", 0, false, false));
    let c = window_client(1024, 4, true);
    assert!(c.prefer_v6);
    assert_eq!(c.cfg.retries, 4);
    assert_eq!(c.cfg.timeout_secs, 5);
    assert_eq!(c.cfg.blksize, 1024);
    assert_eq!(c.cfg.windowsize, 4);
    assert_eq!(window_target("h", "f"), "h:f");
    assert!(can_start("f", "l"));
    assert!(!can_start("", "l"));
    assert!(!can_start("f", ""));
    assert!(joins_remote_name(Direction::Get, true, "f"));
    assert!(!joins_remote_name(Direction::Put, true, "f"));
    assert!(!joins_remote_name(Direction::Get, false, "f"));
    assert!(!joins_remote_name(Direction::Get, true, ""));
}

#[test]
fn the_server_starts_and_stops() {
    let mut f = ServerFields::initial();
    assert_eq!(f.label(), "○ server: off");
    assert_eq!(f.idle_text(), "idle");
    assert_eq!(f.stop_server(), None);
    assert_eq!(f.start_server("/srv"), Some("server starting on port 69 ...".to_string()));
    assert_eq!(f.root, "/srv");
    assert_eq!(f.start_server("/other"), None);
    assert_eq!(f.root, "/srv");
    assert_eq!(f.label(), "● server:69");
    assert_eq!(f.idle_text(), "✓  server running  ·  ready");
    assert_eq!(f.endpoint("127.0.0.1"), "127.0.0.1:69");
    assert_eq!(f.stop_server(), Some("server stop requested".to_string()));
    assert!(!f.running);
}

#[test]
fn rows_follow_the_news() {
    let mut b = Board::new();
    assert_eq!(b.start_transfer(Direction::Get, "10.0.0.1", 69, "dir/a.bin"), 1);
    assert_eq!(b.start_transfer(Direction::Put, "h", 6969, "b"), 2);
    assert_eq!(b.rows[0].target, "10.0.0.1:69/dir/a.bin");
    assert_eq!(b.rows[0].file_label(), "a.bin");
    assert_eq!(b.rows[1].file_label(), "b");
    assert_eq!(b.summary(), "2 in flight  ·  0 done  ·  2 total");
    assert_eq!(b.first_active(), Some(0));
    assert!(b.on_message(&GuiMsg::Progress { id: 1, bytes: 10, blocks: 1, total: Some(100) }));
    assert_eq!((b.rows[0].bytes, b.rows[0].blocks, b.rows[0].total), (10, 1, Some(100)));
    assert_eq!(b.rows[1].bytes, 0);
    assert!(b.on_message(&GuiMsg::Done { id: 1, bytes: 5, error: None }));
    assert_eq!((b.rows[0].bytes, b.rows[0].done), (10, true));
    assert!(b.on_message(&GuiMsg::Done { id: 2, bytes: 7, error: Some("bad".to_string()) }));
    assert_eq!(b.rows[1].bytes, 7);
    assert!(!b.on_message(&GuiMsg::Done { id: 9, bytes: 7, error: None }));
    assert_eq!(b.first_active(), None);
    assert_eq!(b.rows[0].status(), RowStatus::Done);
    assert_eq!(b.rows[0].status_label(), Some("DONE".to_string()));
    assert_eq!(b.rows[1].status(), RowStatus::Failed);
    assert_eq!(b.rows[1].status_label(), Some("FAILED: bad".to_string()));
    assert_eq!(b.summary(), "0 in flight  ·  2 done  ·  2 total");
    b.remove(0);
    assert_eq!(b.rows.len(), 1);
    assert_eq!(b.rows[0].id, 2);
    assert_eq!(b.start_transfer(Direction::Get, "", 0, ""), 3);
    assert_eq!(b.rows[1].status(), RowStatus::Running);
    assert_eq!(b.rows[1].status_label(), None);
}

#[test]
fn rows_show_progress() {
    let mut b = Board::new();
    b.start_transfer(Direction::Get, "h", 69, "f");
    assert_eq!(b.rows[0].progress_kind(), ProgressKind::Nothing);
    b.on_message(&GuiMsg::Progress { id: 1, bytes: 1, blocks: 1, total: None });
    assert_eq!(b.rows[0].progress_kind(), ProgressKind::Estimate);
    b.on_message(&GuiMsg::Progress { id: 1, bytes: 1, blocks: 1, total: Some(2) });
    assert_eq!(b.rows[0].progress_kind(), ProgressKind::Share);
    b.on_message(&GuiMsg::Progress { id: 1, bytes: 1, blocks: 1, total: Some(0) });
    assert_eq!(b.rows[0].progress_kind(), ProgressKind::EmptyTotal);
    b.on_message(&GuiMsg::Progress { id: 1, bytes: 1, blocks: 1, total: None });
    b.on_message(&GuiMsg::Done { id: 1, bytes: 1, error: None });
    assert_eq!(b.rows[0].progress_kind(), ProgressKind::Whole);
}

#[test]
fn the_server_reports_to_the_board() {
    let mut b = Board::new();
    let rrq = Packet::Rrq {
        filename: "k.bin".to_string(),
        mode: "octet".to_string(),
        options: Options::new(),
    };
    let wrq = Packet::Wrq {
        filename: "w.bin".to_string(),
        mode: "octet".to_string(),
        options: Options::new(),
    };
    assert_eq!(opened_event(&Packet::Ack { block: 1 }, "p"), None);
    let read = opened_event(&rrq, "1.2.3.4:5").unwrap();
    let write = opened_event(&wrq, "1.2.3.4:6").unwrap();
    assert_eq!(read.direction, Direction::Get);
    assert_eq!(write.direction, Direction::Put);
    b.on_server_event(&read);
    b.on_server_event(&write);
    assert_eq!(b.rows[0].target, "server://1.2.3.4:5/k.bin");
    assert_eq!(b.log[0], "[server] GET from 1.2.3.4:5 file=k.bin");
    assert_eq!(b.log[1], "[server] PUT from 1.2.3.4:6 file=w.bin");
    assert_eq!(b.on_server_progress(9, Some(20)), Some(2));
    assert_eq!((b.rows[1].bytes, b.rows[1].total), (9, Some(20)));
    assert_eq!(b.rows[0].bytes, 0);

    let stats = TransferStats { bytes: 20, blocks: 1, total_bytes: None, duration_ms: 0 };
    b.on_server_event(&closed_event(write, &Ok(stats)));
    assert!(b.rows[1].done);
    assert_eq!((b.rows[1].bytes, b.rows[1].total), (20, Some(20)));
    assert_eq!(b.log[2], "[server] PUT server://1.2.3.4:6/w.bin DONE (20 bytes)");
    assert_eq!(b.on_server_progress(3, None), Some(1));
    b.on_server_event(&closed_event(read.clone(), &Err(TftpError::Aborted)));
    assert_eq!(
        b.log[3],
        "[server] GET server://1.2.3.4:5/k.bin FAILED: transfer aborted by user (3 bytes)"
    );
    assert_eq!(b.rows[0].error, Some("transfer aborted by user".to_string()));
    assert_eq!(b.on_server_progress(3, None), None);
    assert_eq!(b.on_server_event(&ServerTransferEvent { done: true, ..read }), None);
    assert_eq!(b.log.len(), 4);
}

#[test]
fn everything_waiting_is_shown() {
    let mut b = Board::new();
    let id = b.start_transfer(Direction::Get, "h", 69, "f");
    let opened = ServerTransferEvent {
        direction: Direction::Get,
        peer: "p".to_string(),
        filename: "g".to_string(),
        bytes: 0,
        total: None,
        done: false,
        error: None,
    };
    let unknown = ServerTransferEvent { done: true, peer: "q".to_string(), ..opened.clone() };
    let (lines, moved) = b.poll_messages(
        &vec!["first".to_string()],
        &vec![opened, unknown],
        &vec![(4, Some(8)), (8, Some(8))],
        &vec![
            GuiMsg::Progress { id, bytes: 5, blocks: 1, total: None },
            GuiMsg::Progress { id: 77, bytes: 6, blocks: 1, total: None },
            GuiMsg::Done { id, bytes: 6, error: None },
        ],
    );
    assert_eq!(lines, vec!["[server] GET from p file=g".to_string()]);
    assert_eq!(moved, vec![(2, 4), (2, 8), (1, 5)]);
    assert_eq!(b.log, vec!["first".to_string(), "[server] GET from p file=g".to_string()]);
    assert_eq!((b.rows[0].bytes, b.rows[0].done), (6, true));
    assert_eq!((b.rows[1].bytes, b.rows[1].total), (8, Some(8)));
}

#[test]
fn the_log_is_bounded() {
    let mut b = Board::new();
    for i in 0..503 {
        b.push_log(&format!("line {i}"));
    }
    assert_eq!(b.log.len(), 500);
    assert_eq!(b.log[0], "line 3");
    assert_eq!(b.log[499], "line 502");
}

#[test]
fn local_addresses_are_sorted() {
    let found = vec![
        (Ip::V6(7), false),
        (Ip::V4(9), false),
        (Ip::V4(0x7f000001), true),
        (Ip::V4(3), false),
        (Ip::V4(9), false),
        (Ip::V6(1), true),
        (Ip::V6(2), false),
    ];
    assert_eq!(collect_local_ips(&found), vec![Ip::V4(3), Ip::V4(9), Ip::V6(2), Ip::V6(7)]);
    assert_eq!(collect_local_ips(&vec![]), vec![]);
}

#[test]
fn sizes_have_units() {
    let unit = |n: u64| unit_name(size_unit(n));
    assert_eq!(unit(0), "B");
    assert_eq!(unit(1023), "B");
    assert_eq!(unit(1024), "KB");
    assert_eq!(unit(1024 * 1024 - 1), "KB");
    assert_eq!(unit(1024 * 1024), "MB");
    assert_eq!(unit(1 << 30), "GB");
    assert_eq!(unit(1 << 40), "TB");
    assert_eq!(unit(u64::MAX), "TB");
}
