//! Laws of the desktop window: its rows, its log, its server and its texts.

use crate::client::Client;
use crate::error::{error_message, TftpError};
use crate::gui::{
    active_count, after_last_slash, after_lines, after_message, after_messages,
    after_server_event, after_server_events, after_server_progress, after_server_steps,
    can_start, closed_event, collect_local_ips, event_line, event_lines, holds_the_local,
    ip_before, joins_remote_name, lemma_row_found, lemma_up_to_served, lemma_up_to_served_to,
    logged, moved_by_client, moved_by_server, news_changes_one_row, news_id, opened_event,
    orderly, row_with_id, size_unit, texts_of, unit_bytes, unit_name, up_to_served,
    window_client, window_target, Board, BoardView, Direction, GuiMsg, Ip, LastAction,
    ProgressKind, RowStatus, RowView, ServerFields, ServerTransferEvent, Tab, TransferState,
};
use crate::laws::requests::lacks;
use crate::packet::{Packet, PacketView};
use crate::session::TransferStats;
use crate::text::{decimal, has_part, has_prefix, has_suffix};
use vstd::prelude::*;
use vstd::string::*;

verus! {

/// A line goes to the end of the log; once the log holds 500 lines, the oldest
/// one leaves.
pub proof fn lines_go_to_the_end_of_the_log(
    b: &mut Board,
    line: &str,
    log: Seq<Seq<char>>,
    t: Seq<char>,
)
    requires
        call_ensures(Board::push_log, (b, line), ()),
    ensures
        final(b)@.rows == old(b)@.rows && final(b)@.next_id == old(b)@.next_id,
        old(b)@.log.len() < 500 ==> final(b)@.log == old(b)@.log.push(line@),
        old(b)@.log.len() >= 500 ==> final(b)@.log == old(b)@.log.push(line@).drop_first(),
        logged(log, t) == (if log.len() < 500 {
            log.push(t)
        } else {
            log.push(t).drop_first()
        }),
{
}

/// What the board shows: its rows and its lines, each as it is, in order.
pub proof fn boards_show_their_rows(b: Board, i: int, texts: Seq<String>)
    ensures
        b@.next_id == b.next_id,
        b@.rows.len() == b.rows@.len() && b@.log.len() == b.log@.len(),
        0 <= i < b.rows@.len() ==> {
            let x = b.rows@[i];
            &&& b@.rows[i].id == x.id && b@.rows[i].direction == x.direction && b@.rows[i].target
                == x.target@
            &&& b@.rows[i].bytes == x.bytes && b@.rows[i].blocks == x.blocks && b@.rows[i].total
                == x.total
            &&& b@.rows[i].done == x.done && (b@.rows[i].error is Some <==> x.error is Some)
            &&& x.error matches Some(t) ==> b@.rows[i].error == Some(t@)
        },
        0 <= i < b.log@.len() ==> b@.log[i] == b.log@[i]@,
        texts_of(texts).len() == texts.len(),
        0 <= i < texts.len() ==> texts_of(texts)[i] == texts[i]@,
{
}

/// The list starts empty, with number 1 to give out.
pub proof fn boards_start_empty(b: Board)
    requires
        call_ensures(Board::new, (), b),
    ensures
        b@.rows.len() == 0 && b@.log.len() == 0 && b@.next_id == 1,
{
}

/// A transfer that is started gets the next number and a row at the end, with
/// its direction and its target, and nothing moved.
pub proof fn started_transfers_get_a_row(
    b: &mut Board,
    d: Direction,
    host: &str,
    port: u16,
    file: &str,
    id: u64,
)
    requires
        call_ensures(Board::start_transfer, (b, d, host, port, file), id),
        old(b).next_id < u64::MAX,
    ensures
        id == old(b)@.next_id,
        final(b)@.next_id == old(b)@.next_id + 1,
        final(b)@.log == old(b)@.log,
        final(b)@.rows == old(b)@.rows.push(
            RowView {
                id,
                direction: d,
                target: host@ + ":"@ + decimal(port as nat) + "/"@ + file@,
                bytes: 0,
                blocks: 0,
                total: None,
                done: false,
                error: None,
            },
        ),
{
}

/// News of a transfer changes the row with its number, and nothing else:
/// progress sets how far it has come, an end sets that it has ended and with
/// which error, and lets the bytes only grow.
pub proof fn news_goes_to_its_row(b: BoardView, msg: GuiMsg, i: int)
    requires
        orderly(b),
        0 <= i < b.rows.len(),
    ensures
        after_message(b, msg).rows.len() == b.rows.len(),
        after_message(b, msg).log == b.log && after_message(b, msg).next_id == b.next_id,
        ({
            let x = b.rows[i];
            let y = after_message(b, msg).rows[i];
            match msg {
                GuiMsg::Progress { id, bytes, blocks, total } => y == (if x.id == id {
                    RowView { bytes, blocks, total, ..x }
                } else {
                    x
                }),
                GuiMsg::Done { id, bytes, error } => y == (if x.id == id {
                    RowView {
                        done: true,
                        error: match error {
                            Some(t) => Some(t@),
                            None => None,
                        },
                        bytes: if bytes > x.bytes {
                            bytes
                        } else {
                            x.bytes
                        },
                        ..x
                    }
                } else {
                    x
                }),
            }
        }),
{
    news_changes_one_row(b, msg, i);
}

/// News is taken where the list holds a row with its number, and passed over
/// where it does not.
pub proof fn news_without_a_row_is_passed_over(b: &mut Board, msg: &GuiMsg, found: bool)
    requires
        call_ensures(Board::on_message, (b, msg), found),
    ensures
        ({
            let id = match *msg {
                GuiMsg::Progress { id, .. } => id,
                GuiMsg::Done { id, .. } => id,
            };
            &&& found <==> exists|i: int|
                0 <= i < old(b)@.rows.len() && (#[trigger] old(b)@.rows[i]).id == id
            &&& !found ==> final(b)@ == old(b)@
            &&& final(b)@ == after_message(old(b)@, *msg)
        }),
{
    let id = news_id(*msg);
    let rows = old(b)@.rows;
    lemma_row_found(rows, id);
    if found {
        assert(rows[row_with_id(rows, id) as int].id == id);
    } else if exists|i: int| 0 <= i < rows.len() && (#[trigger] rows[i]).id == id {
        lemma_row_present(rows, id);
    }
}

proof fn lemma_row_present(rows: Seq<RowView>, id: u64)
    requires
        exists|i: int| 0 <= i < rows.len() && (#[trigger] rows[i]).id == id,
    ensures
        row_with_id(rows, id) < rows.len(),
    decreases rows.len(),
{
    let i = choose|i: int| 0 <= i < rows.len() && (#[trigger] rows[i]).id == id;
    if rows[0].id != id {
        let rest = rows.drop_first();
        assert(rest[i - 1].id == id);
        lemma_row_present(rest, id);
    }
}

/// Whether a row shows a transfer of the server that has not ended.
pub open spec fn shows_serving(r: RowView) -> bool {
    has_prefix(r.target, "server://"@) && !r.done
}

/// The beginning of a transfer of the server adds a row with the next number
/// at the end, and a line to the log.
pub proof fn openings_add_a_row(b: BoardView, ev: ServerTransferEvent)
    requires
        !ev.done,
        b.next_id < u64::MAX,
    ensures
        after_server_event(b, ev).rows == b.rows.push(
            RowView {
                id: b.next_id,
                direction: ev.direction,
                target: "server://"@ + ev.peer@ + "/"@ + ev.filename@,
                bytes: 0,
                blocks: 0,
                total: None,
                done: false,
                error: None,
            },
        ),
        after_server_event(b, ev).next_id == b.next_id + 1,
        ({
            let word = if ev.direction == Direction::Get {
                "GET"@
            } else {
                "PUT"@
            };
            let line = "[server] "@ + word + " from "@ + ev.peer@ + " file="@ + ev.filename@;
            &&& event_line(b, ev) == Some(line)
            &&& after_server_event(b, ev).log == logged(b.log, line)
        }),
{
}

/// The end of a transfer of the server closes the last open row that names its
/// peer and ends with its file: it has ended, with the error if there is one,
/// its bytes only grow, and its total is what the news says, if it does. A line
/// reports it. Without such a row nothing changes.
pub proof fn endings_close_the_latest_row(b: BoardView, ev: ServerTransferEvent, n: int)
    requires
        ev.done,
        0 <= n <= b.rows.len(),
        forall|j: int|
            n <= j < b.rows.len() ==> !(shows_serving(#[trigger] b.rows[j]) && has_part(
                b.rows[j].target,
                ev.peer@,
            ) && has_suffix(b.rows[j].target, ev.filename@)),
    ensures
        n == 0 ==> after_server_event(b, ev) == b && event_line(b, ev) is None,
        n > 0 && shows_serving(b.rows[n - 1]) && has_part(b.rows[n - 1].target, ev.peer@)
            && has_suffix(b.rows[n - 1].target, ev.filename@) ==> ({
            let x = b.rows[n - 1];
            let y = RowView {
                done: true,
                error: match ev.error {
                    Some(t) => Some(t@),
                    None => None,
                },
                bytes: if ev.bytes > x.bytes {
                    ev.bytes
                } else {
                    x.bytes
                },
                total: match ev.total {
                    Some(t) => Some(t),
                    None => x.total,
                },
                ..x
            };
            let word = if x.direction == Direction::Get {
                "GET"@
            } else {
                "PUT"@
            };
            let head = "[server] "@ + word + " "@ + x.target;
            let line = match ev.error {
                Some(t) => head + " FAILED: "@ + t@ + " ("@ + decimal(y.bytes as nat) + " bytes)"@,
                None => head + " DONE ("@ + decimal(y.bytes as nat) + " bytes)"@,
            };
            &&& after_server_event(b, ev).rows == b.rows.update(n - 1, y)
            &&& after_server_event(b, ev).next_id == b.next_id
            &&& after_server_event(b, ev).log == logged(b.log, line)
            &&& event_line(b, ev) == Some(line)
        }),
{
    lemma_up_to_served_to(b.rows, ev.peer@, ev.filename@, n);
}

/// How far the server has come is shown by the last open row of the server.
pub proof fn serving_is_shown_by_the_latest_row(
    b: BoardView,
    bytes: u64,
    total: Option<u64>,
    n: int,
)
    requires
        0 <= n <= b.rows.len(),
        forall|j: int| n <= j < b.rows.len() ==> !shows_serving(#[trigger] b.rows[j]),
    ensures
        n == 0 ==> after_server_progress(b, bytes, total) == b && up_to_served(b.rows) == 0,
        n > 0 && shows_serving(b.rows[n - 1]) ==> {
            &&& after_server_progress(b, bytes, total).rows == b.rows.update(
                n - 1,
                RowView { bytes, total, ..b.rows[n - 1] },
            )
            &&& after_server_progress(b, bytes, total).log == b.log
            &&& after_server_progress(b, bytes, total).next_id == b.next_id
            &&& up_to_served(b.rows) == n
        },
{
    lemma_up_to_served(b.rows, n);
}

/// What the window is told of the server goes to the board, and the line and
/// the number that come back are those of the row that changed.
pub proof fn news_of_the_server_goes_to_the_board(
    b: &mut Board,
    ev: &ServerTransferEvent,
    line: Option<String>,
    c: &mut Board,
    bytes: u64,
    total: Option<u64>,
    id: Option<u64>,
)
    requires
        call_ensures(Board::on_server_event, (b, ev), line),
        call_ensures(Board::on_server_progress, (c, bytes, total), id),
    ensures
        final(b)@ == after_server_event(old(b)@, *ev),
        match line {
            Some(t) => event_line(old(b)@, *ev) == Some(t@),
            None => event_line(old(b)@, *ev) is None,
        },
        final(c)@ == after_server_progress(old(c)@, bytes, total),
        id == (if up_to_served(old(c)@.rows) == 0 {
            None
        } else {
            Some(old(c)@.rows[up_to_served(old(c)@.rows) - 1].id)
        }),
{
}

/// All that waits to be shown is shown in turn: the lines, then the news of the
/// server, then how far it has come, then the news of the client.
pub proof fn waiting_news_is_shown_in_turn(
    b: &mut Board,
    lines: &Vec<String>,
    events: &Vec<ServerTransferEvent>,
    steps: &Vec<(u64, Option<u64>)>,
    msgs: &Vec<GuiMsg>,
    r: (Vec<String>, Vec<(u64, u64)>),
)
    requires
        call_ensures(Board::poll_messages, (b, lines, events, steps, msgs), r),
    ensures
        ({
            let first = after_lines(old(b)@, texts_of(lines@));
            let second = after_server_events(first, events@);
            let third = after_server_steps(second, steps@);
            &&& final(b)@ == after_messages(third, msgs@)
            &&& texts_of(r.0@) == event_lines(first, events@)
            &&& r.1@ == moved_by_server(second, steps@) + moved_by_client(third, msgs@)
        }),
{
}

/// One more line, or one more piece of news, comes after those before it, and
/// none leaves the board as it is. The rows that moved are listed in turn, with
/// the bytes that they moved to.
pub proof fn news_is_shown_one_after_the_other(
    b: BoardView,
    lines: Seq<Seq<char>>,
    line: Seq<char>,
    events: Seq<ServerTransferEvent>,
    ev: ServerTransferEvent,
    steps: Seq<(u64, Option<u64>)>,
    step: (u64, Option<u64>),
    msgs: Seq<GuiMsg>,
    msg: GuiMsg,
)
    ensures
        after_lines(b, Seq::empty()) == b,
        after_lines(b, lines.push(line)) == (BoardView {
            log: logged(after_lines(b, lines).log, line),
            ..after_lines(b, lines)
        }),
        after_server_events(b, Seq::empty()) == b,
        after_server_events(b, events.push(ev)) == after_server_event(
            after_server_events(b, events),
            ev,
        ),
        event_lines(b, Seq::empty()) == Seq::<Seq<char>>::empty(),
        event_lines(b, events.push(ev)) == (match event_line(after_server_events(b, events), ev) {
            Some(t) => event_lines(b, events).push(t),
            None => event_lines(b, events),
        }),
        after_server_steps(b, Seq::empty()) == b,
        after_server_steps(b, steps.push(step)) == after_server_progress(
            after_server_steps(b, steps),
            step.0,
            step.1,
        ),
        moved_by_server(b, Seq::empty()) == Seq::<(u64, u64)>::empty(),
        ({
            let before = after_server_steps(b, steps);
            let n = up_to_served(before.rows);
            moved_by_server(b, steps.push(step)) == (if n == 0 {
                moved_by_server(b, steps)
            } else {
                moved_by_server(b, steps).push((before.rows[n - 1].id, step.0))
            })
        }),
        after_messages(b, Seq::empty()) == b,
        after_messages(b, msgs.push(msg)) == after_message(after_messages(b, msgs), msg),
        moved_by_client(b, Seq::empty()) == Seq::<(u64, u64)>::empty(),
        ({
            let rows = after_messages(b, msgs).rows;
            moved_by_client(b, msgs.push(msg)) == (match msg {
                GuiMsg::Progress { id, bytes, .. } => if exists|i: int|
                    0 <= i < rows.len() && (#[trigger] rows[i]).id == id {
                    moved_by_client(b, msgs).push((id, bytes))
                } else {
                    moved_by_client(b, msgs)
                },
                GuiMsg::Done { .. } => moved_by_client(b, msgs),
            })
        }),
{
    assert(lines.push(line).drop_last() =~= lines);
    assert(events.push(ev).drop_last() =~= events);
    assert(steps.push(step).drop_last() =~= steps);
    assert(msgs.push(msg).drop_last() =~= msgs);
    let rows = after_messages(b, msgs).rows;
    if let GuiMsg::Progress { id, .. } = msg {
        lemma_row_found(rows, id);
        if exists|i: int| 0 <= i < rows.len() && (#[trigger] rows[i]).id == id {
            lemma_row_present(rows, id);
        } else if row_with_id(rows, id) < rows.len() {
            assert(rows[row_with_id(rows, id) as int].id == id);
        }
    }
}

/// A row that is removed is gone, and the others stay in order.
pub proof fn removed_rows_are_gone(b: &mut Board, i: usize)
    requires
        call_ensures(Board::remove, (b, i), ()),
        i < old(b)@.rows.len(),
    ensures
        final(b)@.rows == old(b)@.rows.take(i as int) + old(b)@.rows.skip(i + 1),
        final(b)@.log == old(b)@.log && final(b)@.next_id == old(b)@.next_id,
{
    assert(old(b)@.rows.remove(i as int) =~= old(b)@.rows.take(i as int) + old(b)@.rows.skip(
        i + 1,
    ));
}

/// The rows in flight are those that have not ended: how many there are, which
/// one is first, and the line above the list.
pub proof fn rows_in_flight_are_counted(
    b: &Board,
    n: usize,
    first: Option<usize>,
    s: String,
    rows: Seq<RowView>,
    row: RowView,
)
    requires
        call_ensures(Board::active, (b,), n),
        call_ensures(Board::first_active, (b,), first),
        call_ensures(Board::summary, (b,), s),
    ensures
        n == active_count(b@.rows),
        active_count(Seq::empty()) == 0,
        active_count(rows.push(row)) == active_count(rows) + (if row.done {
            0int
        } else {
            1
        }),
        match first {
            Some(i) => i < b@.rows.len() && !b@.rows[i as int].done && forall|j: int|
                0 <= j < i ==> (#[trigger] b@.rows[j]).done,
            None => forall|j: int| 0 <= j < b@.rows.len() ==> (#[trigger] b@.rows[j]).done,
        },
        s@ == decimal(n as nat) + " in flight  \u{b7}  "@ + decimal((b@.rows.len() - n) as nat)
            + " done  \u{b7}  "@ + decimal(b@.rows.len()) + " total"@,
{
    assert(rows.push(row).drop_last() =~= rows);
}

/// How a row stands: failed where it has an error, else done where it has
/// ended, else running, which has no word.
pub proof fn rows_show_how_they_stand(t: &TransferState, s: RowStatus, label: Option<String>)
    requires
        call_ensures(TransferState::status, (t,), s),
        call_ensures(TransferState::status_label, (t,), label),
    ensures
        s == RowStatus::Failed <==> t.error is Some,
        s == RowStatus::Done <==> t.error is None && t.done,
        s == RowStatus::Running <==> t.error is None && !t.done,
        match t.error {
            Some(e) => label matches Some(x) && x@ == "FAILED: "@ + e@,
            None => if t.done {
                label matches Some(x) && x@ == "DONE"@
            } else {
                label is None
            },
        },
{
}

/// What shows the progress of a row: the share of a known total, nothing of a
/// total of 0; without a total, nothing before a byte was moved, an estimate
/// while it runs, and the whole once it has ended.
pub proof fn progress_is_shown(t: &TransferState, k: ProgressKind)
    requires
        call_ensures(TransferState::progress_kind, (t,), k),
    ensures
        k == ProgressKind::Share <==> (t.total matches Some(n) && n > 0),
        k == ProgressKind::EmptyTotal <==> t.total == Some(0u64),
        k == ProgressKind::Nothing <==> t.total is None && t.bytes == 0,
        k == ProgressKind::Whole <==> t.total is None && t.bytes > 0 && t.done,
        k == ProgressKind::Estimate <==> t.total is None && t.bytes > 0 && !t.done,
{
}

/// The name that a row shows is what follows the last slash of its target.
pub proof fn rows_show_the_file(t: &TransferState, s: &str, before: Seq<char>, name: Seq<char>)
    requires
        call_ensures(TransferState::file_label, (t,), s),
        lacks(name, '/'),
    ensures
        t.target@ == before + seq!['/'] + name ==> s@ == name,
        t.target@ == name ==> s@ == name,
{
    lemma_after_last_slash(before + seq!['/'], name);
    lemma_after_last_slash(Seq::empty(), name);
    assert(Seq::<char>::empty() + name =~= name);
}

proof fn lemma_after_last_slash(before: Seq<char>, name: Seq<char>)
    requires
        lacks(name, '/'),
        before.len() == 0 || before.last() == '/',
    ensures
        after_last_slash(before + name) == name,
    decreases name.len(),
{
    let s = before + name;
    if name.len() == 0 {
        assert(s =~= before);
        assert(after_last_slash(s) =~= name);
    } else {
        let front = name.drop_last();
        assert forall|i: int| 0 <= i < front.len() implies #[trigger] front[i] != '/' by {
            assert(front[i] == name[i]);
        }
        lemma_after_last_slash(before, front);
        assert(s.drop_last() =~= before + front);
        assert(s.last() == name[name.len() - 1]);
        assert(front.push(name.last()) =~= name);
    }
}

/// The news that a request opens a transfer: a read is shown as a download of
/// the peer, a write as an upload, and nothing else is news.
pub proof fn requests_are_news(p: &Packet, peer: &str, r: Option<ServerTransferEvent>)
    requires
        call_ensures(opened_event, (p, peer), r),
    ensures
        match p@ {
            PacketView::Rrq { filename, .. } => r matches Some(ev) && ev.direction == Direction::Get
                && ev.peer@ == peer@ && ev.filename@ == filename && ev.bytes == 0 && ev.total
                is None && !ev.done && ev.error is None,
            PacketView::Wrq { filename, .. } => r matches Some(ev) && ev.direction == Direction::Put
                && ev.peer@ == peer@ && ev.filename@ == filename && ev.bytes == 0 && ev.total
                is None && !ev.done && ev.error is None,
            _ => r is None,
        },
{
}

/// The news that a transfer has ended names what was opened, with what was
/// moved, or with the error.
pub proof fn endings_are_news(
    opened: ServerTransferEvent,
    result: &Result<TransferStats, TftpError>,
    ev: ServerTransferEvent,
)
    requires
        call_ensures(closed_event, (opened, result), ev),
    ensures
        ev.done,
        ev.direction == opened.direction,
        ev.peer@ == opened.peer@,
        ev.filename@ == opened.filename@,
        match *result {
            Ok(stats) => ev.bytes == stats.bytes && ev.total == stats.total_bytes && ev.error
                is None,
            Err(e) => ev.bytes == 0 && ev.total is None && (ev.error matches Some(t) && t@
                == error_message(e@)),
        },
{
}

/// The words for the directions.
pub proof fn directions_have_their_words(d: Direction, s: &'static str)
    requires
        call_ensures(Direction::word, (d,), s),
    ensures
        d == Direction::Get ==> s@ == "GET"@,
        d == Direction::Put ==> s@ == "PUT"@,
{
}

/// The server of the window before it is started.
pub proof fn window_servers_start_stopped(f: ServerFields, g: ServerFields, t: Tab, a: LastAction)
    requires
        call_ensures(ServerFields::initial, (), f),
        call_ensures(ServerFields::default, (), g),
        call_ensures(Tab::default, (), t),
        call_ensures(LastAction::default, (), a),
    ensures
        f.root@ == "."@ && f.port == 69 && !f.allow_write && !f.running,
        g.root@.len() == 0 && g.port == 0 && !g.allow_write && !g.running,
        t == Tab::Client,
        a == LastAction::Get,
{
}

/// Starting and stopping: a stopped server starts with the directory that it is
/// given, a running one stays as it is; stopping keeps all but that it runs.
pub proof fn window_servers_start_and_stop(
    f: &mut ServerFields,
    root: &str,
    started: Option<String>,
    g: &mut ServerFields,
    stopped: Option<String>,
)
    requires
        call_ensures(ServerFields::start_server, (f, root), started),
        call_ensures(ServerFields::stop_server, (g,), stopped),
    ensures
        final(f).running && !final(g).running,
        final(f).port == old(f).port && final(f).allow_write == old(f).allow_write,
        final(g).port == old(g).port && final(g).allow_write == old(g).allow_write
            && final(g).root@ == old(g).root@,
        old(f).running ==> started is None && final(f).root@ == old(f).root@,
        !old(f).running ==> final(f).root@ == root@ && (started matches Some(t) && t@
            == "server starting on port "@ + decimal(old(f).port as nat) + " ..."@),
        old(g).running ==> (stopped matches Some(t) && t@ == "server stop requested"@),
        !old(g).running ==> stopped is None,
{
}

/// The texts that show the server.
pub proof fn window_servers_are_shown(
    f: &ServerFields,
    host: &str,
    label: String,
    idle: &'static str,
    at: String,
)
    requires
        call_ensures(ServerFields::label, (f,), label),
        call_ensures(ServerFields::idle_text, (f,), idle),
        call_ensures(ServerFields::endpoint, (f, host), at),
    ensures
        f.running ==> label@ == "\u{25cf} server:"@ + decimal(f.port as nat) && idle@
            == "\u{2713}  server running  \u{b7}  ready"@,
        !f.running ==> label@ == "\u{25cb} server: off"@ && idle@ == "idle"@,
        at@ == host@ + ":"@ + decimal(f.port as nat),
{
}

/// What the window starts transfers with.
pub proof fn window_transfers_are_set_up(
    blksize: u16,
    window: u16,
    ipv6: bool,
    c: Client,
    host: &str,
    file: &str,
    t: String,
    local: &str,
    ready: bool,
    d: Direction,
    dir: bool,
    joins: bool,
)
    requires
        call_ensures(window_client, (blksize, window, ipv6), c),
        call_ensures(window_target, (host, file), t),
        call_ensures(can_start, (file, local), ready),
        call_ensures(joins_remote_name, (d, dir, file), joins),
    ensures
        c.cfg.blksize == blksize && c.cfg.windowsize == window && c.cfg.timeout_secs == 5
            && c.cfg.retries == 4 && c.cfg.resume_from_block == 0 && c.prefer_v6 == ipv6,
        t@ == host@ + seq![':'] + file@,
        ready <==> file@.len() > 0 && local@.len() > 0,
        joins <==> d == Direction::Get && dir && file@.len() > 0,
{
    reveal_strlit(":");
    assert(":"@ =~= seq![':']);
}

/// The addresses of the machine: each address of an interface that is not a
/// loopback, once, those of version 4 first, each version by number.
pub proof fn local_addresses_are_listed_in_order(
    found: &Vec<(Ip, bool)>,
    r: Vec<Ip>,
    ip: Ip,
    i: int,
    j: int,
)
    requires
        call_ensures(collect_local_ips, (found,), r),
    ensures
        r@.contains(ip) <==> found@.contains((ip, false)),
        0 <= i < j < r@.len() ==> match (r@[i], r@[j]) {
            (Ip::V4(a), Ip::V4(b)) => a < b,
            (Ip::V4(_), Ip::V6(_)) => true,
            (Ip::V6(_), Ip::V4(_)) => false,
            (Ip::V6(a), Ip::V6(b)) => a < b,
        },
{
    assert(holds_the_local(found@, r@));
    if 0 <= i < j < r@.len() {
        assert(ip_before(r@[i], r@[j]));
    }
}

/// A size is shown in the largest unit that it reaches.
pub proof fn sizes_are_shown_in_their_unit(n: u64, i: usize, s: &'static str)
    requires
        call_ensures(size_unit, (n,), i),
        call_ensures(unit_name, (i,), s),
    ensures
        n < 1024 ==> s@ == "B"@,
        1024 <= n < 1_048_576 ==> s@ == "KB"@,
        1_048_576 <= n < 1_073_741_824 ==> s@ == "MB"@,
        1_073_741_824 <= n < 1_099_511_627_776 ==> s@ == "GB"@,
        1_099_511_627_776 <= n ==> s@ == "TB"@,
{
    reveal_with_fuel(unit_bytes, 6);
}

} // verus!
