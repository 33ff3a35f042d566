//! What the desktop window shows: the list of transfers, the log, the state of
//! the built-in server, and the texts made of them.

use crate::client::Client;
use crate::error::{error_message, TftpError};
use crate::packet::{Packet, PacketView};
use crate::session::{ClientConfig, TransferStats};
use crate::text::{
    chars_of, contains_text, decimal, decimal_text, ends_with, has_part, has_prefix, has_suffix,
    stands_at, starts_with, text_from,
};
use vstd::prelude::*;
use vstd::string::*;

verus! {

/// The pages of the window.
#[derive(Debug, Clone, Copy, PartialEq, Eq, Structural)]
pub enum Tab {
    Server,
    Client,
    Transfers,
    Settings,
}

impl Default for Tab {
    fn default() -> (t: Self)
        ensures
            t == Tab::Client,
    {
        Tab::Client
    }
}

/// Which way a transfer goes.
#[derive(Debug, Clone, Copy, PartialEq, Eq, Structural)]
pub enum Direction {
    Get,
    Put,
}

/// The button that was pressed last.
#[derive(Debug, Clone, Copy, PartialEq, Eq, Structural)]
pub enum LastAction {
    Get,
    Put,
}

impl Default for LastAction {
    fn default() -> (a: Self)
        ensures
            a == LastAction::Get,
    {
        LastAction::Get
    }
}

/// The word for a direction.
pub open spec fn direction_text(d: Direction) -> Seq<char> {
    match d {
        Direction::Get => "GET"@,
        Direction::Put => "PUT"@,
    }
}

impl Direction {
    /// The word for the direction.
    pub fn word(self) -> (s: &'static str)
        ensures
            s@ == direction_text(self),
    {
        match self {
            Direction::Get => "GET",
            Direction::Put => "PUT",
        }
    }
}

/// A row in the list of transfers.
#[derive(Debug, Clone, PartialEq, Eq)]
pub struct TransferState {
    pub id: u64,
    pub direction: Direction,
    pub target: String,
    pub bytes: u64,
    pub blocks: u64,
    pub total: Option<u64>,
    pub done: bool,
    pub error: Option<String>,
}

/// The content of a [`TransferState`].
pub struct RowView {
    pub id: u64,
    pub direction: Direction,
    pub target: Seq<char>,
    pub bytes: u64,
    pub blocks: u64,
    pub total: Option<u64>,
    pub done: bool,
    pub error: Option<Seq<char>>,
}

/// The content of an optional text.
pub open spec fn optional_text(t: Option<String>) -> Option<Seq<char>> {
    match t {
        Some(s) => Some(s@),
        None => None,
    }
}

impl View for TransferState {
    type V = RowView;

    open spec fn view(&self) -> RowView {
        RowView {
            id: self.id,
            direction: self.direction,
            target: self.target@,
            bytes: self.bytes,
            blocks: self.blocks,
            total: self.total,
            done: self.done,
            error: optional_text(self.error),
        }
    }
}

/// A row before anything was moved.
pub open spec fn new_row(id: u64, direction: Direction, target: Seq<char>) -> RowView {
    RowView {
        id,
        direction,
        target,
        bytes: 0,
        blocks: 0,
        total: None,
        done: false,
        error: None,
    }
}

fn fresh_row(id: u64, direction: Direction, target: String) -> (r: TransferState)
    ensures
        r@ == new_row(id, direction, target@),
{
    TransferState {
        id,
        direction,
        target,
        bytes: 0,
        blocks: 0,
        total: None,
        done: false,
        error: None,
    }
}

/// News about a transfer that the client of the window runs.
#[derive(Debug, Clone, PartialEq, Eq)]
pub enum GuiMsg {
    /// It has come that far.
    Progress { id: u64, bytes: u64, blocks: u64, total: Option<u64> },
    /// It has ended, with an error if there is one.
    Done { id: u64, bytes: u64, error: Option<String> },
}

/// News about a transfer that the server of the window runs: its beginning, or
/// its end where `done` says so.
#[derive(Debug, Clone, PartialEq, Eq)]
pub struct ServerTransferEvent {
    pub direction: Direction,
    pub peer: String,
    pub filename: String,
    pub bytes: u64,
    pub total: Option<u64>,
    pub done: bool,
    pub error: Option<String>,
}

fn copy_text(t: &Option<String>) -> (r: Option<String>)
    ensures
        optional_text(r) == optional_text(*t),
{
    match t {
        Some(s) => Some(s.clone()),
        None => None,
    }
}

/// The list of transfers and the log.
#[derive(Debug, PartialEq, Eq)]
pub struct Board {
    pub next_id: u64,
    pub rows: Vec<TransferState>,
    pub log: Vec<String>,
}

/// The content of a [`Board`].
pub struct BoardView {
    pub next_id: u64,
    pub rows: Seq<RowView>,
    pub log: Seq<Seq<char>>,
}

/// The content of rows.
pub open spec fn rows_of(v: Seq<TransferState>) -> Seq<RowView> {
    Seq::new(v.len(), |i: int| v[i]@)
}

/// The content of texts.
pub open spec fn texts_of(v: Seq<String>) -> Seq<Seq<char>> {
    Seq::new(v.len(), |i: int| v[i]@)
}

impl View for Board {
    type V = BoardView;

    open spec fn view(&self) -> BoardView {
        BoardView {
            next_id: self.next_id,
            rows: rows_of(self.rows@),
            log: texts_of(self.log@),
        }
    }
}

/// The number of lines that the log keeps.
pub const LOG_LINES: usize = 500;

/// Whether every row has a number of its own, all of them given out before,
/// and the log is not too long.
pub open spec fn orderly(b: BoardView) -> bool {
    &&& forall|i: int| 0 <= i < b.rows.len() ==> (#[trigger] b.rows[i]).id < b.next_id
    &&& forall|i: int, j: int|
        0 <= i < j < b.rows.len() ==> (#[trigger] b.rows[i]).id != (#[trigger] b.rows[j]).id
    &&& b.log.len() <= LOG_LINES
}

/// The log with one more line. The oldest line leaves a log that is full.
pub open spec fn logged(log: Seq<Seq<char>>, line: Seq<char>) -> Seq<Seq<char>> {
    if log.len() >= LOG_LINES {
        log.push(line).drop_first()
    } else {
        log.push(line)
    }
}

/// The place of the first row with the number `id`, or the length where there
/// is none.
pub open spec fn row_with_id(rows: Seq<RowView>, id: u64) -> nat
    decreases rows.len(),
{
    if rows.len() == 0 || rows[0].id == id {
        0
    } else {
        1 + row_with_id(rows.drop_first(), id)
    }
}

/// What the target of a row of the server is: its peer and its file.
pub open spec fn server_target(peer: Seq<char>, filename: Seq<char>) -> Seq<char> {
    "server://"@ + peer + "/"@ + filename
}

/// Whether a row is one of the server that has not ended.
pub open spec fn served(r: RowView) -> bool {
    has_prefix(r.target, "server://"@) && !r.done
}

/// Whether a row is one of the server that has not ended and fits the peer and
/// the file.
pub open spec fn served_to(r: RowView, peer: Seq<char>, filename: Seq<char>) -> bool {
    served(r) && has_part(r.target, peer) && has_suffix(r.target, filename)
}

/// The number of rows up to the last one that is served, itself included; 0
/// where none is.
pub open spec fn up_to_served(rows: Seq<RowView>) -> nat
    decreases rows.len(),
{
    if rows.len() == 0 || served(rows.last()) {
        rows.len()
    } else {
        up_to_served(rows.drop_last())
    }
}

/// The number of rows up to the last one that is served to the peer with the
/// file, itself included; 0 where none is.
pub open spec fn up_to_served_to(rows: Seq<RowView>, peer: Seq<char>, filename: Seq<char>) -> nat
    decreases rows.len(),
{
    if rows.len() == 0 || served_to(rows.last(), peer, filename) {
        rows.len()
    } else {
        up_to_served_to(rows.drop_last(), peer, filename)
    }
}

/// The larger of two numbers.
pub open spec fn larger(a: u64, b: u64) -> u64 {
    if a > b {
        a
    } else {
        b
    }
}

/// The row of a transfer of the server that has ended as the event says.
pub open spec fn closed_row(
    r: RowView,
    bytes: u64,
    total: Option<u64>,
    error: Option<Seq<char>>,
) -> RowView {
    RowView {
        done: true,
        error,
        bytes: larger(bytes, r.bytes),
        total: if total is Some {
            total
        } else {
            r.total
        },
        ..r
    }
}

/// The line that reports the beginning of a transfer of the server.
pub open spec fn opened_line(d: Direction, peer: Seq<char>, filename: Seq<char>) -> Seq<char> {
    "[server] "@ + direction_text(d) + " from "@ + peer + " file="@ + filename
}

/// The line that reports the end of a transfer of the server.
pub open spec fn closed_line(r: RowView) -> Seq<char> {
    match r.error {
        Some(e) => "[server] "@ + direction_text(r.direction) + " "@ + r.target + " FAILED: "@ + e
            + " ("@ + decimal(r.bytes as nat) + " bytes)"@,
        None => "[server] "@ + direction_text(r.direction) + " "@ + r.target + " DONE ("@
            + decimal(r.bytes as nat) + " bytes)"@,
    }
}

/// The line that news of the server leaves in the log, if it does.
pub open spec fn event_line(b: BoardView, ev: ServerTransferEvent) -> Option<Seq<char>> {
    let n = up_to_served_to(b.rows, ev.peer@, ev.filename@);
    if !ev.done {
        Some(opened_line(ev.direction, ev.peer@, ev.filename@))
    } else if n == 0 {
        None
    } else {
        Some(
            closed_line(
                closed_row(b.rows[n - 1], ev.bytes, ev.total, optional_text(ev.error)),
            ),
        )
    }
}

/// The board after news of the server. A beginning adds a row; an end closes
/// the last row that fits it, if there is one. Either leaves a line in the
/// log.
pub open spec fn after_server_event(b: BoardView, ev: ServerTransferEvent) -> BoardView {
    if !ev.done {
        BoardView {
            next_id: (b.next_id + 1) as u64,
            rows: b.rows.push(
                new_row(b.next_id, ev.direction, server_target(ev.peer@, ev.filename@)),
            ),
            log: logged(b.log, opened_line(ev.direction, ev.peer@, ev.filename@)),
        }
    } else {
        let n = up_to_served_to(b.rows, ev.peer@, ev.filename@);
        if n == 0 {
            b
        } else {
            let row = closed_row(b.rows[n - 1], ev.bytes, ev.total, optional_text(ev.error));
            BoardView {
                rows: b.rows.update(n - 1, row),
                log: logged(b.log, closed_line(row)),
                ..b
            }
        }
    }
}

/// The board after the server has come that far with its latest transfer.
pub open spec fn after_server_progress(b: BoardView, bytes: u64, total: Option<u64>) -> BoardView {
    let n = up_to_served(b.rows);
    if n == 0 {
        b
    } else {
        BoardView {
            rows: b.rows.update(n - 1, RowView { bytes, total, ..b.rows[n - 1] }),
            ..b
        }
    }
}

/// The row after news of its transfer.
pub open spec fn after_news(r: RowView, msg: GuiMsg) -> RowView {
    match msg {
        GuiMsg::Progress { bytes, blocks, total, .. } => RowView { bytes, blocks, total, ..r },
        GuiMsg::Done { bytes, error, .. } => RowView {
            done: true,
            error: optional_text(error),
            bytes: larger(bytes, r.bytes),
            ..r
        },
    }
}

/// The number of the transfer that news is about.
pub open spec fn news_id(msg: GuiMsg) -> u64 {
    match msg {
        GuiMsg::Progress { id, .. } => id,
        GuiMsg::Done { id, .. } => id,
    }
}

/// The board after news of a transfer of the client. News of a transfer that
/// is not in the list is passed over.
pub open spec fn after_message(b: BoardView, msg: GuiMsg) -> BoardView {
    let i = row_with_id(b.rows, news_id(msg)) as int;
    if i == b.rows.len() {
        b
    } else {
        BoardView { rows: b.rows.update(i, after_news(b.rows[i], msg)), ..b }
    }
}

/// The board after these lines were logged.
pub open spec fn after_lines(b: BoardView, lines: Seq<Seq<char>>) -> BoardView
    decreases lines.len(),
{
    if lines.len() == 0 {
        b
    } else {
        let before = after_lines(b, lines.drop_last());
        BoardView { log: logged(before.log, lines.last()), ..before }
    }
}

/// The board after all this news of the server.
pub open spec fn after_server_events(
    b: BoardView,
    events: Seq<ServerTransferEvent>,
) -> BoardView
    decreases events.len(),
{
    if events.len() == 0 {
        b
    } else {
        after_server_event(after_server_events(b, events.drop_last()), events.last())
    }
}

/// The lines that all this news of the server leaves in the log.
pub open spec fn event_lines(b: BoardView, events: Seq<ServerTransferEvent>) -> Seq<Seq<char>>
    decreases events.len(),
{
    if events.len() == 0 {
        Seq::empty()
    } else {
        let before = event_lines(b, events.drop_last());
        match event_line(after_server_events(b, events.drop_last()), events.last()) {
            Some(line) => before.push(line),
            None => before,
        }
    }
}

/// The board after the server has come so far, and so far, with its latest
/// transfer.
pub open spec fn after_server_steps(b: BoardView, steps: Seq<(u64, Option<u64>)>) -> BoardView
    decreases steps.len(),
{
    if steps.len() == 0 {
        b
    } else {
        after_server_progress(
            after_server_steps(b, steps.drop_last()),
            steps.last().0,
            steps.last().1,
        )
    }
}

/// The board after all this news of the client.
pub open spec fn after_messages(b: BoardView, msgs: Seq<GuiMsg>) -> BoardView
    decreases msgs.len(),
{
    if msgs.len() == 0 {
        b
    } else {
        after_message(after_messages(b, msgs.drop_last()), msgs.last())
    }
}

/// Which rows the steps of the server move, in turn, and to how many bytes.
pub open spec fn moved_by_server(b: BoardView, steps: Seq<(u64, Option<u64>)>) -> Seq<(u64, u64)>
    decreases steps.len(),
{
    if steps.len() == 0 {
        Seq::empty()
    } else {
        let before = after_server_steps(b, steps.drop_last());
        let n = up_to_served(before.rows);
        let moved = moved_by_server(b, steps.drop_last());
        if n == 0 {
            moved
        } else {
            moved.push((before.rows[n - 1].id, steps.last().0))
        }
    }
}

/// Which rows the news of the client moves, in turn, and to how many bytes.
pub open spec fn moved_by_client(b: BoardView, msgs: Seq<GuiMsg>) -> Seq<(u64, u64)>
    decreases msgs.len(),
{
    if msgs.len() == 0 {
        Seq::empty()
    } else {
        let before = after_messages(b, msgs.drop_last());
        let moved = moved_by_client(b, msgs.drop_last());
        match msgs.last() {
            GuiMsg::Progress { id, bytes, .. } => if row_with_id(before.rows, id)
                < before.rows.len() {
                moved.push((id, bytes))
            } else {
                moved
            },
            GuiMsg::Done { .. } => moved,
        }
    }
}

pub(crate) proof fn lemma_row_with_id(rows: Seq<RowView>, id: u64, i: int)
    requires
        0 <= i <= rows.len(),
        forall|j: int| 0 <= j < i ==> (#[trigger] rows[j]).id != id,
    ensures
        i < rows.len() && rows[i].id == id ==> row_with_id(rows, id) == i,
        i == rows.len() ==> row_with_id(rows, id) == i,
    decreases rows.len(),
{
    if rows.len() > 0 && i > 0 {
        let rest = rows.drop_first();
        assert(rows[0].id != id);
        assert forall|j: int| 0 <= j < i - 1 implies (#[trigger] rest[j]).id != id by {
            assert(rest[j] == rows[j + 1]);
        }
        lemma_row_with_id(rest, id, i - 1);
        if i < rows.len() {
            assert(rest[i - 1] == rows[i]);
        }
    }
}

pub(crate) proof fn lemma_up_to_served(rows: Seq<RowView>, n: int)
    requires
        0 <= n <= rows.len(),
        forall|j: int| n <= j < rows.len() ==> !served(#[trigger] rows[j]),
    ensures
        n > 0 && served(rows[n - 1]) ==> up_to_served(rows) == n,
        n == 0 ==> up_to_served(rows) == 0,
    decreases rows.len(),
{
    if n < rows.len() {
        let front = rows.drop_last();
        assert(!served(rows[rows.len() - 1]));
        assert forall|j: int| n <= j < front.len() implies !served(#[trigger] front[j]) by {
            assert(front[j] == rows[j]);
        }
        lemma_up_to_served(front, n);
        if n > 0 {
            assert(front[n - 1] == rows[n - 1]);
        }
    }
}

pub(crate) proof fn lemma_up_to_served_to(rows: Seq<RowView>, peer: Seq<char>, filename: Seq<char>, n: int)
    requires
        0 <= n <= rows.len(),
        forall|j: int| n <= j < rows.len() ==> !served_to(#[trigger] rows[j], peer, filename),
    ensures
        n > 0 && served_to(rows[n - 1], peer, filename) ==> up_to_served_to(rows, peer, filename)
            == n,
        n == 0 ==> up_to_served_to(rows, peer, filename) == 0,
    decreases rows.len(),
{
    if n < rows.len() {
        let front = rows.drop_last();
        assert(!served_to(rows[rows.len() - 1], peer, filename));
        assert forall|j: int| n <= j < front.len() implies !served_to(
            #[trigger] front[j],
            peer,
            filename,
        ) by {
            assert(front[j] == rows[j]);
        }
        lemma_up_to_served_to(front, peer, filename, n);
        if n > 0 {
            assert(front[n - 1] == rows[n - 1]);
        }
    }
}

impl Board {
    /// An empty list and an empty log. The first row will have number 1.
    pub fn new() -> (b: Self)
        ensures
            b@ == (BoardView { next_id: 1, rows: Seq::empty(), log: Seq::empty() }),
            orderly(b@),
    {
        let b = Board { next_id: 1, rows: Vec::new(), log: Vec::new() };
        assert(b@.rows =~= Seq::empty());
        assert(b@.log =~= Seq::empty());
        b
    }

    /// Adds a line to the log.
    pub fn push_log(&mut self, line: &str)
        requires
            orderly(old(self)@),
        ensures
            final(self)@ == (BoardView { log: logged(old(self)@.log, line@), ..old(self)@ }),
            orderly(final(self)@),
    {
        let ghost before = self@;
        self.log.push(line.to_owned());
        assert(texts_of(self.log@) =~= before.log.push(line@));
        if self.log.len() > LOG_LINES {
            self.log.remove(0);
            assert(texts_of(self.log@) =~= before.log.push(line@).drop_first());
        }
        assert(self@.rows == before.rows);
    }

    /// Adds a row for a transfer that the client of the window starts, and
    /// gives its number.
    pub fn start_transfer(&mut self, direction: Direction, host: &str, port: u16, file: &str) -> (id:
        u64)
        requires
            orderly(old(self)@),
            old(self).next_id < u64::MAX,
        ensures
            id == old(self).next_id,
            final(self)@ == (BoardView {
                next_id: (old(self).next_id + 1) as u64,
                rows: old(self)@.rows.push(
                    new_row(
                        id,
                        direction,
                        host@ + ":"@ + decimal(port as nat) + "/"@ + file@,
                    ),
                ),
                ..old(self)@
            }),
            orderly(final(self)@),
    {
        let ghost before = self@;
        let id: u64 = self.next_id;
        self.next_id = id + 1;
        let target = host.to_owned().concat(":").concat(
            decimal_text(port as u64).as_str(),
        ).concat("/").concat(file);
        let row = fresh_row(id, direction, target);
        self.rows.push(row);
        assert(rows_of(self.rows@) =~= before.rows.push(row@));
        id
    }

    /// Takes news of a transfer of the client; tells whether its row is in
    /// the list.
    pub fn on_message(&mut self, msg: &GuiMsg) -> (found: bool)
        requires
            orderly(old(self)@),
        ensures
            final(self)@ == after_message(old(self)@, *msg),
            found == (row_with_id(old(self)@.rows, news_id(*msg)) < old(self)@.rows.len()),
            orderly(final(self)@),
    {
        let ghost before = self@;
        let id: u64 = match msg {
            GuiMsg::Progress { id, .. } => *id,
            GuiMsg::Done { id, .. } => *id,
        };
        let mut i: usize = 0;
        while i < self.rows.len() && self.rows[i].id != id
            invariant
                i <= self.rows.len(),
                self@ == before,
                forall|j: int| 0 <= j < i ==> (#[trigger] before.rows[j]).id != id,
            decreases self.rows.len() - i,
        {
            assert(before.rows[i as int].id == self.rows@[i as int].id);
            i = i + 1;
        }
        proof {
            lemma_row_with_id(before.rows, id, i as int);
            if i < before.rows.len() {
                assert(before.rows[i as int].id == id);
            }
        }
        if i == self.rows.len() {
            return false;
        }
        match msg {
            GuiMsg::Progress { bytes, blocks, total, .. } => {
                self.rows[i].bytes = *bytes;
                self.rows[i].blocks = *blocks;
                self.rows[i].total = *total;
            },
            GuiMsg::Done { bytes, error, .. } => {
                self.rows[i].done = true;
                self.rows[i].error = copy_text(error);
                if *bytes > self.rows[i].bytes {
                    self.rows[i].bytes = *bytes;
                }
            },
        }
        assert(self@.rows =~= after_message(before, *msg).rows);
        true
    }

    /// Takes news of a transfer of the server; gives the line that it left in
    /// the log.
    pub fn on_server_event(&mut self, ev: &ServerTransferEvent) -> (line: Option<String>)
        requires
            orderly(old(self)@),
            ev.done || old(self).next_id < u64::MAX,
        ensures
            final(self)@ == after_server_event(old(self)@, *ev),
            optional_text(line) == event_line(old(self)@, *ev),
            orderly(final(self)@),
    {
        let ghost before = self@;
        if !ev.done {
            let line = "[server] ".to_owned().concat(ev.direction.word()).concat(" from ").concat(
                ev.peer.as_str(),
            ).concat(" file=").concat(ev.filename.as_str());
            let target = "server://".to_owned().concat(ev.peer.as_str()).concat("/").concat(
                ev.filename.as_str(),
            );
            let row = fresh_row(self.next_id, ev.direction, target);
            self.next_id = self.next_id + 1;
            self.rows.push(row);
            assert(rows_of(self.rows@) =~= before.rows.push(row@));
            self.push_log(line.as_str());
            return Some(line);
        }
        let mut n: usize = self.rows.len();
        while n > 0 && !self.is_served_to(n - 1, ev.peer.as_str(), ev.filename.as_str())
            invariant
                n <= self.rows.len(),
                self@ == before,
                forall|j: int|
                    n <= j < before.rows.len() ==> !served_to(
                        #[trigger] before.rows[j],
                        ev.peer@,
                        ev.filename@,
                    ),
            decreases n,
        {
            n = n - 1;
        }
        proof {
            lemma_up_to_served_to(before.rows, ev.peer@, ev.filename@, n as int);
        }
        if n == 0 {
            return None;
        }
        let i: usize = n - 1;
        self.rows[i].done = true;
        if ev.bytes > self.rows[i].bytes {
            self.rows[i].bytes = ev.bytes;
        }
        if ev.total.is_some() {
            self.rows[i].total = ev.total;
        }
        self.rows[i].error = copy_text(&ev.error);
        let ghost row = closed_row(
            before.rows[i as int],
            ev.bytes,
            ev.total,
            optional_text(ev.error),
        );
        assert(self@.rows =~= before.rows.update(i as int, row));
        assert(self@.rows[i as int] == row);
        let line = self.rows[i].closing_line();
        self.push_log(line.as_str());
        Some(line)
    }

    /// Takes all that was waiting to be shown: lines for the log, then news of
    /// the server, then how far it has come, then news of the client. Gives the
    /// lines that the news of the server left in the log, and the rows that
    /// moved, in turn, with the bytes that they moved to.
    pub fn poll_messages(
        &mut self,
        lines: &Vec<String>,
        events: &Vec<ServerTransferEvent>,
        steps: &Vec<(u64, Option<u64>)>,
        msgs: &Vec<GuiMsg>,
    ) -> (r: (Vec<String>, Vec<(u64, u64)>))
        requires
            orderly(old(self)@),
            old(self).next_id + events@.len() <= u64::MAX,
        ensures
            ({
                let listed = after_lines(old(self)@, texts_of(lines@));
                let opened = after_server_events(listed, events@);
                let stepped = after_server_steps(opened, steps@);
                &&& final(self)@ == after_messages(stepped, msgs@)
                &&& texts_of(r.0@) == event_lines(listed, events@)
                &&& r.1@ == moved_by_server(opened, steps@) + moved_by_client(stepped, msgs@)
            }),
            orderly(final(self)@),
    {
        let ghost start = self@;
        let mut i: usize = 0;
        assert(texts_of(lines@).take(0) =~= Seq::empty());
        while i < lines.len()
            invariant
                i <= lines.len(),
                orderly(self@),
                self@ == after_lines(start, texts_of(lines@).take(i as int)),
                self@.next_id == start.next_id,
            decreases lines.len() - i,
        {
            self.push_log(lines[i].as_str());
            assert(texts_of(lines@).take(i + 1).drop_last() =~= texts_of(lines@).take(i as int));
            i = i + 1;
        }
        assert(texts_of(lines@).take(i as int) =~= texts_of(lines@));
        let ghost listed = self@;
        let mut told: Vec<String> = Vec::new();
        i = 0;
        assert(events@.take(0) =~= Seq::empty());
        assert(texts_of(told@) =~= Seq::empty());
        while i < events.len()
            invariant
                i <= events.len(),
                orderly(self@),
                texts_of(told@) == event_lines(listed, events@.take(i as int)),
                self@ == after_server_events(listed, events@.take(i as int)),
                self@.next_id <= start.next_id + i,
                start.next_id + events@.len() <= u64::MAX,
            decreases events.len() - i,
        {
            let line = self.on_server_event(&events[i]);
            assert(events@.take(i + 1).drop_last() =~= events@.take(i as int));
            let ghost before = texts_of(told@);
            if let Some(text) = line {
                told.push(text);
                assert(texts_of(told@) =~= before.push(text@));
            }
            i = i + 1;
        }
        assert(events@.take(i as int) =~= events@);
        let ghost opened = self@;
        let mut moved: Vec<(u64, u64)> = Vec::new();
        i = 0;
        assert(steps@.take(0) =~= Seq::empty());
        while i < steps.len()
            invariant
                i <= steps.len(),
                orderly(self@),
                self@ == after_server_steps(opened, steps@.take(i as int)),
                moved@ == moved_by_server(opened, steps@.take(i as int)),
            decreases steps.len() - i,
        {
            let (bytes, total) = steps[i];
            assert(steps@.take(i + 1).drop_last() =~= steps@.take(i as int));
            if let Some(id) = self.on_server_progress(bytes, total) {
                moved.push((id, bytes));
            }
            i = i + 1;
        }
        assert(steps@.take(i as int) =~= steps@);
        let ghost stepped = self@;
        let ghost by_server = moved@;
        i = 0;
        assert(msgs@.take(0) =~= Seq::empty());
        assert(by_server + Seq::<(u64, u64)>::empty() =~= by_server);
        while i < msgs.len()
            invariant
                i <= msgs.len(),
                orderly(self@),
                self@ == after_messages(stepped, msgs@.take(i as int)),
                moved@ == by_server + moved_by_client(stepped, msgs@.take(i as int)),
            decreases msgs.len() - i,
        {
            let found = self.on_message(&msgs[i]);
            assert(msgs@.take(i + 1).drop_last() =~= msgs@.take(i as int));
            if let GuiMsg::Progress { id, bytes, .. } = &msgs[i] {
                if found {
                    moved.push((*id, *bytes));
                }
            }
            assert(moved@ =~= by_server + moved_by_client(stepped, msgs@.take(i + 1)));
            i = i + 1;
        }
        assert(msgs@.take(i as int) =~= msgs@);
        (told, moved)
    }

    /// Whether the row at `i` is one of the server that has not ended and fits
    /// the peer and the file.
    fn is_served_to(&self, i: usize, peer: &str, filename: &str) -> (r: bool)
        requires
            i < self.rows.len(),
        ensures
            r == served_to(self@.rows[i as int], peer@, filename@),
    {
        let row = &self.rows[i];
        starts_with(row.target.as_str(), "server://") && contains_text(row.target.as_str(), peer)
            && ends_with(row.target.as_str(), filename) && !row.done
    }

    /// Takes note that the server has come that far with its latest transfer;
    /// gives the number of the row that shows it, if there is one.
    pub fn on_server_progress(&mut self, bytes: u64, total: Option<u64>) -> (id: Option<u64>)
        requires
            orderly(old(self)@),
        ensures
            final(self)@ == after_server_progress(old(self)@, bytes, total),
            id == (if up_to_served(old(self)@.rows) == 0 {
                None
            } else {
                Some(old(self)@.rows[up_to_served(old(self)@.rows) - 1].id)
            }),
            orderly(final(self)@),
    {
        let ghost before = self@;
        let mut n: usize = self.rows.len();
        while n > 0 && !(starts_with(self.rows[n - 1].target.as_str(), "server://")
            && !self.rows[n - 1].done)
            invariant
                n <= self.rows.len(),
                self@ == before,
                forall|j: int| n <= j < before.rows.len() ==> !served(#[trigger] before.rows[j]),
            decreases n,
        {
            assert(before.rows[n - 1] == self.rows@[n - 1]@);
            n = n - 1;
        }
        proof {
            lemma_up_to_served(before.rows, n as int);
            if n > 0 {
                assert(before.rows[n - 1] == self.rows@[n - 1]@);
            }
        }
        if n == 0 {
            return None;
        }
        let i: usize = n - 1;
        self.rows[i].bytes = bytes;
        self.rows[i].total = total;
        assert(self@.rows =~= after_server_progress(before, bytes, total).rows);
        Some(self.rows[i].id)
    }

    /// Takes the row at place `i` out of the list.
    pub fn remove(&mut self, i: usize)
        requires
            orderly(old(self)@),
            i < old(self)@.rows.len(),
        ensures
            final(self)@ == (BoardView { rows: old(self)@.rows.remove(i as int), ..old(self)@ }),
            orderly(final(self)@),
    {
        let ghost before = self@;
        self.rows.remove(i);
        assert(self@.rows =~= before.rows.remove(i as int));
        assert forall|a: int, b: int| 0 <= a < b < self@.rows.len() implies (
        #[trigger] self@.rows[a]).id != (#[trigger] self@.rows[b]).id by {
            let x = if a < i {
                a
            } else {
                a + 1
            };
            let y = if b < i {
                b
            } else {
                b + 1
            };
            assert(self@.rows[a] == before.rows[x] && self@.rows[b] == before.rows[y]);
        }
    }

    /// The place of the first row that has not ended, if there is one.
    pub fn first_active(&self) -> (r: Option<usize>)
        ensures
            match r {
                Some(i) => i < self@.rows.len() && !self@.rows[i as int].done && forall|j: int|
                    0 <= j < i ==> (#[trigger] self@.rows[j]).done,
                None => forall|j: int|
                    0 <= j < self@.rows.len() ==> (#[trigger] self@.rows[j]).done,
            },
    {
        let mut i: usize = 0;
        while i < self.rows.len()
            invariant
                i <= self.rows.len(),
                forall|j: int| 0 <= j < i ==> (#[trigger] self@.rows[j]).done,
            decreases self.rows.len() - i,
        {
            if !self.rows[i].done {
                return Some(i);
            }
            i = i + 1;
        }
        None
    }

    /// The number of rows that have not ended.
    pub fn active(&self) -> (n: usize)
        ensures
            n == active_count(self@.rows),
            n <= self@.rows.len(),
    {
        let mut n: usize = 0;
        let mut i: usize = 0;
        assert(self@.rows.take(0) =~= Seq::empty());
        while i < self.rows.len()
            invariant
                n <= i <= self.rows.len(),
                n == active_count(self@.rows.take(i as int)),
            decreases self.rows.len() - i,
        {
            assert(self@.rows.take(i + 1).drop_last() =~= self@.rows.take(i as int));
            if !self.rows[i].done {
                n = n + 1;
            }
            i = i + 1;
        }
        assert(self@.rows.take(i as int) =~= self@.rows);
        n
    }

    /// The line above the list: how many rows are in flight, done, and there.
    pub fn summary(&self) -> (s: String)
        ensures
            s@ == summary_text(active_count(self@.rows), self@.rows.len()),
    {
        let total: usize = self.rows.len();
        let active: usize = self.active();
        decimal_text(active as u64).concat(" in flight  \u{b7}  ").concat(
            decimal_text((total - active) as u64).as_str(),
        ).concat(" done  \u{b7}  ").concat(decimal_text(total as u64).as_str()).concat(" total")
    }
}

/// The number of rows that have not ended.
pub open spec fn active_count(rows: Seq<RowView>) -> nat
    decreases rows.len(),
{
    if rows.len() == 0 {
        0
    } else if rows.last().done {
        active_count(rows.drop_last())
    } else {
        active_count(rows.drop_last()) + 1
    }
}

/// The line above the list of transfers.
pub open spec fn summary_text(active: nat, total: nat) -> Seq<char> {
    decimal(active) + " in flight  \u{b7}  "@ + decimal((total - active) as nat)
        + " done  \u{b7}  "@ + decimal(total) + " total"@
}

/// What follows the last slash of a text; all of it where there is no slash.
pub open spec fn after_last_slash(s: Seq<char>) -> Seq<char>
    decreases s.len(),
{
    if s.len() == 0 || s.last() == '/' {
        Seq::empty()
    } else {
        after_last_slash(s.drop_last()).push(s.last())
    }
}

/// How a row stands.
#[derive(Debug, Clone, Copy, PartialEq, Eq, Structural)]
pub enum RowStatus {
    Failed,
    Done,
    Running,
}

/// What the progress of a row is shown by.
#[derive(Debug, Clone, Copy, PartialEq, Eq, Structural)]
pub enum ProgressKind {
    /// The share of the total.
    Share,
    /// Nothing, as the total is 0.
    EmptyTotal,
    /// The bytes so far, of a number that is not known.
    Estimate,
    /// All bytes, as the transfer has ended.
    Whole,
    /// Nothing, as nothing was moved.
    Nothing,
}

impl TransferState {
    /// How the row stands. One with an error has failed, whether or not it
    /// has ended.
    pub fn status(&self) -> (s: RowStatus)
        ensures
            s == (if self@.error is Some {
                RowStatus::Failed
            } else if self.done {
                RowStatus::Done
            } else {
                RowStatus::Running
            }),
    {
        if self.error.is_some() {
            RowStatus::Failed
        } else if self.done {
            RowStatus::Done
        } else {
            RowStatus::Running
        }
    }

    /// The word for how the row stands, unless it is running.
    pub fn status_label(&self) -> (r: Option<String>)
        ensures
            match r {
                Some(t) => t@ == (match self@.error {
                    Some(e) => "FAILED: "@ + e,
                    None => "DONE"@,
                }) && (self@.error is Some || self.done),
                None => self@.error is None && !self.done,
            },
    {
        match &self.error {
            Some(e) => Some("FAILED: ".to_owned().concat(e.as_str())),
            None => if self.done {
                Some("DONE".to_owned())
            } else {
                None
            },
        }
    }

    /// What the progress of the row is shown by.
    pub fn progress_kind(&self) -> (k: ProgressKind)
        ensures
            k == (match self.total {
                Some(total) => if total > 0 {
                    ProgressKind::Share
                } else {
                    ProgressKind::EmptyTotal
                },
                None => if self.bytes == 0 {
                    ProgressKind::Nothing
                } else if self.done {
                    ProgressKind::Whole
                } else {
                    ProgressKind::Estimate
                },
            }),
    {
        match self.total {
            Some(total) => if total > 0 {
                ProgressKind::Share
            } else {
                ProgressKind::EmptyTotal
            },
            None => if self.bytes == 0 {
                ProgressKind::Nothing
            } else if self.done {
                ProgressKind::Whole
            } else {
                ProgressKind::Estimate
            },
        }
    }

    /// The name of the file: what follows the last slash of the target.
    pub fn file_label(&self) -> (s: &str)
        ensures
            s@ == after_last_slash(self.target@),
    {
        let v = chars_of(self.target.as_str());
        let ghost t = self.target@;
        let mut i: usize = v.len();
        assert(t.take(i as int) =~= t);
        assert(after_last_slash(t) =~= after_last_slash(t) + t.skip(i as int));
        while i > 0 && v[i - 1] != '/'
            invariant
                i <= v.len(),
                v@ == t,
                t == self.target@,
                after_last_slash(t) == after_last_slash(t.take(i as int)) + t.skip(i as int),
            decreases i,
        {
            assert(t.take(i as int).drop_last() =~= t.take(i - 1));
            assert(after_last_slash(t.take(i - 1)).push(t[i - 1]) + t.skip(i as int)
                =~= after_last_slash(t.take(i - 1)) + t.skip(i - 1));
            i = i - 1;
        }
        assert(after_last_slash(t.take(i as int)) =~= Seq::empty());
        assert(Seq::<char>::empty() + t.skip(i as int) =~= t.skip(i as int));
        text_from(self.target.as_str(), i)
    }

    /// The line that reports the end of a transfer of the server.
    fn closing_line(&self) -> (s: String)
        ensures
            s@ == closed_line(self@),
    {
        let head = "[server] ".to_owned().concat(self.direction.word()).concat(" ").concat(
            self.target.as_str(),
        );
        match &self.error {
            Some(e) => head.concat(" FAILED: ").concat(e.as_str()).concat(" (").concat(
                decimal_text(self.bytes).as_str(),
            ).concat(" bytes)"),
            None => head.concat(" DONE (").concat(decimal_text(self.bytes).as_str()).concat(
                " bytes)",
            ),
        }
    }
}

/// The news that a request opens a transfer of the server, if it does: a read
/// request sends a file to the peer, a write request takes one from it.
pub fn opened_event(p: &Packet, peer: &str) -> (r: Option<ServerTransferEvent>)
    ensures
        match (p@, r) {
            (PacketView::Rrq { filename, .. }, Some(ev)) => ev.direction == Direction::Get
                && is_opening(ev, peer@, filename),
            (PacketView::Wrq { filename, .. }, Some(ev)) => ev.direction == Direction::Put
                && is_opening(ev, peer@, filename),
            (PacketView::Rrq { .. }, None) => false,
            (PacketView::Wrq { .. }, None) => false,
            (_, r) => r is None,
        },
{
    let (direction, filename) = match p {
        Packet::Rrq { filename, .. } => (Direction::Get, filename),
        Packet::Wrq { filename, .. } => (Direction::Put, filename),
        _ => {
            return None;
        },
    };
    Some(
        ServerTransferEvent {
            direction,
            peer: peer.to_owned(),
            filename: filename.clone(),
            bytes: 0,
            total: None,
            done: false,
            error: None,
        },
    )
}

/// Whether news opens a transfer with the peer of the file.
pub open spec fn is_opening(
    ev: ServerTransferEvent,
    peer: Seq<char>,
    filename: Seq<char>,
) -> bool {
    &&& ev.peer@ == peer
    &&& ev.filename@ == filename
    &&& ev.bytes == 0
    &&& ev.total is None
    &&& !ev.done
    &&& ev.error is None
}

/// The news that the transfer which `opened` opened has ended with `result`.
pub fn closed_event(opened: ServerTransferEvent, result: &Result<TransferStats, TftpError>) -> (ev:
    ServerTransferEvent)
    ensures
        ev.direction == opened.direction,
        ev.peer@ == opened.peer@,
        ev.filename@ == opened.filename@,
        ev.done,
        match *result {
            Ok(stats) => ev.bytes == stats.bytes && ev.total == stats.total_bytes && ev.error
                is None,
            Err(e) => ev.bytes == 0 && ev.total is None && optional_text(ev.error) == Some(
                error_message(e@),
            ),
        },
{
    let (bytes, total, error) = match result {
        Ok(stats) => (stats.bytes, stats.total_bytes, None),
        Err(e) => (0, None, Some(e.message())),
    };
    ServerTransferEvent {
        direction: opened.direction,
        peer: opened.peer,
        filename: opened.filename,
        bytes,
        total,
        done: true,
        error,
    }
}

/// The target of a row of the server shows that it is one, and fits its peer
/// and its file.
proof fn lemma_server_target(peer: Seq<char>, filename: Seq<char>)
    ensures
        has_prefix(server_target(peer, filename), "server://"@),
        has_part(server_target(peer, filename), peer),
        has_suffix(server_target(peer, filename), filename),
{
    let t = server_target(peer, filename);
    let head = "server://"@;
    assert(t.subrange(0, head.len() as int) =~= head);
    assert(t.subrange(head.len() as int, (head.len() + peer.len()) as int) =~= peer);
    assert(stands_at(t, peer, head.len() as int));
    assert(t.subrange(t.len() - filename.len(), t.len() as int) =~= filename);
}

/// The end of a transfer of the server closes the row that its beginning
/// opened, when nothing came in between, and leaves the other rows as they
/// were.
pub proof fn closing_closes_what_was_opened(
    b: BoardView,
    opened: ServerTransferEvent,
    closed: ServerTransferEvent,
)
    requires
        b.next_id < u64::MAX,
        !opened.done,
        closed.done,
        closed.peer@ == opened.peer@,
        closed.filename@ == opened.filename@,
    ensures
        after_server_event(after_server_event(b, opened), closed).rows == b.rows.push(
            closed_row(
                new_row(
                    b.next_id,
                    opened.direction,
                    server_target(opened.peer@, opened.filename@),
                ),
                closed.bytes,
                closed.total,
                optional_text(closed.error),
            ),
        ),
{
    let row = new_row(
        b.next_id,
        opened.direction,
        server_target(opened.peer@, opened.filename@),
    );
    lemma_server_target(opened.peer@, opened.filename@);
    let rows = b.rows.push(row);
    assert(served_to(rows.last(), closed.peer@, closed.filename@));
    let out = closed_row(row, closed.bytes, closed.total, optional_text(closed.error));
    assert(rows.update(rows.len() - 1, out) =~= b.rows.push(out));
}

/// News of a transfer changes its own row and no other.
pub proof fn news_changes_one_row(b: BoardView, msg: GuiMsg, i: int)
    requires
        orderly(b),
        0 <= i < b.rows.len(),
    ensures
        after_message(b, msg).rows.len() == b.rows.len(),
        b.rows[i].id == news_id(msg) ==> after_message(b, msg).rows[i] == after_news(
            b.rows[i],
            msg,
        ),
        b.rows[i].id != news_id(msg) ==> after_message(b, msg).rows[i] == b.rows[i],
{
    let id = news_id(msg);
    if b.rows[i].id == id {
        assert forall|j: int| 0 <= j < i implies (#[trigger] b.rows[j]).id != id by {
            assert(b.rows[i].id == id);
        }
        lemma_row_with_id(b.rows, id, i);
    } else {
        lemma_row_found(b.rows, id);
    }
}

pub(crate) proof fn lemma_row_found(rows: Seq<RowView>, id: u64)
    ensures
        row_with_id(rows, id) <= rows.len(),
        row_with_id(rows, id) < rows.len() ==> rows[row_with_id(rows, id) as int].id == id,
    decreases rows.len(),
{
    if rows.len() > 0 && rows[0].id != id {
        lemma_row_found(rows.drop_first(), id);
    }
}

/// The server of the window: the directory that it serves, its port, whether
/// clients may write, and whether it is running.
#[derive(Debug, PartialEq, Eq)]
pub struct ServerFields {
    pub root: String,
    pub port: u16,
    pub allow_write: bool,
    pub running: bool,
}

impl Default for ServerFields {
    fn default() -> (f: Self)
        ensures
            f.root@ == Seq::<char>::empty(),
            f.port == 0,
            !f.allow_write,
            !f.running,
    {
        Self { root: String::new(), port: 0, allow_write: false, running: false }
    }
}

impl ServerFields {
    /// The server before it is first started: the current directory on the
    /// usual port.
    pub fn initial() -> (f: Self)
        ensures
            f.root@ == "."@,
            f.port == 69,
            !f.allow_write,
            !f.running,
    {
        Self { root: ".".to_owned(), port: 69, allow_write: false, running: false }
    }

    /// Starts to serve the directory `root`, unless the server is running.
    /// Gives the line that reports it.
    pub fn start_server(&mut self, root: &str) -> (line: Option<String>)
        ensures
            final(self).running,
            final(self).port == old(self).port,
            final(self).allow_write == old(self).allow_write,
            match line {
                Some(t) => !old(self).running && final(self).root@ == root@ && t@
                    == "server starting on port "@ + decimal(old(self).port as nat) + " ..."@,
                None => old(self).running && final(self).root@ == old(self).root@,
            },
    {
        if self.running {
            return None;
        }
        self.root = root.to_owned();
        self.running = true;
        Some(
            "server starting on port ".to_owned().concat(
                decimal_text(self.port as u64).as_str(),
            ).concat(" ..."),
        )
    }

    /// Stops the server. Gives the line that reports it, if it was running.
    pub fn stop_server(&mut self) -> (line: Option<String>)
        ensures
            !final(self).running,
            final(self).root@ == old(self).root@,
            final(self).port == old(self).port,
            final(self).allow_write == old(self).allow_write,
            match line {
                Some(t) => old(self).running && t@ == "server stop requested"@,
                None => !old(self).running,
            },
    {
        if !self.running {
            return None;
        }
        self.running = false;
        Some("server stop requested".to_owned())
    }

    /// The label that shows whether the server is running.
    pub fn label(&self) -> (s: String)
        ensures
            s@ == (if self.running {
                "\u{25cf} server:"@ + decimal(self.port as nat)
            } else {
                "\u{25cb} server: off"@
            }),
    {
        if self.running {
            "\u{25cf} server:".to_owned().concat(decimal_text(self.port as u64).as_str())
        } else {
            "\u{25cb} server: off".to_owned()
        }
    }

    /// The line that shows what the server does while no transfer is under
    /// way.
    pub fn idle_text(&self) -> (s: &'static str)
        ensures
            s@ == (if self.running {
                "\u{2713}  server running  \u{b7}  ready"@
            } else {
                "idle"@
            }),
    {
        if self.running {
            "\u{2713}  server running  \u{b7}  ready"
        } else {
            "idle"
        }
    }

    /// The address under which a client reaches the server at the host.
    pub fn endpoint(&self, host: &str) -> (s: String)
        ensures
            s@ == host@ + ":"@ + decimal(self.port as nat),
    {
        host.to_owned().concat(":").concat(decimal_text(self.port as u64).as_str())
    }
}

/// The client that the window starts transfers with.
pub fn window_client(blksize: u16, window: u16, ipv6: bool) -> (c: Client)
    ensures
        c == (Client {
            cfg: ClientConfig {
                blksize,
                timeout_secs: 5,
                windowsize: window,
                retries: 4,
                resume_from_block: 0,
            },
            prefer_v6: ipv6,
        }),
{
    let cfg = ClientConfig {
        blksize,
        timeout_secs: 5,
        windowsize: window,
        retries: 4,
        resume_from_block: 0,
    };
    Client::new(cfg).prefer_ipv6(ipv6)
}

/// The target of a transfer that the window starts.
pub fn window_target(host: &str, file: &str) -> (s: String)
    ensures
        s@ == host@ + ":"@ + file@,
{
    host.to_owned().concat(":").concat(file)
}

/// Whether the fields of the window are filled in so that a transfer can
/// start.
pub fn can_start(remote_file: &str, local_file: &str) -> (r: bool)
    ensures
        r == (remote_file@.len() > 0 && local_file@.len() > 0),
{
    !remote_file.is_empty() && !local_file.is_empty()
}

/// Whether the remote name is to be joined to the local path: for a download
/// into a directory.
pub fn joins_remote_name(direction: Direction, local_is_dir: bool, remote_file: &str) -> (r: bool)
    ensures
        r == (direction == Direction::Get && local_is_dir && remote_file@.len() > 0),
{
    direction == Direction::Get && local_is_dir && !remote_file.is_empty()
}

/// An address of a network interface, as a number with its first byte the most
/// significant.
#[derive(Debug, Clone, Copy, PartialEq, Eq, Structural)]
pub enum Ip {
    V4(u32),
    V6(u128),
}

/// The order of addresses: version 4 before version 6, then by number.
pub open spec fn ip_before(a: Ip, b: Ip) -> bool {
    match (a, b) {
        (Ip::V4(x), Ip::V4(y)) => x < y,
        (Ip::V4(_), Ip::V6(_)) => true,
        (Ip::V6(_), Ip::V4(_)) => false,
        (Ip::V6(x), Ip::V6(y)) => x < y,
    }
}

fn comes_before(a: Ip, b: Ip) -> (r: bool)
    ensures
        r == ip_before(a, b),
{
    match (a, b) {
        (Ip::V4(x), Ip::V4(y)) => x < y,
        (Ip::V4(_), Ip::V6(_)) => true,
        (Ip::V6(_), Ip::V4(_)) => false,
        (Ip::V6(x), Ip::V6(y)) => x < y,
    }
}

/// Whether addresses are in order, none twice.
pub open spec fn ips_sorted(v: Seq<Ip>) -> bool {
    forall|i: int, j: int| 0 <= i < j < v.len() ==> ip_before(#[trigger] v[i], #[trigger] v[j])
}

/// Whether an address belongs to an interface that is not a loopback.
pub open spec fn is_local(found: Seq<(Ip, bool)>, ip: Ip) -> bool {
    exists|i: int| 0 <= i < found.len() && #[trigger] found[i] == (ip, false)
}

/// Whether a list holds the addresses of the interfaces that are no loopbacks,
/// and no others.
pub open spec fn holds_the_local(found: Seq<(Ip, bool)>, v: Seq<Ip>) -> bool {
    forall|ip: Ip| #[trigger] v.contains(ip) <==> found.contains((ip, false))
}

/// The addresses of the machine: `found` holds the address of each interface
/// and whether it is a loopback. Loopbacks are left out, and so is every
/// repetition; the rest is put in order.
pub fn collect_local_ips(found: &Vec<(Ip, bool)>) -> (r: Vec<Ip>)
    ensures
        ips_sorted(r@),
        forall|ip: Ip| r@.contains(ip) <==> #[trigger] is_local(found@, ip),
        holds_the_local(found@, r@),
{
    let mut out: Vec<Ip> = Vec::new();
    let mut k: usize = 0;
    while k < found.len()
        invariant
            k <= found.len(),
            ips_sorted(out@),
            forall|ip: Ip| out@.contains(ip) <==> #[trigger] is_local(found@.take(k as int), ip),
        decreases found.len() - k,
    {
        let (ip, loopback) = found[k];
        let ghost before = out@;
        if !loopback {
            let mut i: usize = 0;
            while i < out.len() && comes_before(out[i], ip)
                invariant
                    i <= out.len(),
                    forall|j: int| 0 <= j < i ==> ip_before(#[trigger] out@[j], ip),
                decreases out.len() - i,
            {
                i = i + 1;
            }
            if i == out.len() || out[i] != ip {
                out.insert(i, ip);
                assert(out@ =~= before.insert(i as int, ip));
                assert(out@[i as int] == ip);
                assert forall|x: Ip| out@.contains(x) <==> (before.contains(x) || x == ip) by {
                    if before.contains(x) {
                        let j = choose|j: int| 0 <= j < before.len() && before[j] == x;
                        if j < i {
                            assert(out@[j] == x);
                        } else {
                            assert(out@[j + 1] == x);
                        }
                    }
                    if out@.contains(x) {
                        let j = choose|j: int| 0 <= j < out@.len() && out@[j] == x;
                        if j < i {
                            assert(before[j] == x);
                        } else if j > i {
                            assert(before[j - 1] == x);
                        }
                    }
                }
                assert forall|a: int, b: int| 0 <= a < b < out@.len() implies ip_before(
                    #[trigger] out@[a],
                    #[trigger] out@[b],
                ) by {
                    let x = if a < i {
                        before[a]
                    } else if a == i {
                        ip
                    } else {
                        before[a - 1]
                    };
                    let y = if b < i {
                        before[b]
                    } else if b == i {
                        ip
                    } else {
                        before[b - 1]
                    };
                    assert(out@[a] == x && out@[b] == y);
                    if a == i {
                        assert(!ip_before(before[i as int], ip));
                        if b - 1 > i {
                            assert(ip_before(before[i as int], before[b - 1]));
                        }
                    }
                }
            } else {
                assert(before[i as int] == ip);
            }
        }
        proof {
            let old_front = found@.take(k as int);
            let front = found@.take(k + 1);
            assert forall|x: Ip| out@.contains(x) <==> #[trigger] is_local(front, x) by {
                assert(front[k as int] == (ip, loopback));
                if is_local(front, x) {
                    let j = choose|j: int| 0 <= j < front.len() && #[trigger] front[j] == (x, false);
                    if j < k {
                        assert(old_front[j] == (x, false));
                        assert(is_local(old_front, x));
                    }
                }
                if is_local(old_front, x) {
                    let j = choose|j: int|
                        0 <= j < old_front.len() && #[trigger] old_front[j] == (x, false);
                    assert(front[j] == (x, false));
                }
            }
        }
        k = k + 1;
    }
    assert(found@.take(k as int) =~= found@);
    assert forall|ip: Ip| #[trigger] out@.contains(ip) <==> found@.contains((ip, false)) by {
        assert(out@.contains(ip) <==> is_local(found@, ip));
        if found@.contains((ip, false)) {
            let i = choose|i: int| 0 <= i < found@.len() && found@[i] == (ip, false);
            assert(found@[i] == (ip, false));
        }
    }
    out
}

/// The number of bytes that the unit number `i` stands for.
pub open spec fn unit_bytes(i: nat) -> nat
    decreases i,
{
    if i == 0 {
        1
    } else {
        1024 * unit_bytes((i - 1) as nat)
    }
}

/// The number of the unit that a number of bytes is shown in: the largest of
/// bytes, kilobytes, megabytes, gigabytes and terabytes that it reaches.
pub fn size_unit(n: u64) -> (i: usize)
    ensures
        i <= 4,
        i > 0 ==> n >= unit_bytes(i as nat),
        i < 4 ==> n < unit_bytes((i + 1) as nat),
{
    proof {
        reveal_with_fuel(unit_bytes, 5);
    }
    if n < 1024 {
        0
    } else if n < 1_048_576 {
        1
    } else if n < 1_073_741_824 {
        2
    } else if n < 1_099_511_627_776 {
        3
    } else {
        4
    }
}

/// The name of the unit number `i`.
pub fn unit_name(i: usize) -> (s: &'static str)
    requires
        i <= 4,
    ensures
        s@ == (match i {
            0 => "B"@,
            1 => "KB"@,
            2 => "MB"@,
            3 => "GB"@,
            _ => "TB"@,
        }),
{
    match i {
        0 => "B",
        1 => "KB",
        2 => "MB",
        3 => "GB",
        _ => "TB",
    }
}

} // verus!
