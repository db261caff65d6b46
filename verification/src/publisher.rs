//! The publisher: which frames of the log go to which subscriber.
//!
//! A worker keeps a table of connections. Each connection knows the cursor of the
//! last frame that it took for its subscriber and how many bytes still wait to be
//! written. The worker does no I/O itself: the caller reads the log, writes to the
//! sockets, and tells the worker what was read and written.

use vstd::prelude::*;
use vstd::string::*;

use crate::types::Cursor;

verus! {

/// The number of records of the log read in one step, and of steps in one update.
pub const BATCH: u64 = 32;

#[derive(Clone, Debug)]
pub enum ConnectionError {
    /// More waits to be written than the connection may hold.
    Overflow,
    /// The socket failed, with this message.
    Io(String),
}

#[derive(Clone, Debug)]
pub enum WorkerError {
    Io(String),
    ConnectionError(ConnectionError),
    Fjall(String),
}

impl ConnectionError {
    /// The error in words.
    pub fn message(&self) -> (r: String)
        ensures
            r@ == match *self {
                ConnectionError::Overflow => "send buffer overflow"@,
                ConnectionError::Io(m) => "io error: "@ + m@,
            },
    {
        match self {
            ConnectionError::Overflow => String::from_str("send buffer overflow"),
            ConnectionError::Io(m) => String::from_str("io error: ").concat(m.as_str()),
        }
    }
}

impl WorkerError {
    /// The error in words.
    pub fn message(&self) -> (r: String)
        ensures
            r@ == match *self {
                WorkerError::Io(m) => "io error: "@ + m@,
                WorkerError::ConnectionError(e) => "connection error: "@ + match e {
                    ConnectionError::Overflow => "send buffer overflow"@,
                    ConnectionError::Io(m) => "io error: "@ + m@,
                },
                WorkerError::Fjall(m) => "fjall error: "@ + m@,
            },
    {
        match self {
            WorkerError::Io(m) => String::from_str("io error: ").concat(m.as_str()),
            WorkerError::ConnectionError(e) => {
                let inner = e.message();
                String::from_str("connection error: ").concat(inner.as_str())
            },
            WorkerError::Fjall(m) => String::from_str("fjall error: ").concat(m.as_str()),
        }
    }
}

/// One record of the log, as far as the publisher reads it: its cursor and the
/// length of its frame.
#[derive(Clone, Copy, Debug, PartialEq, Eq, Structural)]
pub struct Entry {
    pub cursor: Cursor,
    pub len: usize,
}

/// What a connection is told when it is polled: the records read from the log for
/// it, and the number of bytes that the socket has accepted since the last poll, or
/// the socket's failure.
#[derive(Debug)]
pub struct Report {
    pub read: Vec<Entry>,
    pub written: Result<usize, String>,
}

/// Where a connection stands, as plain values.
pub struct Link {
    /// The subscriber's address.
    pub addr: Seq<char>,
    /// The cursor of the last frame taken for the subscriber.
    pub cursor: u64,
    /// The number of bytes that wait to be written.
    pub pending: usize,
    /// The number of bytes that may wait at most.
    pub ceiling: usize,
}

/// What taking frames from the log, one after the other, comes to.
pub struct Fill {
    pub cursor: u64,
    pub pending: usize,
    /// Whether the log continues where the subscriber stands.
    pub unbroken: bool,
}

impl Link {
    /// Whether a frame published as `seq` is the next one for the subscriber.
    pub open spec fn next_is(self, seq: u64) -> bool {
        seq == self.cursor + 1
    }

    /// Whether `len` more bytes may wait.
    pub open spec fn fits(self, len: usize) -> bool {
        self.pending + len <= self.ceiling
    }

    /// The connection after it took the frame `seq` of `len` bytes.
    pub open spec fn took(self, seq: u64, len: usize) -> Link {
        Link { cursor: seq, pending: (self.pending + len) as usize, ..self }
    }

    /// The connection after the socket accepted `written` bytes.
    pub open spec fn drained(self, written: usize) -> Link {
        Link {
            pending: if written <= self.pending {
                (self.pending - written) as usize
            } else {
                0
            },
            ..self
        }
    }

    /// Taking the records in their order: each must be the next frame for the
    /// subscriber, or the log is broken for it; a frame that does not fit waits in
    /// the log with those behind it.
    pub open spec fn filled(self, entries: Seq<Entry>) -> Fill
        decreases entries.len(),
    {
        if entries.len() == 0 {
            Fill { cursor: self.cursor, pending: self.pending, unbroken: true }
        } else if !self.next_is(entries[0].cursor.0) {
            Fill { cursor: self.cursor, pending: self.pending, unbroken: false }
        } else if !self.fits(entries[0].len) {
            Fill { cursor: self.cursor, pending: self.pending, unbroken: true }
        } else {
            self.took(entries[0].cursor.0, entries[0].len).filled(entries.drop_first())
        }
    }
}

/// The records that a connection takes are the first ones read for it: their
/// number is the distance that its cursor moves.
pub proof fn lemma_filled_count(link: Link, entries: Seq<Entry>)
    ensures
        link.cursor <= link.filled(entries).cursor <= link.cursor + entries.len(),
    decreases entries.len(),
{
    if entries.len() > 0 && link.next_is(entries[0].cursor.0) && link.fits(entries[0].len) {
        lemma_filled_count(link.took(entries[0].cursor.0, entries[0].len), entries.drop_first());
    }
}

/// A subscriber's connection.
#[derive(Debug)]
pub struct Connection {
    addr: String,
    cursor: Cursor,
    pending: usize,
    ceiling: usize,
}

impl View for Connection {
    type V = Link;

    closed spec fn view(&self) -> Link {
        Link {
            addr: self.addr@,
            cursor: self.cursor.0,
            pending: self.pending,
            ceiling: self.ceiling,
        }
    }
}

impl Connection {
    /// A connection of a subscriber that joins at `cursor`: the first frame for it
    /// is the one after `cursor`.
    pub fn connect(addr: String, cursor: Cursor, ceiling: usize) -> (r: Connection)
        ensures
            r@ == (Link { addr: addr@, cursor: cursor.0, pending: 0, ceiling }),
    {
        Connection { addr, cursor, pending: 0, ceiling }
    }

    pub fn addr(&self) -> (r: &str)
        ensures
            r@ == self@.addr,
    {
        self.addr.as_str()
    }

    /// The cursor of the last frame taken for the subscriber.
    pub fn cursor(&self) -> (r: Cursor)
        ensures
            r.0 == self@.cursor,
    {
        self.cursor
    }

    /// The number of bytes that wait to be written.
    pub fn pending(&self) -> (r: usize)
        ensures
            r == self@.pending,
    {
        self.pending
    }

    /// The records of the log to read for the subscriber at the live tail `seq`, by
    /// their first and last cursor: those behind its own cursor, `BATCH` at most and
    /// none beyond the tail; none where it has caught up.
    pub fn wanted(&self, seq: Cursor) -> (r: Option<(Cursor, Cursor)>)
        ensures
            match r {
                Some((lo, hi)) => {
                    &&& self@.cursor < seq.0
                    &&& lo.0 == self@.cursor + 1
                    &&& hi.0 == if self@.cursor + BATCH <= seq.0 {
                        self@.cursor + BATCH
                    } else {
                        seq.0 as int
                    }
                },
                None => self@.cursor >= seq.0,
            },
    {
        if self.cursor.0 >= seq.0 {
            return None;
        }
        let hi = if seq.0 - self.cursor.0 >= BATCH {
            self.cursor.0 + BATCH
        } else {
            seq.0
        };
        Some((Cursor(self.cursor.0 + 1), Cursor(hi)))
    }

    /// Offers the frame published as `seq`, of `len` bytes. The connection takes it
    /// if it is the next one for the subscriber, and says whether it did. A
    /// subscriber that is behind gets the frame from the log later. Where the frame
    /// is the next one and does not fit, the subscriber has stalled: an error.
    pub fn send(&mut self, seq: Cursor, len: usize) -> (r: Result<bool, ConnectionError>)
        ensures
            match r {
                Ok(taken) => {
                    &&& taken == old(self)@.next_is(seq.0)
                    &&& taken ==> old(self)@.fits(len)
                    &&& final(self)@ == if taken {
                        old(self)@.took(seq.0, len)
                    } else {
                        old(self)@
                    }
                },
                Err(e) => {
                    &&& e is Overflow
                    &&& old(self)@.next_is(seq.0)
                    &&& !old(self)@.fits(len)
                    &&& final(self)@ == old(self)@
                },
            },
    {
        if self.cursor.0 == u64::MAX || seq.0 != self.cursor.0 + 1 {
            return Ok(false);
        }
        match self.pending.checked_add(len) {
            Some(total) => {
                if total > self.ceiling {
                    return Err(ConnectionError::Overflow);
                }
                self.pending = total;
                self.cursor = seq;
                Ok(true)
            },
            None => Err(ConnectionError::Overflow),
        }
    }

    /// Lets the connection make progress at the live tail `seq`. It first counts off
    /// what the socket has written. A subscriber that stands beyond the tail, or
    /// for which the log does not continue where it stands, asked for a cursor
    /// that cannot be served: `Ok(false)`. Otherwise the connection takes the
    /// records read for it, as far as they fit, and stays: `Ok(true)`. A failure of
    /// the socket is an error.
    pub fn poll(&mut self, seq: Cursor, report: &Report) -> (r: Result<bool, ConnectionError>)
        ensures
            match report.written {
                Err(m) => {
                    &&& r matches Err(ConnectionError::Io(e))
                    &&& e@ == m@
                    &&& final(self)@ == old(self)@
                },
                Ok(written) => {
                    let drained = old(self)@.drained(written);
                    let fill = drained.filled(report.read@);
                    &&& r matches Ok(stays)
                    &&& stays == (drained.cursor <= seq.0 && fill.unbroken)
                    &&& final(self)@ == if drained.cursor <= seq.0 {
                        Link { cursor: fill.cursor, pending: fill.pending, ..drained }
                    } else {
                        drained
                    }
                },
            },
    {
        let written = match &report.written {
            Ok(written) => *written,
            Err(m) => {
                return Err(ConnectionError::Io(m.clone()));
            },
        };
        self.pending = if written <= self.pending {
            self.pending - written
        } else {
            0
        };
        if self.cursor.0 > seq.0 {
            return Ok(false);
        }
        let ghost drained = self@;
        let mut i: usize = 0;
        assert(report.read@.skip(0) =~= report.read@);
        while i < report.read.len()
            invariant
                i <= report.read.len(),
                report.written == Ok::<usize, String>(written),
                drained == old(self)@.drained(written),
                drained.cursor <= seq.0,
                self@.ceiling == drained.ceiling,
                self@.addr == drained.addr,
                drained.filled(report.read@) == self@.filled(report.read@.skip(i as int)),
            decreases report.read.len() - i,
        {
            let entry = report.read[i];
            assert(report.read@.skip(i as int)[0] == entry);
            assert(report.read@.skip(i as int).drop_first() =~= report.read@.skip(i + 1));
            match self.send(entry.cursor, entry.len) {
                Ok(true) => {},
                Ok(false) => {
                    return Ok(false);
                },
                Err(_) => {
                    return Ok(true);
                },
            }
            i += 1;
        }
        Ok(true)
    }
}

/// What the worker is asked to do.
#[derive(Clone, Debug)]
pub enum Command {
    /// Serve a subscriber at `addr` from `cursor` on, or from the live tail.
    Connect { addr: String, cursor: Option<Cursor> },
}

/// What became of a frame at one place of the table.
#[derive(Clone, Copy, Debug, PartialEq, Eq, Structural)]
pub enum Delivery {
    /// The place is empty.
    Vacant,
    /// The connection is behind, or has the frame: it did not take it.
    Skipped,
    /// The connection took the frame.
    Taken,
    /// The connection has stalled and was dropped.
    Dropped,
}

/// What became of a connection that was polled.
#[derive(Clone, Debug)]
pub enum Verdict {
    /// There is no connection at the place.
    Vacant,
    /// The connection stays; it took this many of the records read for it, the
    /// first ones.
    Kept(usize),
    /// The connection was closed: its subscriber asked for a cursor that cannot be
    /// served.
    Closed,
    /// The connection was dropped for this error.
    Disconnected(ConnectionError),
}

pub open spec fn link_of(slot: Option<Connection>) -> Option<Link> {
    match slot {
        Some(c) => Some(c@),
        None => None,
    }
}

/// The table of connections as plain values.
pub open spec fn links(v: Seq<Option<Connection>>) -> Seq<Option<Link>> {
    v.map_values(|slot: Option<Connection>| link_of(slot))
}

/// The first empty place of the table, or its length where every place is taken.
pub open spec fn first_hole(table: Seq<Option<Link>>) -> int
    decreases table.len(),
{
    if table.len() == 0 {
        0
    } else if table[0] is None {
        0
    } else {
        1 + first_hole(table.drop_first())
    }
}

/// The table with `link` at its first empty place, or behind its end.
pub open spec fn seated(table: Seq<Option<Link>>, link: Link) -> Seq<Option<Link>> {
    if first_hole(table) < table.len() {
        table.update(first_hole(table), Some(link))
    } else {
        table.push(Some(link))
    }
}

/// What becomes of one place of the table when the frame `seq` of `len` bytes is
/// offered.
pub open spec fn offered(slot: Option<Link>, seq: u64, len: usize) -> (Option<Link>, Delivery) {
    match slot {
        None => (None, Delivery::Vacant),
        Some(link) => if !link.next_is(seq) {
            (slot, Delivery::Skipped)
        } else if link.fits(len) {
            (Some(link.took(seq, len)), Delivery::Taken)
        } else {
            (None, Delivery::Dropped)
        },
    }
}

/// What becomes of one place of the table when it is polled at the live tail `seq`.
pub open spec fn polled(slot: Option<Link>, seq: u64, report: Report) -> Option<Link> {
    match slot {
        None => None,
        Some(link) => match report.written {
            Err(_) => None,
            Ok(written) => {
                let drained = link.drained(written);
                let fill = drained.filled(report.read@);
                if drained.cursor <= seq && fill.unbroken {
                    Some(Link { cursor: fill.cursor, pending: fill.pending, ..drained })
                } else {
                    None
                }
            },
        },
    }
}

/// The worker's state as plain values.
pub struct WorkerState {
    pub id: usize,
    pub table: Seq<Option<Link>>,
    /// The place that the last turn went to.
    pub next_idx: usize,
    /// The number of bytes that may wait on a connection at most.
    pub ceiling: usize,
}

impl WorkerState {
    /// The state after the frame `seq` of `len` bytes was offered to every place.
    pub open spec fn sent(self, seq: u64, len: usize) -> WorkerState {
        WorkerState {
            table: Seq::new(self.table.len(), |i: int| offered(self.table[i], seq, len).0),
            ..self
        }
    }

    /// What became of the frame at each place.
    pub open spec fn deliveries(self, seq: u64, len: usize) -> Seq<Delivery> {
        Seq::new(self.table.len(), |i: int| offered(self.table[i], seq, len).1)
    }

    /// The state after the subscriber at `addr` was seated, who joins at `cursor`, or
    /// at the live tail `seq`.
    pub open spec fn connected(self, addr: Seq<char>, cursor: Option<Cursor>, seq: u64)
        -> WorkerState {
        WorkerState {
            table: seated(
                self.table,
                Link {
                    addr,
                    cursor: match cursor {
                        Some(c) => c.0,
                        None => seq,
                    },
                    pending: 0,
                    ceiling: self.ceiling,
                },
            ),
            ..self
        }
    }

    /// The state after the records were published in their order.
    pub open spec fn published(self, entries: Seq<Entry>) -> WorkerState
        decreases entries.len(),
    {
        if entries.len() == 0 {
            self
        } else {
            self.published(entries.drop_last()).sent(entries.last().cursor.0, entries.last().len)
        }
    }

    /// The place that the next turn goes to.
    pub open spec fn turn(self) -> usize {
        ((self.next_idx + 1) % (self.table.len() as int)) as usize
    }
}

/// The live tail after the records were published: the cursor of the last one.
pub open spec fn tail_after(seq: Cursor, entries: Seq<Entry>) -> Cursor {
    if entries.len() == 0 {
        seq
    } else {
        entries.last().cursor
    }
}

pub struct Worker {
    id: usize,
    connections: Vec<Option<Connection>>,
    next_idx: usize,
    ceiling: usize,
}

impl View for Worker {
    type V = WorkerState;

    closed spec fn view(&self) -> WorkerState {
        WorkerState {
            id: self.id,
            table: links(self.connections@),
            next_idx: self.next_idx,
            ceiling: self.ceiling,
        }
    }
}

/// The first empty place lies within the table or at its end; every place before it
/// is taken.
pub proof fn lemma_first_hole(table: Seq<Option<Link>>, i: int)
    requires
        0 <= i <= table.len(),
        forall|k: int| 0 <= k < i ==> table[k] is Some,
        i < table.len() ==> table[i] is None,
    ensures
        first_hole(table) == i,
    decreases table.len(),
{
    if table.len() > 0 && table[0] is Some {
        lemma_first_hole(table.drop_first(), i - 1);
    }
}

impl Worker {
    /// A worker without connections.
    pub fn new(id: usize, ceiling: usize) -> (r: Worker)
        ensures
            r@ == (WorkerState { id, table: Seq::empty(), next_idx: 0, ceiling }),
    {
        let r = Worker { id, connections: Vec::new(), next_idx: 0, ceiling };
        assert(links(r.connections@) =~= Seq::empty());
        r
    }

    pub fn id(&self) -> (r: usize)
        ensures
            r == self@.id,
    {
        self.id
    }

    /// The number of places of the table.
    pub fn len(&self) -> (r: usize)
        ensures
            r == self@.table.len(),
    {
        self.connections.len()
    }

    /// The connection at the place `idx`, if there is one.
    pub fn connection(&self, idx: usize) -> (r: Option<&Connection>)
        ensures
            match r {
                Some(c) => idx < self@.table.len() && self@.table[idx as int] == Some(c@),
                None => idx >= self@.table.len() || self@.table[idx as int] is None,
            },
    {
        if idx < self.connections.len() {
            self.connections[idx].as_ref()
        } else {
            None
        }
    }

    /// The records of the log to read at the live tail `seq`: those behind `seq`,
    /// `BATCH` at most, by their first and last cursor; none where `seq` is the last
    /// cursor there is.
    pub fn window(seq: Cursor) -> (r: Option<(Cursor, Cursor)>)
        ensures
            match r {
                Some((lo, hi)) => {
                    &&& seq.0 < u64::MAX
                    &&& lo.0 == seq.0 + 1
                    &&& hi.0 == if seq.0 + BATCH <= u64::MAX {
                        seq.0 + BATCH
                    } else {
                        u64::MAX as int
                    }
                },
                None => seq.0 == u64::MAX,
            },
    {
        if seq.0 == u64::MAX {
            return None;
        }
        let hi = match seq.0.checked_add(BATCH) {
            Some(hi) => hi,
            None => u64::MAX,
        };
        Some((Cursor(seq.0 + 1), Cursor(hi)))
    }

    /// The records of the log to read for the connection at the place `idx` at the
    /// live tail `seq`, by their first and last cursor; none for an empty place and
    /// for a connection that has caught up.
    pub fn wanted(&self, seq: Cursor, idx: usize) -> (r: Option<(Cursor, Cursor)>)
        ensures
            match r {
                Some((lo, hi)) => {
                    &&& idx < self@.table.len()
                    &&& self@.table[idx as int] matches Some(link)
                    &&& link.cursor < seq.0
                    &&& lo.0 == link.cursor + 1
                    &&& hi.0 == if link.cursor + BATCH <= seq.0 {
                        link.cursor + BATCH
                    } else {
                        seq.0 as int
                    }
                },
                None => idx >= self@.table.len() || match self@.table[idx as int] {
                    Some(link) => link.cursor >= seq.0,
                    None => true,
                },
            },
    {
        if idx >= self.connections.len() {
            return None;
        }
        match &self.connections[idx] {
            Some(conn) => conn.wanted(seq),
            None => None,
        }
    }

    /// Seats a new subscriber at the first empty place of the table, or behind its
    /// end, and returns the place: the socket is to be registered under it. The
    /// subscriber joins at the cursor that it asked for, or at the live tail `seq`.
    pub fn handle_command(&mut self, command: Command, seq: Cursor) -> (idx: usize)
        ensures
            match command {
                Command::Connect { addr, cursor } => final(self)@ == old(self)@.connected(
                    addr@,
                    cursor,
                    seq.0,
                ),
            },
            idx == first_hole(old(self)@.table),
            idx < final(self)@.table.len(),
    {
        match command {
            Command::Connect { addr, cursor } => {
                let mut seq = seq;
                let start = match cursor {
                    Some(c) => c,
                    None => if seq.0 < u64::MAX {
                        seq.next()
                    } else {
                        seq
                    },
                };
                let conn = Connection::connect(addr, start, self.ceiling);
                let ghost table = links(self.connections@);
                let mut idx: usize = 0;
                while idx < self.connections.len() && self.connections[idx].is_some()
                    invariant
                        idx <= self.connections.len(),
                        self.connections == old(self).connections,
                        table == links(self.connections@),
                        forall|k: int| 0 <= k < idx ==> table[k] is Some,
                    decreases self.connections.len() - idx,
                {
                    idx += 1;
                }
                proof {
                    lemma_first_hole(table, idx as int);
                }
                if idx == self.connections.len() {
                    self.connections.push(Some(conn));
                    assert(links(self.connections@) =~= table.push(Some(conn@)));
                } else {
                    self.connections.set(idx, Some(conn));
                    assert(links(self.connections@) =~= table.update(idx as int, Some(conn@)));
                }
                idx
            },
        }
    }

    /// Offers the frame published as `seq`, of `len` bytes, to every connection, and
    /// says for each place what became of it. A connection that has stalled is
    /// dropped: its socket is to be deregistered and closed.
    pub fn send(&mut self, seq: Cursor, len: usize) -> (r: Vec<Delivery>)
        ensures
            final(self)@ == old(self)@.sent(seq.0, len),
            r@ == old(self)@.deliveries(seq.0, len),
    {
        let ghost table = links(self.connections@);
        let mut out: Vec<Delivery> = Vec::new();
        let mut i: usize = 0;
        while i < self.connections.len()
            invariant
                i <= self.connections.len(),
                self.connections@.len() == table.len(),
                self.id == old(self).id,
                self.next_idx == old(self).next_idx,
                self.ceiling == old(self).ceiling,
                table == links(old(self).connections@),
                out@.len() == i,
                forall|k: int| 0 <= k < i ==> out@[k] == offered(table[k], seq.0, len).1,
                forall|k: int|
                    0 <= k < i ==> link_of(#[trigger] self.connections@[k]) == offered(
                        table[k],
                        seq.0,
                        len,
                    ).0,
                forall|k: int|
                    i <= k < table.len() ==> link_of(#[trigger] self.connections@[k]) == table[k],
            decreases self.connections.len() - i,
        {
            let mut slot: Option<Connection> = None;
            std::mem::swap(&mut slot, &mut self.connections[i]);
            let delivery = match slot {
                None => Delivery::Vacant,
                Some(mut conn) => match conn.send(seq, len) {
                    Ok(true) => {
                        self.connections.set(i, Some(conn));
                        Delivery::Taken
                    },
                    Ok(false) => {
                        self.connections.set(i, Some(conn));
                        Delivery::Skipped
                    },
                    Err(_) => Delivery::Dropped,
                },
            };
            out.push(delivery);
            i += 1;
        }
        assert(links(self.connections@) =~= old(self)@.sent(seq.0, len).table);
        assert(out@ =~= old(self)@.deliveries(seq.0, len));
        out
    }

    /// Polls the connection at the place `idx` at the live tail `seq`. A connection
    /// that cannot be served, or whose socket failed, leaves the table: its socket is
    /// to be deregistered and closed.
    pub fn poll(&mut self, seq: Cursor, idx: usize, report: &Report) -> (r: Verdict)
        ensures
            final(self)@ == if idx < old(self)@.table.len() {
                WorkerState {
                    table: old(self)@.table.update(
                        idx as int,
                        polled(old(self)@.table[idx as int], seq.0, *report),
                    ),
                    ..old(self)@
                }
            } else {
                old(self)@
            },
            r is Vacant == (idx >= old(self)@.table.len() || old(self)@.table[idx as int] is None),
            r is Kept == (idx < final(self)@.table.len() && final(self)@.table[idx as int] is Some),
            r matches Verdict::Kept(n) ==> (report.written matches Ok(written) && n
                == final(self)@.table[idx as int]->0.cursor - old(self)@.table[idx as int]->0.cursor
                && n <= report.read@.len()),
            r is Disconnected == (!(r is Vacant) && report.written is Err),
            r matches Verdict::Disconnected(e) ==> (e matches ConnectionError::Io(t)
                && report.written matches Err(m) && t@ == m@),
    {
        if idx >= self.connections.len() {
            return Verdict::Vacant;
        }
        let ghost table = links(self.connections@);
        let mut slot: Option<Connection> = None;
        std::mem::swap(&mut slot, &mut self.connections[idx]);
        let verdict = match slot {
            None => Verdict::Vacant,
            Some(mut conn) => {
                let before = conn.cursor.0;
                let ghost link = conn@;
                proof {
                    assert(table[idx as int] == Some(link));
                    if let Ok(written) = report.written {
                        lemma_filled_count(link.drained(written), report.read@);
                    }
                }
                match conn.poll(seq, report) {
                    Ok(true) => {
                        let read = report.read.len();
                        assert(before <= conn.cursor.0 <= before + read);
                        let n = (conn.cursor.0 - before) as usize;
                        self.connections.set(idx, Some(conn));
                        Verdict::Kept(n)
                    },
                    Ok(false) => Verdict::Closed,
                    Err(e) => Verdict::Disconnected(e),
                }
            },
        };
        assert(links(self.connections@) =~= table.update(
            idx as int,
            polled(table[idx as int], seq.0, *report),
        ));
        verdict
    }

    /// The place whose turn it is in the round over all places, none in an empty
    /// table.
    pub fn turn(&mut self) -> (r: Option<usize>)
        ensures
            match r {
                Some(idx) => {
                    &&& old(self)@.table.len() > 0
                    &&& idx == old(self)@.turn()
                    &&& idx < old(self)@.table.len()
                    &&& final(self)@ == (WorkerState { next_idx: idx, ..old(self)@ })
                },
                None => old(self)@.table.len() == 0 && final(self)@ == old(self)@,
            },
    {
        let n = self.connections.len();
        if n == 0 {
            return None;
        }
        let next = if self.next_idx >= n - 1 {
            proof {
                if self.next_idx == n - 1 {
                    assert((self.next_idx + 1) % (n as int) == 0) by (nonlinear_arith)
                        requires
                            self.next_idx + 1 == n,
                            n > 0,
                    ;
                }
            }
            if self.next_idx == n - 1 {
                0
            } else {
                (self.next_idx - (n - 1)) % n
            }
        } else {
            assert((self.next_idx + 1) % (n as int) == self.next_idx + 1) by (nonlinear_arith)
                requires
                    0 <= self.next_idx + 1 < n,
            ;
            self.next_idx + 1
        };
        assert(next == (self.next_idx + 1) % (n as int)) by {
            if self.next_idx > n - 1 {
                let a = self.next_idx as int;
                let m = n as int;
                assert((a - (m - 1)) % m == (a + 1) % m) by (nonlinear_arith)
                    requires
                        m > 0,
                        a >= m,
                ;
            }
        }
        self.next_idx = next;
        Some(next)
    }

    /// One step of the worker: nothing once the relay shuts down; otherwise the
    /// command, if there is one, is carried out, and the records read from the log
    /// behind the live tail are published in their order. Returns the place of the
    /// new subscriber, if one was seated, and for each record what became of it at
    /// each place; the live tail moves to the last record.
    pub fn update(
        &mut self,
        seq: &mut Cursor,
        shutdown: bool,
        command: Option<Command>,
        entries: &Vec<Entry>,
    ) -> (r: Option<(Option<usize>, Vec<Vec<Delivery>>)>)
        ensures
            match r {
                None => shutdown && final(self)@ == old(self)@ && *final(seq) == *old(seq),
                Some((place, all)) => {
                    let seated = match command {
                        Some(Command::Connect { addr, cursor }) => old(self)@.connected(
                            addr@,
                            cursor,
                            old(seq).0,
                        ),
                        None => old(self)@,
                    };
                    &&& !shutdown
                    &&& final(self)@ == seated.published(entries@)
                    &&& *final(seq) == tail_after(*old(seq), entries@)
                    &&& place is Some == command is Some
                    &&& place matches Some(idx) ==> idx == first_hole(old(self)@.table)
                    &&& all@.len() == entries@.len()
                    &&& forall|i: int|
                        0 <= i < entries@.len() ==> (#[trigger] all@[i])@ == seated.published(
                            entries@.take(i),
                        ).deliveries(entries@[i].cursor.0, entries@[i].len)
                },
            },
    {
        if shutdown {
            return None;
        }
        let place = match command {
            Some(command) => Some(self.handle_command(command, *seq)),
            None => None,
        };
        let ghost seated = self@;
        let mut all: Vec<Vec<Delivery>> = Vec::new();
        let mut i: usize = 0;
        assert(entries@.take(0) =~= Seq::<Entry>::empty());
        while i < entries.len()
            invariant
                i <= entries.len(),
                all@.len() == i,
                self@ == seated.published(entries@.take(i as int)),
                *seq == tail_after(*old(seq), entries@.take(i as int)),
                forall|k: int|
                    0 <= k < i ==> (#[trigger] all@[k])@ == seated.published(
                        entries@.take(k),
                    ).deliveries(entries@[k].cursor.0, entries@[k].len),
            decreases entries.len() - i,
        {
            assert(entries@.take(i + 1).drop_last() =~= entries@.take(i as int));
            assert(entries@.take(i + 1).last() == entries@[i as int]);
            let entry = entries[i];
            *seq = entry.cursor;
            let deliveries = self.send(entry.cursor, entry.len);
            all.push(deliveries);
            i += 1;
        }
        assert(entries@.take(entries@.len() as int) =~= entries@);
        Some((place, all))
    }

    /// Ends the worker and returns the places whose connections are to be closed.
    pub fn shutdown(self) -> (r: Vec<usize>)
        ensures
            forall|k: int| 0 <= k < r@.len() ==> r@[k] < self@.table.len() && self@.table[r@[k] as int] is Some,
            forall|i: int|
                0 <= i < self@.table.len() && self@.table[i] is Some ==> r@.contains(i as usize),
            forall|a: int, b: int| 0 <= a < b < r@.len() ==> r@[a] < r@[b],
    {
        let ghost table = links(self.connections@);
        let mut out: Vec<usize> = Vec::new();
        let mut i: usize = 0;
        while i < self.connections.len()
            invariant
                i <= self.connections.len(),
                table == links(self.connections@),
                forall|k: int| 0 <= k < out@.len() ==> out@[k] < i && table[out@[k] as int] is Some,
                forall|j: int| 0 <= j < i && table[j] is Some ==> out@.contains(j as usize),
                forall|a: int, b: int| 0 <= a < b < out@.len() ==> out@[a] < out@[b],
            decreases self.connections.len() - i,
        {
            if self.connections[i].is_some() {
                let ghost before = out@;
                out.push(i);
                assert forall|j: int| 0 <= j < i + 1 && table[j] is Some implies out@.contains(
                    j as usize,
                ) by {
                    if j < i {
                        let w = choose|w: int| 0 <= w < before.len() && before[w] == j as usize;
                        assert(out@[w] == j as usize);
                    } else {
                        assert(out@[before.len() as int] == i);
                    }
                }
            }
            i += 1;
        }
        out
    }
}

} // verus!
