//! A bounded table of routes with their recent traffic.

use vstd::prelude::*;

use crate::histogram::WINDOW_SECS;
use crate::route;
use crate::route::{normalize_method, normalize_path};
use crate::text;
use crate::text::{chars_of, order};
use crate::window;
use crate::window::{Observation, SlidingWindow, SlotState, WindowAgg};

verus! {

/// Upper bound on tracked routes. When the table is full a row is evicted in
/// this order of preference: rows with no requests in the trailing minute
/// first, then the rest, least recently used first within each group. Rows with
/// in-flight requests are never evicted, so a long-running request keeps its row
/// until it completes.
pub const MAX_ENDPOINTS: usize = 64;

/// Method of the shared row for requests that find no row of their own.
pub const OVERFLOW_METHOD: &'static str = "*";

/// Path of the shared row.
pub const OVERFLOW_PATH: &'static str = "/...";

/// One row of the table.
#[verifier::ext_equal]
pub struct RouteState {
    /// Number of rows that were created before this one.
    pub id: u64,
    pub method: Seq<char>,
    pub path: Seq<char>,
    pub in_flight: u64,
    /// Reading of the table's use counter when the row was last looked up.
    pub last_used: u64,
    /// Second of the most recent request plus one, zero before the first.
    pub last_observe: u64,
    pub ring: Seq<SlotState>,
    /// Every request of the row that was counted.
    pub history: Seq<Observation>,
}

/// The whole table.
#[verifier::ext_equal]
pub struct TableState {
    /// Use counter: how often rows were looked up.
    pub clock: u64,
    /// Whether the use counter has passed its largest reading.
    pub overrun: bool,
    /// How many rows were ever created.
    pub created: u64,
    pub rows: Seq<RouteState>,
}

/// Whether row `i` is the one for a method and a path.
pub open spec fn is_row(rows: Seq<RouteState>, i: int, method: Seq<char>, path: Seq<char>) -> bool {
    &&& 0 <= i < rows.len()
    &&& rows[i].method == method
    &&& rows[i].path == path
}

pub open spec fn has_row(rows: Seq<RouteState>, method: Seq<char>, path: Seq<char>) -> bool {
    exists|i: int| is_row(rows, i, method, path)
}

pub open spec fn row_of(rows: Seq<RouteState>, method: Seq<char>, path: Seq<char>) -> int {
    choose|i: int| is_row(rows, i, method, path)
}

/// Rows in the table, the shared one left out.
pub open spec fn route_count(rows: Seq<RouteState>) -> int {
    if has_row(rows, OVERFLOW_METHOD@, OVERFLOW_PATH@) {
        rows.len() - 1
    } else {
        rows.len() as int
    }
}

/// Whether no request of the row ended in the minute before second `tick`.
pub open spec fn is_cold(row: RouteState, tick: int) -> bool {
    row.last_observe == 0 || tick - (row.last_observe - 1) >= WINDOW_SECS
}

pub open spec fn is_idle(rows: Seq<RouteState>, i: int) -> bool {
    0 <= i < rows.len() && rows[i].in_flight == 0
}

/// Whether row `i` is evicted rather than row `j`: a cold row rather than a warm
/// one, then the one that was used longer ago.
pub open spec fn goes_first(rows: Seq<RouteState>, i: int, j: int, tick: int) -> bool {
    if is_cold(rows[i], tick) != is_cold(rows[j], tick) {
        is_cold(rows[i], tick)
    } else if rows[i].last_used != rows[j].last_used {
        rows[i].last_used < rows[j].last_used
    } else {
        i <= j
    }
}

/// Whether row `i` is the one to evict in second `tick`: an idle row that goes
/// before all idle rows.
pub open spec fn is_victim(rows: Seq<RouteState>, i: int, tick: int) -> bool {
    &&& is_idle(rows, i)
    &&& forall|j: int| #[trigger] is_idle(rows, j) ==> goes_first(rows, i, j, tick)
}

/// The table without its victim, or none where every row is in flight.
pub open spec fn evicted(rows: Seq<RouteState>, tick: int) -> Option<Seq<RouteState>> {
    if exists|i: int| is_victim(rows, i, tick) {
        Some(rows.remove(choose|i: int| is_victim(rows, i, tick)))
    } else {
        None
    }
}

/// The table after room was made for a new row, and whether there is room.
pub open spec fn with_room(rows: Seq<RouteState>, tick: int) -> (Seq<RouteState>, bool) {
    if rows.len() < MAX_ENDPOINTS {
        (rows, true)
    } else {
        match evicted(rows, tick) {
            None => (rows, false),
            Some(rest) => if route_count(rest) < MAX_ENDPOINTS {
                (rest, true)
            } else {
                match evicted(rest, tick) {
                    None => (rest, false),
                    Some(less) => (less, true),
                }
            },
        }
    }
}

/// A row as it is created.
pub open spec fn new_row(id: u64, method: Seq<char>, path: Seq<char>, last_used: u64) -> RouteState {
    RouteState {
        id,
        method,
        path,
        in_flight: 0,
        last_used,
        last_observe: 0,
        ring: Seq::new(WINDOW_SECS as nat, |i: int| window::fresh_slot(u64::MAX)),
        history: Seq::empty(),
    }
}

/// The table after a row for a method and a path was looked up in `rows` or
/// added to them.
pub open spec fn used(
    table: TableState,
    rows: Seq<RouteState>,
    method: Seq<char>,
    path: Seq<char>,
) -> TableState {
    let clock = window::bumped(table.clock);
    let overrun = table.overrun || table.clock == u64::MAX;
    if has_row(rows, method, path) {
        let i = row_of(rows, method, path);
        TableState {
            clock,
            overrun,
            created: table.created,
            rows: rows.update(i, (RouteState { last_used: clock, ..rows[i] })),
        }
    } else {
        TableState {
            clock,
            overrun,
            created: (table.created + 1) as u64,
            rows: rows.push(new_row(table.created, method, path, clock)),
        }
    }
}

/// Place of the row that [`used`] returns the table with.
pub open spec fn used_at(rows: Seq<RouteState>, method: Seq<char>, path: Seq<char>) -> int {
    if has_row(rows, method, path) {
        row_of(rows, method, path)
    } else {
        rows.len() as int
    }
}

/// Whether a request finds a row of its own, and the rows among which it does.
pub open spec fn chosen(
    table: TableState,
    method: Seq<char>,
    path: Seq<char>,
    tick: int,
) -> (Seq<RouteState>, bool) {
    if has_row(table.rows, method, path) {
        (table.rows, true)
    } else {
        with_room(table.rows, tick)
    }
}

/// The table after a request for a method and a path, already in the form in
/// which they are listed, was assigned its row in second `tick`.
pub open spec fn assigned(
    table: TableState,
    method: Seq<char>,
    path: Seq<char>,
    tick: int,
) -> TableState {
    let (rows, own) = chosen(table, method, path, tick);
    if own {
        used(table, rows, method, path)
    } else {
        used(table, rows, OVERFLOW_METHOD@, OVERFLOW_PATH@)
    }
}

/// Place of the row that the request was assigned.
pub open spec fn assigned_at(
    table: TableState,
    method: Seq<char>,
    path: Seq<char>,
    tick: int,
) -> int {
    let (rows, own) = chosen(table, method, path, tick);
    if own {
        used_at(rows, method, path)
    } else {
        used_at(rows, OVERFLOW_METHOD@, OVERFLOW_PATH@)
    }
}

/// Whether row `i` has the identity `id`.
pub open spec fn is_row_id(rows: Seq<RouteState>, i: int, id: u64) -> bool {
    0 <= i < rows.len() && rows[i].id == id
}

pub proof fn lemma_route_count_drops(rows: Seq<RouteState>, i: int)
    requires
        0 <= i < rows.len(),
    ensures
        route_count(rows.remove(i)) <= route_count(rows),
{
    let rest = rows.remove(i);
    if has_row(rows, OVERFLOW_METHOD@, OVERFLOW_PATH@) {
    } else if has_row(rest, OVERFLOW_METHOD@, OVERFLOW_PATH@) {
        let k = row_of(rest, OVERFLOW_METHOD@, OVERFLOW_PATH@);
        if k < i {
            assert(is_row(rows, k, OVERFLOW_METHOD@, OVERFLOW_PATH@));
        } else {
            assert(is_row(rows, k + 1, OVERFLOW_METHOD@, OVERFLOW_PATH@));
        }
    }
}

/// Reading of [`RouteState::last_observe`] after some requests were counted.
pub open spec fn last_stamp(history: Seq<Observation>) -> u64 {
    if history.len() == 0 {
        0
    } else if history.last().tick == u64::MAX {
        u64::MAX
    } else {
        (history.last().tick + 1) as u64
    }
}

/// Whether a row holds exactly what was counted in it.
pub open spec fn row_recorded(row: RouteState) -> bool {
    &&& row.ring == window::ring_after(row.history)
    &&& row.last_observe == last_stamp(row.history)
}

/// Whether no row was looked up later than at a reading of the use counter.
pub open spec fn stamps_within(rows: Seq<RouteState>, clock: u64) -> bool {
    forall|i: int| 0 <= i < rows.len() ==> (#[trigger] rows[i]).last_used <= clock
}

/// Whether no row was looked up later than the use counter tells, as long as the
/// counter has not passed its largest reading.
pub open spec fn stamps_fit(table: TableState) -> bool {
    !table.overrun ==> stamps_within(table.rows, table.clock)
}

/// Whether no method and path and no identity occurs twice, every identity is
/// below `created`, and every row holds what was counted in it.
pub open spec fn rows_distinct(rows: Seq<RouteState>, created: u64) -> bool {
    &&& forall|i: int, j: int|
        #![trigger rows[i], rows[j]]
        0 <= i < j < rows.len() ==> {
            &&& rows[i].id != rows[j].id
            &&& rows[i].method != rows[j].method || rows[i].path != rows[j].path
        }
    &&& forall|i: int|
        0 <= i < rows.len() ==> (#[trigger] rows[i]).id < created && window::ring_wf(rows[i].ring)
            && row_recorded(rows[i])
}

pub proof fn lemma_rows_distinct_removed(rows: Seq<RouteState>, created: u64, i: int)
    requires
        0 <= i < rows.len(),
        rows_distinct(rows, created),
    ensures
        rows_distinct(rows.remove(i), created),
{
}

/// What holds of every table: no method and path and no identity occurs twice,
/// every row holds what was counted in it, none was looked up later than the use
/// counter tells, and at most [`MAX_ENDPOINTS`] routes have a row.
pub open spec fn table_wf(table: TableState) -> bool {
    &&& rows_distinct(table.rows, table.created)
    &&& stamps_fit(table)
    &&& route_count(table.rows) <= MAX_ENDPOINTS
}

/// At most [`MAX_ENDPOINTS`] routes have a row, and with the shared row there is
/// at most one row more; no route has two.
pub proof fn law_routes_are_bounded(set: EndpointSet)
    requires
        set.wf(),
    ensures
        table_wf(set@),
        route_count(set@.rows) <= MAX_ENDPOINTS,
        set@.rows.len() <= MAX_ENDPOINTS + 1,
{
}

pub proof fn lemma_victim_is_one(rows: Seq<RouteState>, i: int, j: int, tick: int)
    requires
        is_victim(rows, i, tick),
        is_victim(rows, j, tick),
    ensures
        i == j,
{
    assert(is_idle(rows, i));
    assert(is_idle(rows, j));
}

pub proof fn lemma_row_is_one(rows: Seq<RouteState>, created: u64, i: int, j: int)
    requires
        rows_distinct(rows, created),
        0 <= i < rows.len(),
        0 <= j < rows.len(),
        rows[i].method == rows[j].method,
        rows[i].path == rows[j].path,
    ensures
        i == j,
{
}

struct RouteRow {
    id: u64,
    method: String,
    path: String,
    in_flight: u64,
    last_used: u64,
    last_observe: u64,
    window: SlidingWindow,
}

impl RouteRow {
    spec fn view(&self) -> RouteState {
        RouteState {
            id: self.id,
            method: self.method@,
            path: self.path@,
            in_flight: self.in_flight,
            last_used: self.last_used,
            last_observe: self.last_observe,
            ring: self.window@,
            history: self.window.history(),
        }
    }

    fn is_cold(&self, tick: u64) -> (cold: bool)
        ensures
            cold == is_cold(self@, tick as int),
    {
        if self.last_observe == 0 {
            true
        } else {
            let seen: u64 = self.last_observe - 1;
            tick >= seen && tick - seen >= WINDOW_SECS
        }
    }
}

/// Stands for the row that a request was assigned, for as long as the request
/// lasts.
#[derive(Clone, Copy, Debug, PartialEq, Eq, Structural)]
pub struct RouteHandle {
    id: u64,
}

impl RouteHandle {
    /// Identity of the row.
    pub closed spec fn id(&self) -> u64 {
        self.id
    }
}

/// A bounded table of routes with their recent traffic.
pub struct EndpointSet {
    clock: u64,
    overrun: Ghost<bool>,
    created: u64,
    rows: Vec<RouteRow>,
}

impl EndpointSet {
    /// The table.
    pub closed spec fn view(&self) -> TableState {
        TableState {
            clock: self.clock,
            overrun: self.overrun@,
            created: self.created,
            rows: Seq::new(self.rows@.len(), |i: int| self.rows@[i]@),
        }
    }

    pub closed spec fn wf(&self) -> bool {
        &&& rows_distinct(self@.rows, self.created)
        &&& forall|i: int| 0 <= i < self.rows@.len() ==> (#[trigger] self.rows@[i]).window.wf()
        &&& stamps_fit(self@)
        &&& route_count(self@.rows) <= MAX_ENDPOINTS
    }

    /// An empty table.
    pub fn new() -> (set: Self)
        ensures
            set.wf(),
            set@ == (TableState { clock: 0, overrun: false, created: 0, rows: Seq::empty() }),
    {
        let set = EndpointSet {
            clock: 0,
            overrun: Ghost(false),
            created: 0,
            rows: Vec::new(),
        };
        assert(set@.rows =~= Seq::<RouteState>::empty());
        set
    }

    /// How many rows were ever created.
    pub fn created(&self) -> (count: u64)
        ensures
            count == self@.created,
    {
        self.created
    }

    /// Finds the row for a method and a path.
    fn find(&self, method: &str, path: &str) -> (at: Option<usize>)
        requires
            rows_distinct(self@.rows, self.created),
        ensures
            match at {
                Some(i) => {
                    &&& is_row(self@.rows, i as int, method@, path@)
                    &&& i == row_of(self@.rows, method@, path@)
                },
                None => !has_row(self@.rows, method@, path@),
            },
    {
        let method_chars = chars_of(method);
        let path_chars = chars_of(path);
        let mut i: usize = 0;
        while i < self.rows.len()
            invariant
                i <= self.rows@.len(),
                method_chars@ == method@,
                path_chars@ == path@,
                rows_distinct(self@.rows, self.created),
                forall|j: int| 0 <= j < i ==> !is_row(self@.rows, j, method@, path@),
            decreases self.rows@.len() - i,
        {
            let row_method = chars_of(self.rows[i].method.as_str());
            let row_path = chars_of(self.rows[i].path.as_str());
            let ghost row = self@.rows[i as int];
            if text::eq_chars(row_method.as_slice(), method_chars.as_slice()) && text::eq_chars(
                row_path.as_slice(),
                path_chars.as_slice(),
            ) {
                proof {
                    assert(is_row(self@.rows, i as int, method@, path@));
                    lemma_row_is_one(
                        self@.rows,
                        self.created,
                        i as int,
                        row_of(self@.rows, method@, path@),
                    );
                }
                return Some(i);
            }
            i = i + 1;
        }
        None
    }

    /// Drops one idle row, preferring routes that saw no request in the trailing
    /// minute and breaking ties by least recently used. Returns `false` when
    /// every row is in flight.
    fn evict_one(&mut self, tick: u64) -> (done: bool)
        requires
            rows_distinct(old(self)@.rows, old(self).created),
            forall|i: int|
                0 <= i < old(self).rows@.len() ==> (#[trigger] old(self).rows@[i]).window.wf(),
        ensures
            rows_distinct(final(self)@.rows, final(self).created),
            forall|i: int|
                0 <= i < final(self).rows@.len() ==> (#[trigger] final(self).rows@[i]).window.wf(),
            final(self).clock == old(self).clock,
            final(self).overrun == old(self).overrun,
            final(self).created == old(self).created,
            stamps_fit(old(self)@) ==> stamps_fit(final(self)@),
            done == evicted(old(self)@.rows, tick as int) is Some,
            done ==> evicted(old(self)@.rows, tick as int) == Some(final(self)@.rows),
            !done ==> final(self)@ == old(self)@,
            route_count(final(self)@.rows) <= route_count(old(self)@.rows),
            final(self)@.rows.len() == old(self)@.rows.len() - (if done {
                1int
            } else {
                0
            }),
    {
        let ghost rows = self@.rows;
        let mut best: Option<usize> = None;
        let mut i: usize = 0;
        while i < self.rows.len()
            invariant
                i <= self.rows@.len(),
                rows == self@.rows,
                *self == *old(self),
                match best {
                    None => forall|j: int| 0 <= j < i ==> !#[trigger] is_idle(rows, j),
                    Some(b) => {
                        &&& b < i
                        &&& is_idle(rows, b as int)
                        &&& forall|j: int|
                            0 <= j < i && #[trigger] is_idle(rows, j) ==> goes_first(
                                rows,
                                b as int,
                                j,
                                tick as int,
                            )
                    },
                },
            decreases self.rows@.len() - i,
        {
            assert(rows[i as int] == self.rows@[i as int]@);
            if self.rows[i].in_flight == 0 {
                assert(is_idle(rows, i as int));
                match best {
                    None => {
                        best = Some(i);
                    },
                    Some(b) => {
                        assert(rows[b as int] == self.rows@[b as int]@);
                        let cold = self.rows[i].is_cold(tick);
                        let best_cold = self.rows[b].is_cold(tick);
                        let sooner: bool = if cold != best_cold {
                            cold
                        } else {
                            self.rows[i].last_used < self.rows[b].last_used
                        };
                        if sooner {
                            best = Some(i);
                        }
                    },
                }
            } else {
                assert(!is_idle(rows, i as int));
            }
            i = i + 1;
        }
        match best {
            None => {
                proof {
                    assert forall|v: int| !is_victim(rows, v, tick as int) by {}
                }
                false
            },
            Some(b) => {
                proof {
                    assert(is_victim(rows, b as int, tick as int));
                    lemma_victim_is_one(
                        rows,
                        b as int,
                        choose|v: int| is_victim(rows, v, tick as int),
                        tick as int,
                    );
                    lemma_rows_distinct_removed(rows, self.created, b as int);
                    lemma_route_count_drops(rows, b as int);
                }
                let gone = self.rows.remove(b);
                assert(self@.rows =~= rows.remove(b as int));
                true
            },
        }
    }
}

pub proof fn lemma_pushed(rows: Seq<RouteState>, created: u64, row: RouteState)
    requires
        rows_distinct(rows, created),
        created < u64::MAX,
        row.id == created,
        window::ring_wf(row.ring),
        row_recorded(row),
        !has_row(rows, row.method, row.path),
    ensures
        rows_distinct(rows.push(row), (created + 1) as u64),
{
    let more = rows.push(row);
    assert forall|i: int, j: int|
        #![trigger more[i], more[j]]
        0 <= i < j < more.len() implies {
        &&& more[i].id != more[j].id
        &&& more[i].method != more[j].method || more[i].path != more[j].path
    } by {
        if j == rows.len() {
            assert(!is_row(rows, i, row.method, row.path));
        }
    }
}

pub proof fn lemma_route_count_pushed(rows: Seq<RouteState>, row: RouteState)
    ensures
        route_count(rows.push(row)) <= route_count(rows) + 1,
        row.method == OVERFLOW_METHOD@ && row.path == OVERFLOW_PATH@ ==> route_count(
            rows.push(row),
        ) <= rows.len(),
{
    let more = rows.push(row);
    if row.method == OVERFLOW_METHOD@ && row.path == OVERFLOW_PATH@ {
        assert(is_row(more, rows.len() as int, OVERFLOW_METHOD@, OVERFLOW_PATH@));
    }
    if has_row(rows, OVERFLOW_METHOD@, OVERFLOW_PATH@) {
        let k = row_of(rows, OVERFLOW_METHOD@, OVERFLOW_PATH@);
        assert(is_row(more, k, OVERFLOW_METHOD@, OVERFLOW_PATH@));
    }
}

pub proof fn lemma_updated(rows: Seq<RouteState>, created: u64, i: int, row: RouteState)
    requires
        rows_distinct(rows, created),
        0 <= i < rows.len(),
        row.id == rows[i].id,
        row.method == rows[i].method,
        row.path == rows[i].path,
        window::ring_wf(row.ring),
        row_recorded(row),
    ensures
        rows_distinct(rows.update(i, row), created),
        route_count(rows.update(i, row)) == route_count(rows),
{
    let after = rows.update(i, row);
    if has_row(rows, OVERFLOW_METHOD@, OVERFLOW_PATH@) {
        let k = row_of(rows, OVERFLOW_METHOD@, OVERFLOW_PATH@);
        assert(is_row(after, k, OVERFLOW_METHOD@, OVERFLOW_PATH@));
    }
    if has_row(after, OVERFLOW_METHOD@, OVERFLOW_PATH@) {
        let k = row_of(after, OVERFLOW_METHOD@, OVERFLOW_PATH@);
        assert(is_row(rows, k, OVERFLOW_METHOD@, OVERFLOW_PATH@));
    }
}

impl EndpointSet {
    /// Makes room for one more row; `false` where every row is in flight.
    fn make_room(&mut self, tick: u64) -> (room: bool)
        requires
            old(self).wf(),
        ensures
            final(self).wf(),
            final(self).clock == old(self).clock,
            final(self).overrun == old(self).overrun,
            final(self).created == old(self).created,
            (final(self)@.rows, room) == with_room(old(self)@.rows, tick as int),
            room ==> route_count(final(self)@.rows) < MAX_ENDPOINTS,
            !room ==> final(self)@.rows.len() >= MAX_ENDPOINTS,
    {
        if self.rows.len() < MAX_ENDPOINTS {
            return true;
        }
        let first = self.evict_one(tick);
        if !first {
            return false;
        }
        let has_overflow = self.find(OVERFLOW_METHOD, OVERFLOW_PATH).is_some();
        proof {
            if has_overflow {
                assert(has_row(self@.rows, OVERFLOW_METHOD@, OVERFLOW_PATH@));
            }
        }
        let count: usize = if has_overflow {
            self.rows.len() - 1
        } else {
            self.rows.len()
        };
        if count < MAX_ENDPOINTS {
            return true;
        }
        self.evict_one(tick)
    }

    /// Looks up the row for a method and a path among the rows that are there,
    /// or adds it.
    fn use_row(&mut self, method: String, path: String) -> (at: usize)
        requires
            old(self).wf(),
            old(self).created < u64::MAX,
            has_row(old(self)@.rows, method@, path@) || route_count(old(self)@.rows)
                < MAX_ENDPOINTS || (method@ == OVERFLOW_METHOD@ && path@ == OVERFLOW_PATH@
                && old(self)@.rows.len() <= MAX_ENDPOINTS),
        ensures
            final(self).wf(),
            final(self)@ == used(old(self)@, old(self)@.rows, method@, path@),
            at == used_at(old(self)@.rows, method@, path@),
            at < final(self)@.rows.len(),
    {
        let ghost before = self@;
        let ghost overrun = before.overrun || before.clock == u64::MAX;
        self.overrun = Ghost(overrun);
        self.clock = self.clock.wrapping_add(1);
        match self.find(method.as_str(), path.as_str()) {
            Some(i) => {
                proof {
                    lemma_updated(
                        before.rows,
                        self.created,
                        i as int,
                        RouteState { last_used: self.clock, ..before.rows[i as int] },
                    );
                }
                let clock: u64 = self.clock;
                self.rows[i].last_used = clock;
                assert(self@.rows =~= before.rows.update(
                    i as int,
                    RouteState { last_used: clock, ..before.rows[i as int] },
                ));
                i
            },
            None => {
                let row = RouteRow {
                    id: self.created,
                    method,
                    path,
                    in_flight: 0,
                    last_used: self.clock,
                    last_observe: 0,
                    window: SlidingWindow::new(),
                };
                proof {
                    window::lemma_ring_wf(row.window);
                    lemma_pushed(before.rows, before.created, row@);
                    lemma_route_count_pushed(before.rows, row@);
                }
                let at: usize = self.rows.len();
                self.created = self.created + 1;
                self.rows.push(row);
                assert(self@.rows =~= before.rows.push(row@));
                at
            },
        }
    }

    /// Assigns a request its row: the one for its method and path, a new one in
    /// place of an idle one where the table is full, or the shared one where
    /// every row is in flight.
    pub fn route_metrics(&mut self, method: &str, path: &str, tick: u64) -> (at: usize)
        requires
            old(self).wf(),
            old(self)@.created < u64::MAX,
        ensures
            final(self).wf(),
            final(self)@ == assigned(
                old(self)@,
                route::method_name(method@),
                route::path_name(path@),
                tick as int,
            ),
            at == assigned_at(
                old(self)@,
                route::method_name(method@),
                route::path_name(path@),
                tick as int,
            ),
            at < final(self)@.rows.len(),
    {
        let method = normalize_method(method);
        let path = normalize_path(path);
        let found = self.find(method.as_str(), path.as_str()).is_some();
        proof {
            if found {
                assert(has_row(self@.rows, method@, path@));
            }
        }
        if !found && !self.make_room(tick) {
            return self.use_row(OVERFLOW_METHOD.to_owned(), OVERFLOW_PATH.to_owned());
        }
        self.use_row(method, path)
    }
}

/// The table after its row `i` was replaced.
pub open spec fn with_row(table: TableState, i: int, row: RouteState) -> TableState {
    TableState { rows: table.rows.update(i, row), ..table }
}

/// The table after a request was assigned its row and is in flight.
pub open spec fn begun(
    table: TableState,
    method: Seq<char>,
    path: Seq<char>,
    tick: int,
) -> TableState {
    let after = assigned(table, method, path, tick);
    let i = assigned_at(table, method, path, tick);
    with_row(
        after,
        i,
        RouteState { in_flight: window::bumped(after.rows[i].in_flight), ..after.rows[i] },
    )
}

/// A row after a request of it was counted.
pub open spec fn observed_row(row: RouteState, tick: u64, ns: u64, status_class: u8) -> RouteState {
    RouteState {
        last_observe: if tick == u64::MAX {
            u64::MAX
        } else {
            (tick + 1) as u64
        },
        ring: window::observed(row.ring, tick, ns, status_class),
        history: row.history.push(Observation { tick, ns, status_class }),
        ..row
    }
}

pub proof fn lemma_observed_recorded(row: RouteState, tick: u64, ns: u64, status_class: u8)
    requires
        row_recorded(row),
    ensures
        row_recorded(observed_row(row, tick, ns, status_class)),
{
    let after = observed_row(row, tick, ns, status_class);
    assert(after.history.drop_last() =~= row.history);
}

/// A row after one of its requests is no longer in flight.
pub open spec fn ended_row(row: RouteState) -> RouteState {
    RouteState {
        in_flight: if row.in_flight == 0 {
            0
        } else {
            (row.in_flight - 1) as u64
        },
        ..row
    }
}

/// Place of the row with the identity `id`, if it is still in the table.
pub open spec fn place_of(table: TableState, id: u64) -> Option<int> {
    if exists|i: int| is_row_id(table.rows, i, id) {
        Some(choose|i: int| is_row_id(table.rows, i, id))
    } else {
        None
    }
}

/// The table after a request of the row `id` was counted. A row that was evicted
/// in the meantime is gone, and so is the request.
pub open spec fn counted_in(
    table: TableState,
    id: u64,
    tick: u64,
    ns: u64,
    status_class: u8,
) -> TableState {
    match place_of(table, id) {
        Some(i) => with_row(table, i, observed_row(table.rows[i], tick, ns, status_class)),
        None => table,
    }
}

/// The table after a request of the row `id` is no longer in flight.
pub open spec fn ended(table: TableState, id: u64) -> TableState {
    match place_of(table, id) {
        Some(i) => with_row(table, i, ended_row(table.rows[i])),
        None => table,
    }
}

/// Assigning a row creates at most one, and is one use.
pub proof fn lemma_created(table: TableState, method: Seq<char>, path: Seq<char>, tick: int)
    requires
        table.created < u64::MAX,
    ensures
        table.created <= assigned(table, method, path, tick).created <= table.created + 1,
        assigned(table, method, path, tick).clock == window::bumped(table.clock),
        assigned(table, method, path, tick).overrun == (table.overrun || table.clock == u64::MAX),
        begun(table, method, path, tick).clock == window::bumped(table.clock),
        begun(table, method, path, tick).overrun == (table.overrun || table.clock == u64::MAX),
        begun(table, method, path, tick).created == assigned(table, method, path, tick).created,
{
}

impl EndpointSet {
    fn find_id(&self, id: u64) -> (at: Option<usize>)
        requires
            self.wf(),
        ensures
            match at {
                Some(i) => i < self.rows@.len() && place_of(self@, id) == Some(i as int),
                None => place_of(self@, id) is None,
            },
    {
        let ghost rows = self@.rows;
        let mut i: usize = 0;
        while i < self.rows.len()
            invariant
                i <= self.rows@.len(),
                self.wf(),
                rows == self@.rows,
                forall|j: int| 0 <= j < i ==> !is_row_id(rows, j, id),
            decreases self.rows@.len() - i,
        {
            assert(rows[i as int] == self.rows@[i as int]@);
            if self.rows[i].id == id {
                proof {
                    assert(is_row_id(rows, i as int, id));
                    let k = choose|k: int| is_row_id(rows, k, id);
                    assert(rows[k].id == rows[i as int].id);
                }
                return Some(i);
            }
            i = i + 1;
        }
        None
    }

    /// Assigns a request its row and counts it as in flight.
    pub fn begin(&mut self, method: &str, path: &str, tick: u64) -> (handle: RouteHandle)
        requires
            old(self).wf(),
            old(self)@.created < u64::MAX,
        ensures
            final(self).wf(),
            final(self)@ == begun(
                old(self)@,
                route::method_name(method@),
                route::path_name(path@),
                tick as int,
            ),
            handle.id() == final(self)@.rows[assigned_at(
                old(self)@,
                route::method_name(method@),
                route::path_name(path@),
                tick as int,
            )].id,
    {
        let at = self.route_metrics(method, path, tick);
        let ghost before = self@;
        let count: u64 = self.rows[at].in_flight.wrapping_add(1);
        proof {
            lemma_updated(
                before.rows,
                self.created,
                at as int,
                RouteState { in_flight: count, ..before.rows[at as int] },
            );
        }
        self.rows[at].in_flight = count;
        assert(self@.rows =~= before.rows.update(
            at as int,
            RouteState { in_flight: count, ..before.rows[at as int] },
        ));
        RouteHandle { id: self.rows[at].id }
    }

    fn observe_at(&mut self, at: usize, tick: u64, ns: u64, status_class: u8)
        requires
            old(self).wf(),
            at < old(self)@.rows.len(),
        ensures
            final(self).wf(),
            final(self)@ == with_row(
                old(self)@,
                at as int,
                observed_row(old(self)@.rows[at as int], tick, ns, status_class),
            ),
    {
        let ghost before = self@;
        let ghost row = observed_row(before.rows[at as int], tick, ns, status_class);
        self.rows[at].last_observe = tick.saturating_add(1);
        self.rows[at].window.observe(tick, ns, status_class);
        proof {
            window::lemma_ring_wf(self.rows@[at as int].window);
            lemma_observed_recorded(before.rows[at as int], tick, ns, status_class);
            assert(self.rows@[at as int]@ =~= row);
            lemma_updated(before.rows, self.created, at as int, row);
            assert(self@.rows =~= before.rows.update(at as int, row));
        }
    }

    /// Counts a request of an assigned row that took `ns` nanoseconds and ended
    /// in second `tick` with a status of class `status_class`.
    pub fn observe(&mut self, route: &RouteHandle, tick: u64, ns: u64, status_class: u8)
        requires
            old(self).wf(),
        ensures
            final(self).wf(),
            final(self)@ == counted_in(old(self)@, route.id(), tick, ns, status_class),
    {
        match self.find_id(route.id) {
            Some(at) => self.observe_at(at, tick, ns, status_class),
            None => {},
        }
    }

    /// Counts a request that is known only when it has ended.
    pub fn observe_path(
        &mut self,
        method: &str,
        path: &str,
        tick: u64,
        ns: u64,
        status_class: u8,
    )
        requires
            old(self).wf(),
            old(self)@.created < u64::MAX,
        ensures
            final(self).wf(),
            final(self)@ == ({
                let name = route::method_name(method@);
                let place = route::path_name(path@);
                let after = assigned(old(self)@, name, place, tick as int);
                let i = assigned_at(old(self)@, name, place, tick as int);
                with_row(after, i, observed_row(after.rows[i], tick, ns, status_class))
            }),
    {
        let at = self.route_metrics(method, path, tick);
        self.observe_at(at, tick, ns, status_class);
    }

    /// Ends a request of an assigned row.
    pub fn end(&mut self, route: &RouteHandle)
        requires
            old(self).wf(),
        ensures
            final(self).wf(),
            final(self)@ == ended(old(self)@, route.id()),
    {
        match self.find_id(route.id) {
            Some(at) => {
                let ghost before = self@;
                let current: u64 = self.rows[at].in_flight;
                let count: u64 = if current > 0 {
                    current - 1
                } else {
                    0
                };
                self.rows[at].in_flight = count;
                proof {
                    let row = ended_row(before.rows[at as int]);
                    lemma_updated(before.rows, self.created, at as int, row);
                    assert(self@.rows =~= before.rows.update(at as int, row));
                }
            },
            None => {},
        }
    }
}

/// Traffic of one route.
#[derive(Debug)]
pub struct EndpointTraffic {
    pub method: String,
    pub path: String,
    pub in_flight: u64,
    pub window_30: WindowAgg,
    pub window_60: WindowAgg,
}

impl EndpointTraffic {
    /// Whether this is what a row tells in second `tick`.
    pub open spec fn shows(&self, row: RouteState, tick: int) -> bool {
        let minute = window::last_minute(row.ring, tick);
        &&& self.method@ == row.method
        &&& self.path@ == row.path
        &&& self.in_flight == row.in_flight
        &&& self.window_60.sums_up(minute, WINDOW_SECS as int, tick)
        &&& self.window_30.sums_up(minute.skip(30), 30, tick)
    }
}

/// Whether one route is listed before another: more requests in flight first,
/// then more requests in the last minute, then by method and path.
pub open spec fn listed_before(a: EndpointTraffic, b: EndpointTraffic) -> bool {
    if a.in_flight != b.in_flight {
        a.in_flight > b.in_flight
    } else if a.window_60.requests != b.window_60.requests {
        a.window_60.requests > b.window_60.requests
    } else if a.method@ != b.method@ {
        text::comes_before(a.method@, b.method@)
    } else {
        text::comes_before(a.path@, b.path@)
    }
}

/// Whether some entry of a listing shows a row.
pub open spec fn is_listed(list: Seq<EndpointTraffic>, row: RouteState, tick: int) -> bool {
    exists|i: int| 0 <= i < list.len() && (#[trigger] list[i]).shows(row, tick)
}

/// Whether an entry of a listing shows some row.
pub open spec fn has_origin(entry: EndpointTraffic, rows: Seq<RouteState>, tick: int) -> bool {
    exists|k: int| 0 <= k < rows.len() && entry.shows(#[trigger] rows[k], tick)
}

/// Whether a listing of a table in second `tick` has one entry for each row, in
/// order.
pub open spec fn lists(list: Seq<EndpointTraffic>, rows: Seq<RouteState>, tick: int) -> bool {
    &&& list.len() == rows.len()
    &&& forall|i: int, j: int|
        #![trigger list[i], list[j]]
        0 <= i < j < list.len() ==> listed_before(list[i], list[j])
    &&& forall|k: int|
        0 <= k < rows.len() ==> #[trigger] is_listed(list, rows[k], tick)
    &&& forall|i: int| 0 <= i < list.len() ==> #[trigger] has_origin(list[i], rows, tick)
}

proof fn lemma_listing_is_total(a: EndpointTraffic, b: EndpointTraffic)
    requires
        a.method@ != b.method@ || a.path@ != b.path@,
    ensures
        listed_before(a, b) || listed_before(b, a),
        !(listed_before(a, b) && listed_before(b, a)),
{
    text::lemma_order_is_total(a.method@, b.method@);
    text::lemma_order_is_total(a.path@, b.path@);
}

proof fn lemma_listing_chains(a: EndpointTraffic, b: EndpointTraffic, c: EndpointTraffic)
    requires
        listed_before(a, b),
        listed_before(b, c),
    ensures
        listed_before(a, c),
{
    if a.in_flight == b.in_flight && b.in_flight == c.in_flight && a.window_60.requests
        == b.window_60.requests && b.window_60.requests == c.window_60.requests {
        if a.method@ == b.method@ && b.method@ == c.method@ {
            text::lemma_order_chains(a.path@, b.path@, c.path@);
        } else if a.method@ != b.method@ && b.method@ != c.method@ {
            text::lemma_order_chains(a.method@, b.method@, c.method@);
            text::lemma_order_is_total(a.method@, b.method@);
            text::lemma_order_is_total(b.method@, c.method@);
        }
    }
}

fn goes_before(a: &EndpointTraffic, b: &EndpointTraffic) -> (yes: bool)
    ensures
        yes == listed_before(*a, *b),
{
    if a.in_flight != b.in_flight {
        return a.in_flight > b.in_flight;
    }
    if a.window_60.requests != b.window_60.requests {
        return a.window_60.requests > b.window_60.requests;
    }
    let a_method = chars_of(a.method.as_str());
    let b_method = chars_of(b.method.as_str());
    match order(a_method.as_slice(), b_method.as_slice()) {
        Some(first) => first,
        None => {
            let a_path = chars_of(a.path.as_str());
            let b_path = chars_of(b.path.as_str());
            proof {
                text::lemma_order_is_total(a.path@, b.path@);
            }
            match order(a_path.as_slice(), b_path.as_slice()) {
                Some(first) => first,
                None => false,
            }
        },
    }
}

impl EndpointSet {
    /// Whether every ring in the table can be read in second `tick`.
    pub open spec fn readable(&self, tick: int) -> bool {
        forall|k: int|
            0 <= k < self@.rows.len() ==> window::sums_fit(
                window::last_minute((#[trigger] self@.rows[k]).ring, tick),
            )
    }

    /// Tests whether every ring in the table can be read in second `tick`.
    pub fn is_readable(&self, tick: u64) -> (fits: bool)
        requires
            self.wf(),
        ensures
            fits == self.readable(tick as int),
    {
        let mut k: usize = 0;
        while k < self.rows.len()
            invariant
                k <= self.rows@.len(),
                self.wf(),
                forall|j: int|
                    0 <= j < k ==> window::sums_fit(
                        window::last_minute((#[trigger] self@.rows[j]).ring, tick as int),
                    ),
            decreases self.rows@.len() - k,
        {
            assert(self@.rows[k as int] == self.rows@[k as int]@);
            if !self.rows[k].window.is_readable(tick) {
                return false;
            }
            k = k + 1;
        }
        true
    }

    fn traffic_of(&self, k: usize, tick: u64) -> (entry: EndpointTraffic)
        requires
            self.wf(),
            k < self@.rows.len(),
            self.readable(tick as int),
        ensures
            entry.shows(self@.rows[k as int], tick as int),
    {
        let row = &self.rows[k];
        assert(self@.rows[k as int] == row@);
        let traffic = row.window.snapshot(tick, 0);
        EndpointTraffic {
            method: row.method.clone(),
            path: row.path.clone(),
            in_flight: row.in_flight,
            window_30: traffic.window_30,
            window_60: traffic.window_60,
        }
    }

    /// The routes of the table with their traffic in second `tick`: those with
    /// requests in flight first, then the busiest.
    pub fn snapshot(&self, tick: u64) -> (list: Vec<EndpointTraffic>)
        requires
            self.wf(),
            self.readable(tick as int),
        ensures
            lists(list@, self@.rows, tick as int),
    {
        let ghost rows = self@.rows;
        let ghost mut from: Seq<int> = Seq::empty();
        let mut list: Vec<EndpointTraffic> = Vec::new();
        let mut k: usize = 0;
        while k < self.rows.len()
            invariant
                k <= self.rows@.len(),
                self.wf(),
                self.readable(tick as int),
                rows == self@.rows,
                list@.len() == k,
                from.len() == k,
                forall|i: int|
                    0 <= i < k ==> 0 <= #[trigger] from[i] < k && list@[i].shows(
                        rows[from[i]],
                        tick as int,
                    ),
                forall|r: int| 0 <= r < k ==> #[trigger] from.contains(r),
                forall|i: int, j: int|
                    #![trigger list@[i], list@[j]]
                    0 <= i < j < k ==> listed_before(list@[i], list@[j]),
            decreases self.rows@.len() - k,
        {
            let entry = self.traffic_of(k, tick);
            let ghost before = list@;
            let ghost old_from = from;
            let mut p: usize = 0;
            while p < list.len() && goes_before(&list[p], &entry)
                invariant
                    p <= list@.len(),
                    list@ == before,
                    forall|i: int| 0 <= i < p ==> listed_before(#[trigger] before[i], entry),
                decreases list@.len() - p,
            {
                p = p + 1;
            }
            proof {
                assert forall|i: int| p <= i < before.len() implies listed_before(
                    entry,
                    #[trigger] before[i],
                ) by {
                    let r = old_from[p as int];
                    assert(before[p as int].shows(rows[r], tick as int));
                    assert(rows[r].method != rows[k as int].method || rows[r].path
                        != rows[k as int].path);
                    lemma_listing_is_total(before[p as int], entry);
                    if i > p {
                        assert(listed_before(before[p as int], before[i]));
                        lemma_listing_chains(entry, before[p as int], before[i]);
                    }
                }
            }
            let ghost kept = entry;
            list.insert(p, entry);
            proof {
                from = old_from.insert(p as int, k as int);
                assert(list@ == before.insert(p as int, kept));
                assert forall|i: int, j: int|
                    #![trigger list@[i], list@[j]]
                    0 <= i < j < k + 1 implies listed_before(list@[i], list@[j]) by {
                    let a = if i < p {
                        i
                    } else {
                        i - 1
                    };
                    let b = if j < p {
                        j
                    } else {
                        j - 1
                    };
                    if i == p {
                        assert(list@[j] == before[b]);
                    } else if j == p {
                        assert(list@[i] == before[a]);
                    } else {
                        assert(list@[i] == before[a]);
                        assert(list@[j] == before[b]);
                        assert(listed_before(before[a], before[b]));
                    }
                }
                assert forall|i: int| 0 <= i < k + 1 implies 0 <= #[trigger] from[i] < k + 1
                    && list@[i].shows(rows[from[i]], tick as int) by {
                    if i < p {
                        assert(from[i] == old_from[i]);
                    } else if i > p {
                        assert(from[i] == old_from[i - 1]);
                    }
                }
                assert forall|r: int| 0 <= r < k + 1 implies #[trigger] from.contains(r) by {
                    if r == k {
                        assert(from[p as int] == r);
                    } else {
                        assert(old_from.contains(r));
                        let i = choose|i: int| 0 <= i < old_from.len() && old_from[i] == r;
                        if i < p {
                            assert(from[i] == r);
                        } else {
                            assert(from[i + 1] == r);
                        }
                    }
                }
            }
            k = k + 1;
        }
        proof {
            assert forall|r: int| 0 <= r < rows.len() implies #[trigger] is_listed(
                list@,
                rows[r],
                tick as int,
            ) by {
                assert(from.contains(r));
                let i = choose|i: int| 0 <= i < from.len() && from[i] == r;
                assert(list@[i].shows(rows[from[i]], tick as int));
            }
            assert forall|i: int| 0 <= i < list@.len() implies #[trigger] has_origin(
                list@[i],
                rows,
                tick as int,
            ) by {
                assert(list@[i].shows(rows[from[i]], tick as int));
            }
        }
        list
    }
}

} // verus!
