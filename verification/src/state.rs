//! The browser's interactive state: which board is shown, how each board is
//! loaded, sorted, filtered and viewed, and which row is selected.

use vstd::prelude::*;
use vstd::view::View as _;

use crate::aa::Model;
use crate::board::{board_at, board_index, Board, BoardRow, Data, Status, BOARD_COUNT};
use crate::filter::{filter_indices, filter_tokens, matching_rows, query_tokens, seqs_of};
use crate::sort::{
    data_sorted, sort_with, spec_toggle, AaKey, AaSort, AgentKey, AgentSort, DeepSweKey,
    DeepSweSort, SortDir,
};
use crate::text::{char_is_control, is_control, pop_char, push_char};

verus! {

broadcast use vstd::string::group_string_axioms;

/// How a board's rows are drawn.
#[derive(Debug, Clone, Copy, PartialEq, Eq, Structural)]
pub enum View {
    Table,
    Chart,
}

/// The filter result last computed for a board.
struct FilterCache {
    query: String,
    indices: Vec<usize>,
}

/// The state of the browser.
pub struct AppState {
    current: usize,
    status: Vec<Option<Status>>,
    selected: Vec<Option<usize>>,
    views: Vec<View>,
    filters: Vec<String>,
    caches: Vec<Option<FilterCache>>,
    filter_editing: bool,
    help_open: bool,
    compact: bool,
    aa_sort: AaSort,
    agent_sort: AgentSort,
    deepswe_sort: DeepSweSort,
}

/// What the browser's state amounts to: per board (by tab position) its
/// loading status, selected row, view and filter query, and the settings
/// shared by all boards.
pub struct AppModel {
    pub current: int,
    pub status: Seq<Option<Status>>,
    pub selected: Seq<Option<usize>>,
    pub views: Seq<View>,
    pub filters: Seq<Seq<char>>,
    pub filter_editing: bool,
    pub help_open: bool,
    pub compact: bool,
    pub aa_sort: AaSort,
    pub agent_sort: AgentSort,
    pub deepswe_sort: DeepSweSort,
}

/// The positions of the rows a board shows under the filter `q`: the rows
/// that the query's tokens match, when the board has loaded.
pub open spec fn rows_matching(st: Option<Status>, q: Seq<char>) -> Seq<usize> {
    match st {
        Some(Status::Loaded(d)) => matching_rows(d, query_tokens(q)),
        _ => Seq::empty(),
    }
}

/// How many rows board `b` shows.
pub open spec fn row_count(m: AppModel, b: int) -> nat {
    rows_matching(m.status[b], m.filters[b]).len()
}

/// The selection after the rows changed: the first row, when there is one.
pub open spec fn first_row(count: nat) -> Option<usize> {
    if count > 0 {
        Some(0)
    } else {
        None
    }
}

/// A selection kept within `count` rows.
pub open spec fn clamped(sel: Option<usize>, count: nat) -> Option<usize> {
    if count == 0 {
        None
    } else {
        let k = match sel {
            Some(k) => k as int,
            None => 0,
        };
        Some((if k < count - 1 { k } else { count - 1 }) as usize)
    }
}

/// The model is shaped as the boards are: one entry per board, and the
/// current board is one of them.
pub open spec fn model_ok(m: AppModel) -> bool {
    &&& 0 <= m.current < BOARD_COUNT
    &&& m.status.len() == BOARD_COUNT
    &&& m.selected.len() == BOARD_COUNT
    &&& m.views.len() == BOARD_COUNT
    &&& m.filters.len() == BOARD_COUNT
}

/// `m` with the selection of board `b` replaced.
pub open spec fn with_selected(m: AppModel, b: int, sel: Option<usize>) -> AppModel {
    AppModel { selected: m.selected.update(b, sel), ..m }
}

/// The AA sort key a key press picks.
pub open spec fn aa_key_for(c: char) -> Option<AaKey> {
    if c == 'i' {
        Some(AaKey::Intelligence)
    } else if c == 's' {
        Some(AaKey::Speed)
    } else if c == 'p' {
        Some(AaKey::Price)
    } else if c == 'c' {
        Some(AaKey::Context)
    } else if c == 'd' {
        Some(AaKey::Cache)
    } else {
        None
    }
}

/// The AA Agents sort key a key press picks.
pub open spec fn agent_key_for(c: char) -> Option<AgentKey> {
    if c == 'i' {
        Some(AgentKey::Index)
    } else if c == 'a' {
        Some(AgentKey::Pass)
    } else if c == 'p' {
        Some(AgentKey::Cost)
    } else if c == 't' {
        Some(AgentKey::Time)
    } else if c == 'u' {
        Some(AgentKey::Tokens)
    } else if c == 's' {
        Some(AgentKey::Turns)
    } else {
        None
    }
}

/// The DeepSWE sort key a key press picks.
pub open spec fn deepswe_key_for(c: char) -> Option<DeepSweKey> {
    if c == 'a' {
        Some(DeepSweKey::Pass)
    } else if c == 'p' {
        Some(DeepSweKey::Cost)
    } else if c == 't' {
        Some(DeepSweKey::Time)
    } else if c == 'u' {
        Some(DeepSweKey::Tokens)
    } else if c == 's' {
        Some(DeepSweKey::Steps)
    } else {
        None
    }
}

/// Pressing the key of the current sort key reverses it; pressing another
/// key sorts by that key, cheapest first for price and highest first
/// otherwise.
pub open spec fn next_aa_sort(s: AaSort, c: char) -> AaSort {
    match aa_key_for(c) {
        Some(k) => if s.key == k {
            AaSort { dir: spec_toggle(s.dir), ..s }
        } else {
            AaSort { key: k, dir: if k == AaKey::Price { SortDir::Asc } else { SortDir::Desc } }
        },
        None => s,
    }
}

/// As for AA; cost, time, tokens and turns sort lowest first.
pub open spec fn next_agent_sort(s: AgentSort, c: char) -> AgentSort {
    match agent_key_for(c) {
        Some(k) => if s.key == k {
            AgentSort { dir: spec_toggle(s.dir), ..s }
        } else {
            AgentSort {
                key: k,
                dir: if k == AgentKey::Cost || k == AgentKey::Time || k == AgentKey::Tokens || k
                    == AgentKey::Turns {
                    SortDir::Asc
                } else {
                    SortDir::Desc
                },
            }
        },
        None => s,
    }
}

/// As for AA; cost, time and tokens sort lowest first.
pub open spec fn next_deepswe_sort(s: DeepSweSort, c: char) -> DeepSweSort {
    match deepswe_key_for(c) {
        Some(k) => if s.key == k {
            DeepSweSort { dir: spec_toggle(s.dir), ..s }
        } else {
            DeepSweSort {
                key: k,
                dir: if k == DeepSweKey::Cost || k == DeepSweKey::Time || k == DeepSweKey::Tokens {
                    SortDir::Asc
                } else {
                    SortDir::Desc
                },
            }
        },
        None => s,
    }
}

/// `m2` is `m` with its sorts replaced and the current board re-sorted by
/// them: its rows (when loaded) in the new order and its first row
/// selected.
pub open spec fn resorted(m2: AppModel, m: AppModel, aa: AaSort, agent: AgentSort, deepswe: DeepSweSort) -> bool {
    let c = m.current;
    &&& match m.status[c] {
        Some(Status::Loaded(d)) => m2.status[c] matches Some(Status::Loaded(d2)) && data_sorted(
            d2,
            d,
            aa,
            agent,
            deepswe,
        ),
        _ => m2.status[c] == m.status[c],
    }
    &&& m2 == AppModel {
        status: m.status.update(c, m2.status[c]),
        selected: m.selected.update(c, first_row(rows_matching(m2.status[c], m.filters[c]).len())),
        aa_sort: aa,
        agent_sort: agent,
        deepswe_sort: deepswe,
        ..m
    }
}


/// The current board's view switched between table and chart.
pub open spec fn after_toggle_view(m: AppModel) -> AppModel {
    AppModel {
        views: m.views.update(
            m.current,
            if m.views[m.current] == View::Table {
                View::Chart
            } else {
                View::Table
            },
        ),
        ..m
    }
}

/// The board at tab `idx` shown, its selection kept within its rows; an
/// index past the tabs changes nothing.
pub open spec fn after_select_board(m: AppModel, idx: int) -> AppModel {
    if 0 <= idx < BOARD_COUNT {
        with_selected(AppModel { current: idx, ..m }, idx, clamped(m.selected[idx], row_count(m, idx)))
    } else {
        m
    }
}

/// The board `delta` tabs along shown, wrapping around, its selection
/// kept within its rows.
pub open spec fn after_cycle_board(m: AppModel, delta: int) -> AppModel {
    let next = (m.current + delta) % (BOARD_COUNT as int);
    with_selected(AppModel { current: next, ..m }, next, clamped(m.selected[next], row_count(m, next)))
}

/// The selection of the current board moved `step` rows down, kept on the
/// last row; nothing happens on a board that shows no rows.
pub open spec fn moved_down_by(m: AppModel, step: int) -> AppModel {
    let n = row_count(m, m.current);
    let k: int = match m.selected[m.current] {
        Some(k) => k + step,
        None => 0,
    };
    if n == 0 {
        m
    } else {
        with_selected(m, m.current, Some((if k < n - 1 { k } else { n - 1 }) as usize))
    }
}

/// The selection of the current board moved `step` rows up, kept on the
/// first row.
pub open spec fn moved_up_by(m: AppModel, step: int) -> AppModel {
    let k: int = match m.selected[m.current] {
        Some(k) => k as int,
        None => 0,
    };
    with_selected(m, m.current, Some((if k >= step { k - step } else { 0 }) as usize))
}

pub open spec fn after_move_down(m: AppModel) -> AppModel {
    moved_down_by(m, 1)
}

pub open spec fn after_move_up(m: AppModel) -> AppModel {
    moved_up_by(m, 1)
}

pub open spec fn after_page_down(m: AppModel) -> AppModel {
    moved_down_by(m, 10)
}

pub open spec fn after_page_up(m: AppModel) -> AppModel {
    moved_up_by(m, 10)
}

/// The first row of the current board selected, when it shows any.
pub open spec fn after_move_to_top(m: AppModel) -> AppModel {
    if row_count(m, m.current) > 0 {
        with_selected(m, m.current, Some(0))
    } else {
        m
    }
}

/// The last row of the current board selected, when it shows any.
pub open spec fn after_move_to_bottom(m: AppModel) -> AppModel {
    let n = row_count(m, m.current);
    if n > 0 {
        with_selected(m, m.current, Some((n - 1) as usize))
    } else {
        m
    }
}

/// The current board's filter set to `q`, and its first row selected.
pub open spec fn with_filter(m: AppModel, q: Seq<char>) -> AppModel {
    let m2 = AppModel { filters: m.filters.update(m.current, q), ..m };
    with_selected(m2, m.current, first_row(row_count(m2, m.current)))
}

/// `c` typed into the current board's filter; control characters change
/// nothing.
pub open spec fn after_push_filter(m: AppModel, c: char) -> AppModel {
    if is_control(c) {
        m
    } else {
        with_filter(m, m.filters[m.current].push(c))
    }
}

/// The last character of the current board's filter deleted.
pub open spec fn after_pop_filter(m: AppModel) -> AppModel {
    let q = m.filters[m.current];
    with_filter(m, if q.len() > 0 { q.drop_last() } else { q })
}

/// The current board's filter cleared.
pub open spec fn after_clear_filter(m: AppModel) -> AppModel {
    with_filter(m, Seq::empty())
}

/// `m2` is `m` after board `b` reported `st`: loaded rows are stored sorted
/// by the board's sort with the first row selected; any other status is
/// stored as it is and the selection stays.
pub open spec fn status_recorded(m2: AppModel, m: AppModel, b: int, st: Status) -> bool {
    match st {
        Status::Loaded(d) => {
            &&& m2.status[b] matches Some(Status::Loaded(d2)) && data_sorted(
                d2,
                d,
                m.aa_sort,
                m.agent_sort,
                m.deepswe_sort,
            )
            &&& m2 == AppModel {
                status: m.status.update(b, m2.status[b]),
                selected: m.selected.update(
                    b,
                    first_row(rows_matching(m2.status[b], m.filters[b]).len()),
                ),
                ..m
            }
        },
        _ => m2 == AppModel { status: m.status.update(b, Some(st)), ..m },
    }
}

/// The AA sort after the key `c` on the current board.
pub open spec fn cycled_aa(m: AppModel, c: char) -> AaSort {
    if board_at(m.current) == Board::Aa { next_aa_sort(m.aa_sort, c) } else { m.aa_sort }
}

pub open spec fn cycled_agent(m: AppModel, c: char) -> AgentSort {
    if board_at(m.current) == Board::AaAgents { next_agent_sort(m.agent_sort, c) } else { m.agent_sort }
}

pub open spec fn cycled_deepswe(m: AppModel, c: char) -> DeepSweSort {
    if board_at(m.current) == Board::DeepSwe { next_deepswe_sort(m.deepswe_sort, c) } else { m.deepswe_sort }
}

/// The AA sort after reversing the current board's direction.
pub open spec fn flipped_aa(m: AppModel) -> AaSort {
    if board_at(m.current) == Board::Aa { AaSort { dir: spec_toggle(m.aa_sort.dir), ..m.aa_sort } } else { m.aa_sort }
}

pub open spec fn flipped_agent(m: AppModel) -> AgentSort {
    if board_at(m.current) == Board::AaAgents { AgentSort { dir: spec_toggle(m.agent_sort.dir), ..m.agent_sort } } else { m.agent_sort }
}

pub open spec fn flipped_deepswe(m: AppModel) -> DeepSweSort {
    if board_at(m.current) == Board::DeepSwe { DeepSweSort { dir: spec_toggle(m.deepswe_sort.dir), ..m.deepswe_sort } } else { m.deepswe_sort }
}

/// The name of row `i` of a loaded board.
pub open spec fn row_name(st: Option<Status>, i: int) -> Option<Seq<char>> {
    match st {
        Some(Status::Loaded(Data::Aa(v))) => if 0 <= i < v@.len() { Some(v@[i].name@) } else { None },
        Some(Status::Loaded(Data::AaAgents(v))) => if 0 <= i < v@.len() { Some(v@[i].label@) } else { None },
        Some(Status::Loaded(Data::DeepSwe(v))) => if 0 <= i < v@.len() { Some(v@[i].label@) } else { None },
        _ => None,
    }
}

/// The name of the selected row of the board on screen, among the rows the
/// board shows.
pub open spec fn spec_selected_name(m: AppModel) -> Option<Seq<char>> {
    let c = m.current;
    let shown = rows_matching(m.status[c], m.filters[c]);
    let k: int = match m.selected[c] {
        Some(k) => k as int,
        None => 0,
    };
    if k < shown.len() {
        row_name(m.status[c], shown[k] as int)
    } else {
        None
    }
}

impl AppState {
    /// What this state amounts to.
    pub closed spec fn model(&self) -> AppModel {
        AppModel {
            current: self.current as int,
            status: self.status@,
            selected: self.selected@,
            views: self.views@,
            filters: self.filters@.map_values(|s: String| s@),
            filter_editing: self.filter_editing,
            help_open: self.help_open,
            compact: self.compact,
            aa_sort: self.aa_sort,
            agent_sort: self.agent_sort,
            deepswe_sort: self.deepswe_sort,
        }
    }
}

impl AppState {
    /// The state is shaped as the boards are, and each cached filter result
    /// is what the filter gives on the board's current rows.
    pub closed spec fn wf(&self) -> bool {
        &&& self.current < BOARD_COUNT
        &&& self.status@.len() == BOARD_COUNT
        &&& self.selected@.len() == BOARD_COUNT
        &&& self.views@.len() == BOARD_COUNT
        &&& self.filters@.len() == BOARD_COUNT
        &&& self.caches@.len() == BOARD_COUNT
        &&& forall|b: int|
            0 <= b < BOARD_COUNT && (#[trigger] self.caches@[b]) is Some ==> self.caches@[b]->0.indices@
                == rows_matching(self.status@[b], self.caches@[b]->0.query@)
    }

    pub proof fn lemma_model_ok(&self)
        requires
            self.wf(),
        ensures
            model_ok(self.model()),
    {
    }

    /// A fresh state: the first board, nothing loaded, tables, no filters,
    /// and each board sorted by its headline metric, highest first.
    pub fn new() -> (s: Self)
        ensures
            s.wf(),
            s.model().current == 0,
            s.model().status == seq![None::<Status>, None, None],
            s.model().selected == seq![None::<usize>, None, None],
            s.model().views == seq![View::Table, View::Table, View::Table],
            s.model().filters == seq![Seq::<char>::empty(), Seq::empty(), Seq::empty()],
            !s.model().filter_editing,
            !s.model().help_open,
            !s.model().compact,
            s.model().aa_sort == (AaSort { key: AaKey::Intelligence, dir: SortDir::Desc }),
            s.model().agent_sort == (AgentSort { key: AgentKey::Index, dir: SortDir::Desc }),
            s.model().deepswe_sort == (DeepSweSort { key: DeepSweKey::Pass, dir: SortDir::Desc }),
    {
        let mut status: Vec<Option<Status>> = Vec::new();
        status.push(None);
        status.push(None);
        status.push(None);
        let mut filters: Vec<String> = Vec::new();
        filters.push(String::new());
        filters.push(String::new());
        filters.push(String::new());
        let mut caches: Vec<Option<FilterCache>> = Vec::new();
        caches.push(None);
        caches.push(None);
        caches.push(None);
        let s = AppState {
            current: 0,
            status,
            selected: vec![None, None, None],
            views: vec![View::Table, View::Table, View::Table],
            filters,
            caches,
            filter_editing: false,
            help_open: false,
            compact: false,
            aa_sort: AaSort { key: AaKey::Intelligence, dir: SortDir::Desc },
            agent_sort: AgentSort { key: AgentKey::Index, dir: SortDir::Desc },
            deepswe_sort: DeepSweSort { key: DeepSweKey::Pass, dir: SortDir::Desc },
        };
        assert(s.model().filters =~= seq![Seq::<char>::empty(), Seq::empty(), Seq::empty()]);
        assert(s.model().status =~= seq![None::<Status>, None, None]);
        s
    }

    /// The board on screen.
    pub fn current_board(&self) -> (b: Board)
        requires
            self.wf(),
        ensures
            b == board_at(self.model().current),
    {
        Board::at(self.current)
    }

    /// The tab position of the board on screen.
    pub fn current_index(&self) -> (i: usize)
        requires
            self.wf(),
        ensures
            i == self.model().current,
    {
        self.current
    }

    /// The boards, in tab order.
    pub fn boards(&self) -> (v: Vec<Board>)
        ensures
            v@.len() == BOARD_COUNT,
            forall|i: int| 0 <= i < BOARD_COUNT ==> #[trigger] v@[i] == board_at(i),
    {
        Board::all()
    }

    /// How the board on screen is drawn.
    pub fn current_view(&self) -> (v: View)
        requires
            self.wf(),
        ensures
            v == self.model().views[self.model().current],
    {
        self.views[self.current]
    }

    /// How `board` is drawn.
    pub fn view_of(&self, board: Board) -> (v: View)
        requires
            self.wf(),
        ensures
            v == self.model().views[board_index(board)],
    {
        self.views[board.index()]
    }

    pub fn toggle_help(&mut self)
        requires
            old(self).wf(),
        ensures
            final(self).wf(),
            final(self).model() == (AppModel { help_open: !old(self).model().help_open, ..old(self).model() }),
    {
        self.help_open = !self.help_open;
    }

    pub fn close_help(&mut self)
        requires
            old(self).wf(),
        ensures
            final(self).wf(),
            final(self).model() == (AppModel { help_open: false, ..old(self).model() }),
    {
        self.help_open = false;
    }

    pub fn is_help_open(&self) -> (r: bool)
        ensures
            r == self.model().help_open,
    {
        self.help_open
    }

    /// Tighter column spacing, on or off.
    pub fn toggle_compact(&mut self)
        requires
            old(self).wf(),
        ensures
            final(self).wf(),
            final(self).model() == (AppModel { compact: !old(self).model().compact, ..old(self).model() }),
    {
        self.compact = !self.compact;
    }

    pub fn is_compact(&self) -> (r: bool)
        ensures
            r == self.model().compact,
    {
        self.compact
    }

    pub fn aa_sort(&self) -> (r: AaSort)
        ensures
            r == self.model().aa_sort,
    {
        self.aa_sort
    }

    pub fn agent_sort(&self) -> (r: AgentSort)
        ensures
            r == self.model().agent_sort,
    {
        self.agent_sort
    }

    pub fn deepswe_sort(&self) -> (r: DeepSweSort)
        ensures
            r == self.model().deepswe_sort,
    {
        self.deepswe_sort
    }

    /// Switches the board on screen between table and chart.
    pub fn toggle_view(&mut self)
        requires
            old(self).wf(),
        ensures
            final(self).wf(),
            final(self).model() == after_toggle_view(old(self).model()),
    {
        let next = match self.views[self.current] {
            View::Table => View::Chart,
            View::Chart => View::Table,
        };
        let c = self.current;
        self.views[c] = next;
    }

    /// The loading status of `board`, if it was ever asked for.
    pub fn status(&self, board: Board) -> (r: Option<&Status>)
        requires
            self.wf(),
        ensures
            match self.model().status[board_index(board)] {
                Some(st) => r == Some(&st),
                None => r is None,
            },
    {
        self.status[board.index()].as_ref()
    }

    /// The selected row of `board`, if any.
    pub fn selected(&self, board: Board) -> (r: Option<usize>)
        requires
            self.wf(),
        ensures
            r == self.model().selected[board_index(board)],
    {
        self.selected[board.index()]
    }

    /// How many rows board `b` shows.
    fn count_rows(&self, b: usize) -> (n: usize)
        requires
            self.wf(),
            b < BOARD_COUNT,
        ensures
            n == row_count(self.model(), b as int),
    {
        match &self.status[b] {
            Some(Status::Loaded(d)) => {
                let toks = filter_tokens(self.filters[b].as_str());
                assert(seqs_of(toks@) =~= query_tokens(self.model().filters[b as int]));
                let idx = filter_indices(d, &toks);
                idx.len()
            },
            _ => 0,
        }
    }

    /// How many rows `board` shows under its filter.
    pub fn row_count(&self, board: Board) -> (n: usize)
        requires
            self.wf(),
        ensures
            n == row_count(self.model(), board_index(board)),
    {
        self.count_rows(board.index())
    }

    /// The selected row of the board on screen, the first when none is.
    pub fn selected_idx(&self) -> (r: usize)
        requires
            self.wf(),
        ensures
            r == match self.model().selected[self.model().current] {
                Some(k) => k,
                None => 0,
            },
    {
        match self.selected[self.current] {
            Some(k) => k,
            None => 0,
        }
    }

    /// Selects the first row of board `b`, or none when it shows none.
    fn reset_selection(&mut self, b: usize)
        requires
            old(self).wf(),
            b < BOARD_COUNT,
        ensures
            final(self).wf(),
            final(self).model() == with_selected(old(self).model(), b as int, first_row(row_count(old(self).model(), b as int))),
    {
        let len = self.count_rows(b);
        self.selected[b] = if len > 0 {
            Some(0)
        } else {
            None
        };
        assert(self.model().filters =~= old(self).model().filters);
    }

    /// Keeps the selection of board `b` within the rows it shows.
    fn clamp_selection(&mut self, b: usize)
        requires
            old(self).wf(),
            b < BOARD_COUNT,
        ensures
            final(self).wf(),
            final(self).model() == with_selected(
                old(self).model(),
                b as int,
                clamped(old(self).model().selected[b as int], row_count(old(self).model(), b as int)),
            ),
    {
        let len = self.count_rows(b);
        if len == 0 {
            self.selected[b] = None;
        } else {
            let k = match self.selected[b] {
                Some(k) => k,
                None => 0,
            };
            self.selected[b] = Some(if k < len - 1 { k } else { len - 1 });
        }
        assert(self.model().filters =~= old(self).model().filters);
    }

    /// Shows the board at tab position `idx`, when there is one, keeping
    /// its selection within its rows.
    pub fn select_board(&mut self, idx: usize)
        requires
            old(self).wf(),
        ensures
            final(self).wf(),
            final(self).model() == after_select_board(old(self).model(), idx as int),
    {
        if idx >= BOARD_COUNT {
            return;
        }
        self.current = idx;
        self.clamp_selection(idx);
    }

    /// Moves `delta` tabs along, wrapping around, keeping the new board's
    /// selection within its rows.
    pub fn cycle_board(&mut self, delta: i32)
        requires
            old(self).wf(),
            old(self).model().current + delta <= i32::MAX,
        ensures
            final(self).wf(),
            final(self).model() == after_cycle_board(old(self).model(), delta as int),
    {
        let cur = self.current;
        let t: u64 = (cur as i64 + delta as i64 + 6442450944i64) as u64;
        let next: usize = (t % 3) as usize;
        assert(next == (cur + delta) % 3) by (nonlinear_arith)
            requires
                t == cur + delta + 6442450944,
                next == t % 3,
        ;
        self.current = next;
        self.clamp_selection(next);
    }

    /// Moves the selection one row down, stopping at the last row.
    pub fn move_down(&mut self)
        requires
            old(self).wf(),
        ensures
            final(self).wf(),
            final(self).model() == after_move_down(old(self).model()),
    {
        let c = self.current;
        let len = self.count_rows(c);
        if len == 0 {
            return;
        }
        let k = match self.selected[c] {
            Some(k) => k.saturating_add(1),
            None => 0,
        };
        self.selected[c] = Some(if k < len - 1 { k } else { len - 1 });
        assert(self.model().filters =~= old(self).model().filters);
    }

    /// Moves the selection one row up, stopping at the first row.
    pub fn move_up(&mut self)
        requires
            old(self).wf(),
        ensures
            final(self).wf(),
            final(self).model() == after_move_up(old(self).model()),
    {
        let c = self.current;
        let k = match self.selected[c] {
            Some(k) => k,
            None => 0,
        };
        self.selected[c] = Some(k.saturating_sub(1));
        assert(self.model().filters =~= old(self).model().filters);
    }

    /// Moves the selection ten rows down, stopping at the last row.
    pub fn move_page_down(&mut self)
        requires
            old(self).wf(),
        ensures
            final(self).wf(),
            final(self).model() == after_page_down(old(self).model()),
    {
        let c = self.current;
        let len = self.count_rows(c);
        if len == 0 {
            return;
        }
        let k = match self.selected[c] {
            Some(k) => k.saturating_add(10),
            None => 0,
        };
        self.selected[c] = Some(if k < len - 1 { k } else { len - 1 });
        assert(self.model().filters =~= old(self).model().filters);
    }

    /// Moves the selection ten rows up, stopping at the first row.
    pub fn move_page_up(&mut self)
        requires
            old(self).wf(),
        ensures
            final(self).wf(),
            final(self).model() == after_page_up(old(self).model()),
    {
        let c = self.current;
        let k = match self.selected[c] {
            Some(k) => k,
            None => 0,
        };
        self.selected[c] = Some(k.saturating_sub(10));
        assert(self.model().filters =~= old(self).model().filters);
    }

    /// Selects the first row, when the board shows any.
    pub fn move_to_top(&mut self)
        requires
            old(self).wf(),
        ensures
            final(self).wf(),
            final(self).model() == after_move_to_top(old(self).model()),
    {
        let c = self.current;
        if self.count_rows(c) > 0 {
            self.selected[c] = Some(0);
        }
        assert(self.model().filters =~= old(self).model().filters);
    }

    /// Selects the last row, when the board shows any.
    pub fn move_to_bottom(&mut self)
        requires
            old(self).wf(),
        ensures
            final(self).wf(),
            final(self).model() == after_move_to_bottom(old(self).model()),
    {
        let c = self.current;
        let len = self.count_rows(c);
        if len > 0 {
            self.selected[c] = Some(len - 1);
        }
        assert(self.model().filters =~= old(self).model().filters);
    }

    /// Records how far `board`'s loading got. Loaded rows are sorted by the
    /// board's sort and the first row is selected; the selection stays
    /// otherwise.
    pub fn set_status(&mut self, board: Board, status: Status)
        requires
            old(self).wf(),
        ensures
            final(self).wf(),
            status_recorded(final(self).model(), old(self).model(), board_index(board), status),
    {
        let b = board.index();
        match status {
            Status::Loaded(mut data) => {
                sort_with(&mut data, &self.aa_sort, &self.agent_sort, &self.deepswe_sort);
                self.status[b] = Some(Status::Loaded(data));
                self.caches[b] = None;
                assert(self.model().filters =~= old(self).model().filters);
                self.reset_selection(b);
            },
            other => {
                self.status[b] = Some(other);
                self.caches[b] = None;
                assert(self.model().filters =~= old(self).model().filters);
            },
        }
    }

    /// Starts editing the filter of the board on screen.
    pub fn begin_filter(&mut self)
        requires
            old(self).wf(),
        ensures
            final(self).wf(),
            final(self).model() == (AppModel { filter_editing: true, ..old(self).model() }),
    {
        self.filter_editing = true;
    }

    /// Stops editing the filter; the filter stays applied.
    pub fn finish_filter(&mut self)
        requires
            old(self).wf(),
        ensures
            final(self).wf(),
            final(self).model() == (AppModel { filter_editing: false, ..old(self).model() }),
    {
        self.filter_editing = false;
    }

    pub fn is_filter_editing(&self) -> (r: bool)
        ensures
            r == self.model().filter_editing,
    {
        self.filter_editing
    }

    /// The filter query of `board`; empty when it has none.
    pub fn filter_query(&self, board: Board) -> (r: &str)
        requires
            self.wf(),
        ensures
            r@ == self.model().filters[board_index(board)],
    {
        self.filters[board.index()].as_str()
    }

    /// The filter query of the board on screen.
    pub fn current_filter(&self) -> (r: &str)
        requires
            self.wf(),
        ensures
            r@ == self.model().filters[self.model().current],
    {
        self.filters[self.current].as_str()
    }

    /// Types `c` into the filter of the board on screen and selects the
    /// first row it shows; control characters are ignored.
    pub fn push_filter_char(&mut self, c: char)
        requires
            old(self).wf(),
        ensures
            final(self).wf(),
            final(self).model() == after_push_filter(old(self).model(), c),
    {
        if char_is_control(c) {
            return;
        }
        let b = self.current;
        push_char(&mut self.filters[b], c);
        self.caches[b] = None;
        assert(self.model().filters =~= old(self).model().filters.update(b as int, old(self).model().filters[b as int].push(c)));
        self.reset_selection(b);
    }

    /// Deletes the last character of the filter of the board on screen and
    /// selects the first row it shows.
    pub fn pop_filter_char(&mut self)
        requires
            old(self).wf(),
        ensures
            final(self).wf(),
            final(self).model() == after_pop_filter(old(self).model()),
    {
        let b = self.current;
        let _ = pop_char(&mut self.filters[b]);
        self.caches[b] = None;
        proof {
            let m = old(self).model();
            let q0 = m.filters[b as int];
            assert(self.model().filters =~= m.filters.update(b as int, if q0.len() > 0 { q0.drop_last() } else { q0 }));
        }
        self.reset_selection(b);
    }

    /// Clears the filter of the board on screen and selects its first row.
    pub fn clear_current_filter(&mut self)
        requires
            old(self).wf(),
        ensures
            final(self).wf(),
            final(self).model() == after_clear_filter(old(self).model()),
    {
        let b = self.current;
        self.filters[b] = String::new();
        self.caches[b] = None;
        assert(self.model().filters =~= old(self).model().filters.update(b as int, Seq::empty()));
        self.reset_selection(b);
    }

    /// Re-sorts the current board by the sorts now set, selecting its
    /// first row.
    fn resort_current(&mut self)
        requires
            old(self).wf(),
        ensures
            final(self).wf(),
            resorted(
                final(self).model(),
                old(self).model(),
                old(self).model().aa_sort,
                old(self).model().agent_sort,
                old(self).model().deepswe_sort,
            ),
    {
        let b = self.current;
        let aa = self.aa_sort;
        let agent = self.agent_sort;
        let deepswe = self.deepswe_sort;
        match &mut self.status[b] {
            Some(Status::Loaded(data)) => {
                sort_with(data, &aa, &agent, &deepswe);
            },
            _ => {},
        }
        self.caches[b] = None;
        assert(self.model().filters =~= old(self).model().filters);
        let has_rows = self.count_rows(b) > 0;
        self.selected[b] = if has_rows {
            Some(0)
        } else {
            None
        };
        proof {
            let m = old(self).model();
            let m2 = self.model();
            assert(m2.status =~= m.status.update(b as int, m2.status[b as int]));
        }
    }

    /// Sorts the current board by the key bound to `key`: the same key
    /// again reverses the order; keys the board has no use for leave the
    /// sort as it is. The board is re-sorted either way.
    pub fn cycle_sort(&mut self, key: char)
        requires
            old(self).wf(),
        ensures
            final(self).wf(),
            resorted(
                final(self).model(),
                old(self).model(),
                cycled_aa(old(self).model(), key),
                cycled_agent(old(self).model(), key),
                cycled_deepswe(old(self).model(), key),
            ),
    {
        match self.current_board() {
            Board::Aa => {
                let new_key = if key == 'i' {
                    Some(AaKey::Intelligence)
                } else if key == 's' {
                    Some(AaKey::Speed)
                } else if key == 'p' {
                    Some(AaKey::Price)
                } else if key == 'c' {
                    Some(AaKey::Context)
                } else if key == 'd' {
                    Some(AaKey::Cache)
                } else {
                    None
                };
                if let Some(k) = new_key {
                    if self.aa_sort.key == k {
                        self.aa_sort.dir = self.aa_sort.dir.toggle();
                    } else {
                        self.aa_sort.key = k;
                        self.aa_sort.dir = if k == AaKey::Price {
                            SortDir::Asc
                        } else {
                            SortDir::Desc
                        };
                    }
                }
            },
            Board::AaAgents => {
                let new_key = if key == 'i' {
                    Some(AgentKey::Index)
                } else if key == 'a' {
                    Some(AgentKey::Pass)
                } else if key == 'p' {
                    Some(AgentKey::Cost)
                } else if key == 't' {
                    Some(AgentKey::Time)
                } else if key == 'u' {
                    Some(AgentKey::Tokens)
                } else if key == 's' {
                    Some(AgentKey::Turns)
                } else {
                    None
                };
                if let Some(k) = new_key {
                    if self.agent_sort.key == k {
                        self.agent_sort.dir = self.agent_sort.dir.toggle();
                    } else {
                        self.agent_sort.key = k;
                        self.agent_sort.dir = if k == AgentKey::Cost || k == AgentKey::Time || k
                            == AgentKey::Tokens || k == AgentKey::Turns {
                            SortDir::Asc
                        } else {
                            SortDir::Desc
                        };
                    }
                }
            },
            Board::DeepSwe => {
                let new_key = if key == 'a' {
                    Some(DeepSweKey::Pass)
                } else if key == 'p' {
                    Some(DeepSweKey::Cost)
                } else if key == 't' {
                    Some(DeepSweKey::Time)
                } else if key == 'u' {
                    Some(DeepSweKey::Tokens)
                } else if key == 's' {
                    Some(DeepSweKey::Steps)
                } else {
                    None
                };
                if let Some(k) = new_key {
                    if self.deepswe_sort.key == k {
                        self.deepswe_sort.dir = self.deepswe_sort.dir.toggle();
                    } else {
                        self.deepswe_sort.key = k;
                        self.deepswe_sort.dir = if k == DeepSweKey::Cost || k == DeepSweKey::Time
                            || k == DeepSweKey::Tokens {
                            SortDir::Asc
                        } else {
                            SortDir::Desc
                        };
                    }
                }
            },
        }
        assert(self.model().filters =~= old(self).model().filters);
        self.resort_current();
    }

    /// Reverses the sort of the current board and re-sorts it.
    pub fn toggle_dir(&mut self)
        requires
            old(self).wf(),
        ensures
            final(self).wf(),
            resorted(
                final(self).model(),
                old(self).model(),
                flipped_aa(old(self).model()),
                flipped_agent(old(self).model()),
                flipped_deepswe(old(self).model()),
            ),
    {
        match self.current_board() {
            Board::Aa => self.aa_sort.dir = self.aa_sort.dir.toggle(),
            Board::AaAgents => self.agent_sort.dir = self.agent_sort.dir.toggle(),
            Board::DeepSwe => self.deepswe_sort.dir = self.deepswe_sort.dir.toggle(),
        }
        assert(self.model().filters =~= old(self).model().filters);
        self.resort_current();
    }

    /// Sorts `data` by the sort of the board it belongs to.
    pub fn sort_data(&self, data: &mut Data)
        ensures
            data_sorted(*final(data), *old(data), self.model().aa_sort, self.model().agent_sort, self.model().deepswe_sort),
    {
        sort_with(data, &self.aa_sort, &self.agent_sort, &self.deepswe_sort);
    }

    /// The positions of the rows of `board` that `query` matches, kept
    /// until the board's rows or the query change.
    pub fn filter_cache(&mut self, board: Board, query: &str) -> (r: &[usize])
        requires
            old(self).wf(),
        ensures
            final(self).wf(),
            final(self).model() == old(self).model(),
            r@ == rows_matching(old(self).model().status[board_index(board)], query@),
    {
        let b = board.index();
        let q = query.to_string();
        let fresh = match &self.caches[b] {
            Some(c) => c.query == q,
            None => false,
        };
        if !fresh {
            let indices = match &self.status[b] {
                Some(Status::Loaded(d)) => {
                    let toks = filter_tokens(query);
                    assert(seqs_of(toks@) =~= query_tokens(query@));
                    filter_indices(d, &toks)
                },
                _ => Vec::new(),
            };
            self.caches[b] = Some(FilterCache { query: q, indices });
        }
        assert(self.model().filters =~= old(self).model().filters);
        match &self.caches[b] {
            Some(c) => c.indices.as_slice(),
            None => {
                assert(false);
                &[]
            },
        }
    }

    /// The name of the selected row of the board on screen, as it is
    /// copied to the clipboard: the model name on AA, the row's label on
    /// the other boards.
    pub fn selected_name(&mut self) -> (r: Option<String>)
        requires
            old(self).wf(),
        ensures
            final(self).wf(),
            final(self).model() == old(self).model(),
            r matches Some(name) ==> name@ == spec_selected_name(old(self).model())->0,
            r is None <==> spec_selected_name(old(self).model()) is None,
    {
        let board = self.current_board();
        let idx = self.selected_idx();
        let query = self.filters[self.current].clone();
        let found: Option<usize> = {
            let indices = self.filter_cache(board, query.as_str());
            if idx < indices.len() {
                Some(indices[idx])
            } else {
                None
            }
        };
        let data_idx = match found {
            Some(i) => i,
            None => return None,
        };
        match &self.status[self.current] {
            Some(Status::Loaded(Data::Aa(models))) => {
                if data_idx < models.len() {
                    Some(models[data_idx].name.clone())
                } else {
                    None
                }
            },
            Some(Status::Loaded(Data::AaAgents(rows))) => {
                if data_idx < rows.len() {
                    Some(rows[data_idx].label.clone())
                } else {
                    None
                }
            },
            Some(Status::Loaded(Data::DeepSwe(rows))) => {
                if data_idx < rows.len() {
                    Some(rows[data_idx].label.clone())
                } else {
                    None
                }
            },
            _ => None,
        }
    }

    /// Keeps the selection of `board` within `shown` rows, as drawing a
    /// table of `shown` rows does: none for no rows, the last row for a
    /// selection past the end.
    pub fn fit_selection(&mut self, board: Board, shown: usize)
        requires
            old(self).wf(),
        ensures
            final(self).wf(),
            final(self).model() == with_selected(
                old(self).model(),
                board_index(board),
                if shown == 0 {
                    None
                } else {
                    match old(self).model().selected[board_index(board)] {
                        Some(k) => if k >= shown { Some((shown - 1) as usize) } else { Some(k) },
                        None => None,
                    }
                },
            ),
    {
        let b = board.index();
        let sel = if shown == 0 {
            None
        } else {
            match self.selected[b] {
                Some(k) => if k >= shown {
                    Some(shown - 1)
                } else {
                    Some(k)
                },
                None => None,
            }
        };
        self.selected[b] = sel;
        assert(self.model().filters =~= old(self).model().filters);
    }
}

} // verus!
