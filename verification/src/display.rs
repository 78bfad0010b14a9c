//! Labels and layout arithmetic of the screen: tab and view names, filter
//! and count labels, compact token counts, centred boxes and the header's
//! segments.

use vstd::prelude::*;
use vstd::view::View as _;

use crate::board::{board_at, board_index, data_len, Board, Data, Status};
use crate::state::{row_count, AppState, View};
use crate::text::{
    any_non_space, chars_of, decimal, has_non_space, push_decimal, string_of, truncate,
    truncated,
};

verus! {

broadcast use vstd::string::group_string_axioms;

/// The short name of a board on its tab.
pub fn tab_label(board: Board) -> (s: &'static str)
    ensures
        s@ == match board {
            Board::Aa => "AA"@,
            Board::AaAgents => "AAg"@,
            Board::DeepSwe => "DSwe"@,
        },
{
    match board {
        Board::Aa => "AA",
        Board::AaAgents => "AAg",
        Board::DeepSwe => "DSwe",
    }
}

/// The header's name for a view.
pub fn view_label(view: View) -> (s: &'static str)
    ensures
        s@ == match view {
            View::Table => "view: table"@,
            View::Chart => "view: chart"@,
        },
{
    match view {
        View::Table => "view: table",
        View::Chart => "view: chart",
    }
}

/// A filter is in force when its query holds something besides whitespace.
pub fn filter_is_active(query: &str) -> (r: bool)
    ensures
        r == has_non_space(query@),
{
    let cs = chars_of(query);
    any_non_space(cs.as_slice())
}

/// How the header shows a filter query: `<empty>` for none, else the query
/// cut to 32 characters; a bar marks that it is being edited.
pub open spec fn spec_filter_label(query: Seq<char>, editing: bool) -> Seq<char> {
    let base = if query.len() == 0 {
        "<empty>"@
    } else {
        truncated(query, 32)
    };
    if editing {
        base.push('|')
    } else {
        base
    }
}

pub fn format_filter_label(query: &str, editing: bool) -> (r: String)
    ensures
        r@ == spec_filter_label(query@, editing),
{
    let base = if query.is_empty() {
        "<empty>".to_string()
    } else {
        truncate(query, 32)
    };
    if editing {
        let mut cs = chars_of(base.as_str());
        cs.push('|');
        string_of(cs.as_slice())
    } else {
        base
    }
}

/// A token count in whole millions (`M`) or thousands (`K`), or as is.
pub open spec fn spec_fmt_tokens(n: u64) -> Seq<char> {
    if n >= 1_000_000 {
        decimal((n / 1_000_000) as nat).push('M')
    } else if n >= 1_000 {
        decimal((n / 1_000) as nat).push('K')
    } else {
        decimal(n as nat)
    }
}

pub fn fmt_tokens(n: u64) -> (r: String)
    ensures
        r@ == spec_fmt_tokens(n),
{
    let mut out: Vec<char> = Vec::new();
    if n >= 1_000_000 {
        push_decimal(&mut out, n / 1_000_000);
        out.push('M');
    } else if n >= 1_000 {
        push_decimal(&mut out, n / 1_000);
        out.push('K');
    } else {
        push_decimal(&mut out, n);
    }
    string_of(out.as_slice())
}

/// A count of rows, as `visible/total noun` while a filter is in force and
/// `total noun` otherwise.
pub open spec fn spec_count_label(visible: usize, total: usize, filtering: bool, noun: Seq<char>) -> Seq<char> {
    if filtering {
        decimal(visible as nat) + seq!['/'] + decimal(total as nat) + seq![' '] + noun
    } else {
        decimal(total as nat) + seq![' '] + noun
    }
}

pub fn count_label(visible: usize, total: usize, filtering: bool, noun: &str) -> (r: String)
    ensures
        r@ == spec_count_label(visible, total, filtering, noun@),
{
    let mut out: Vec<char> = Vec::new();
    if filtering {
        push_decimal(&mut out, visible as u64);
        out.push('/');
    }
    push_decimal(&mut out, total as u64);
    out.push(' ');
    let ghost before = out@;
    let ns = chars_of(noun);
    let mut i: usize = 0;
    while i < ns.len()
        invariant
            0 <= i <= ns@.len(),
            out@ == before + ns@.take(i as int),
        decreases ns@.len() - i,
    {
        out.push(ns[i]);
        assert(ns@.take(i + 1) == ns@.take(i as int).push(ns@[i as int]));
        i = i + 1;
    }
    assert(ns@.take(ns@.len() as int) == ns@);
    string_of(out.as_slice())
}

/// The footer's row position, `  selected/total` in a table with rows,
/// nothing otherwise.
pub open spec fn spec_position_label(selected: usize, total: usize, view: View) -> Seq<char> {
    if total > 0 && view == View::Table {
        seq![' ', ' '] + decimal((selected + 1) as nat) + seq!['/'] + decimal(total as nat)
    } else {
        Seq::empty()
    }
}

pub fn position_label(selected: usize, total: usize, view: View) -> (r: String)
    requires
        total > 0 && view == View::Table ==> selected < usize::MAX,
    ensures
        r@ == spec_position_label(selected, total, view),
{
    let mut out: Vec<char> = Vec::new();
    if total > 0 && view == View::Table {
        out.push(' ');
        out.push(' ');
        push_decimal(&mut out, (selected + 1) as u64);
        out.push('/');
        push_decimal(&mut out, total as u64);
        assert(out@ =~= seq![' ', ' '] + decimal((selected + 1) as nat) + seq!['/'] + decimal(total as nat));
    }
    string_of(out.as_slice())
}

/// What the body of the screen shows.
#[derive(Debug, Clone, Copy, PartialEq, Eq, Structural)]
pub enum Panel {
    /// The board is being fetched, or was never asked for.
    Loading,
    /// The board failed to load.
    Error,
    /// The filter hides every row.
    FilterEmpty,
    Table,
    Chart,
}

/// The body panel for a board with status `status` that shows `shown`
/// rows under its filter, in view `view`.
pub open spec fn spec_body_panel(status: Option<Status>, shown: usize, filter_active: bool, view: View) -> Panel {
    match status {
        Some(Status::Loaded(_)) => if shown == 0 && filter_active {
            Panel::FilterEmpty
        } else if view == View::Table {
            Panel::Table
        } else {
            Panel::Chart
        },
        Some(Status::Error(_)) => Panel::Error,
        _ => Panel::Loading,
    }
}

pub fn body_panel(status: Option<&Status>, shown: usize, filter_active: bool, view: View) -> (p: Panel)
    ensures
        p == spec_body_panel(
            match status {
                Some(s) => Some(*s),
                None => None,
            },
            shown,
            filter_active,
            view,
        ),
{
    match status {
        Some(Status::Loaded(_)) => if shown == 0 && filter_active {
            Panel::FilterEmpty
        } else if view == View::Table {
            Panel::Table
        } else {
            Panel::Chart
        },
        Some(Status::Error(_)) => Panel::Error,
        _ => Panel::Loading,
    }
}

/// Where a board's rows are published, as the header names it.
pub fn board_source(board: Board) -> (s: &'static str)
    ensures
        s@ == match board {
            Board::Aa => "artificialanalysis.ai"@,
            Board::AaAgents => "artificialanalysis.ai/agents/coding-agents"@,
            Board::DeepSwe => "deepswe.datacurve.ai"@,
        },
{
    match board {
        Board::Aa => "artificialanalysis.ai",
        Board::AaAgents => "artificialanalysis.ai/agents/coding-agents",
        Board::DeepSwe => "deepswe.datacurve.ai",
    }
}

/// The sort keys the footer lists for a board.
pub open spec fn spec_sort_key_hint(board: Board) -> Seq<char> {
    match board {
        Board::Aa => "i/s/p/d/c"@,
        Board::AaAgents => "i/a/p/t/u/s"@,
        Board::DeepSwe => "a/p/t/u/s"@,
    }
}

pub fn sort_key_hint(board: Board) -> (s: &'static str)
    ensures
        s@ == spec_sort_key_hint(board),
{
    match board {
        Board::Aa => "i/s/p/d/c",
        Board::AaAgents => "i/a/p/t/u/s",
        Board::DeepSwe => "a/p/t/u/s",
    }
}

/// Below 36 columns or 8 rows only a note asking for a larger terminal is
/// drawn.
pub fn too_small(width: u16, height: u16) -> (r: bool)
    ensures
        r == (width < 36 || height < 8),
{
    width < 36 || height < 8
}

/// The least body width at which a board shows the selected row's details
/// beside its table.
pub open spec fn spec_detail_min_width(board: Board) -> u16 {
    match board {
        Board::Aa => 116,
        Board::AaAgents => 132,
        Board::DeepSwe => 110,
    }
}

/// How a board's body is split when the detail panel fits, at least 12
/// rows high and as wide as the board asks: the table's least width and the
/// panel's width.
pub fn detail_split(board: Board, width: u16, height: u16) -> (r: Option<(u16, u16)>)
    ensures
        r == if width < spec_detail_min_width(board) || height < 12 {
            None::<(u16, u16)>
        } else {
            match board {
                Board::AaAgents => Some((88u16, 38u16)),
                _ => Some((72u16, 34u16)),
            }
        },
{
    let min = match board {
        Board::Aa => 116,
        Board::AaAgents => 132,
        Board::DeepSwe => 110,
    };
    if width < min || height < 12 {
        return None;
    }
    match board {
        Board::AaAgents => Some((88, 38)),
        _ => Some((72, 34)),
    }
}

/// The footer's note while a filter hides rows: `  showing visible/total`.
pub open spec fn spec_showing_label(active: bool, visible: usize, total: usize) -> Seq<char> {
    if active && visible != total {
        "  showing "@ + decimal(visible as nat) + seq!['/'] + decimal(total as nat)
    } else {
        Seq::empty()
    }
}

pub fn showing_label(active: bool, visible: usize, total: usize) -> (r: String)
    ensures
        r@ == spec_showing_label(active, visible, total),
{
    let mut out: Vec<char> = Vec::new();
    if active && visible != total {
        out = chars_of("  showing ");
        push_decimal(&mut out, visible as u64);
        out.push('/');
        push_decimal(&mut out, total as u64);
    }
    string_of(out.as_slice())
}

/// How many rows a board has loaded, before any filter.
pub open spec fn loaded_len(st: Option<Status>) -> nat {
    match st {
        Some(Status::Loaded(d)) => data_len(d),
        _ => 0,
    }
}

/// The footer's texts for the board on screen: the row position, the note
/// on rows a filter hides, and the board's sort keys.
pub fn footer_labels(app: &AppState) -> (r: (String, String, &'static str))
    requires
        app.wf(),
        ({
            let m = app.model();
            row_count(m, m.current) > 0 && m.views[m.current] == View::Table ==> (
            m.selected[m.current] matches Some(k) ==> k < usize::MAX)
        }),
    ensures
        ({
            let m = app.model();
            let c = m.current;
            let n = row_count(m, c) as usize;
            let sel: usize = match m.selected[c] {
                Some(k) => k,
                None => 0,
            };
            &&& r.0@ == spec_position_label(sel, n, m.views[c])
            &&& r.1@ == spec_showing_label(has_non_space(m.filters[c]), n, loaded_len(m.status[c]) as usize)
            &&& r.2@ == spec_sort_key_hint(board_at(c))
        }),
{
    proof {
        app.lemma_model_ok();
    }
    let board = app.current_board();
    assert(board_index(board) == app.model().current);
    let total = app.row_count(board);
    let selected = app.selected_idx();
    let view = app.current_view();
    let unfiltered: usize = match app.status(board) {
        Some(Status::Loaded(d)) => match d {
            Data::Aa(v) => v.len(),
            Data::AaAgents(v) => v.len(),
            Data::DeepSwe(v) => v.len(),
        },
        _ => 0,
    };
    let active = filter_is_active(app.current_filter());
    (position_label(selected, total, view), showing_label(active, total, unfiltered), sort_key_hint(board))
}

/// A rectangle of cells.
#[derive(Debug, Clone, Copy, PartialEq, Eq, Structural)]
pub struct Area {
    pub x: u16,
    pub y: u16,
    pub width: u16,
    pub height: u16,
}

/// A box of at most `width` by `height` cells centred in `area`.
pub open spec fn spec_centered(area: Area, width: u16, height: u16) -> Area {
    let w = if width < area.width { width } else { area.width };
    let h = if height < area.height { height } else { area.height };
    Area {
        x: (area.x + (area.width - w) / 2) as u16,
        y: (area.y + (area.height - h) / 2) as u16,
        width: w,
        height: h,
    }
}

pub fn centered_rect(area: Area, width: u16, height: u16) -> (r: Area)
    requires
        area.x + area.width <= u16::MAX,
        area.y + area.height <= u16::MAX,
    ensures
        r == spec_centered(area, width, height),
        area.x <= r.x && r.x + r.width <= area.x + area.width,
        area.y <= r.y && r.y + r.height <= area.y + area.height,
{
    let w = if width < area.width { width } else { area.width };
    let h = if height < area.height { height } else { area.height };
    let x = area.x + (area.width - w) / 2;
    let y = area.y + (area.height - h) / 2;
    Area { x, y, width: w, height: h }
}

/// The sum of `ws` from position `k` on.
pub open spec fn tail_sum(ws: Seq<usize>, k: int) -> int
    decreases ws.len() - k,
{
    if k >= ws.len() {
        0
    } else {
        ws[k] + tail_sum(ws, k + 1)
    }
}

/// The first header segment kept when segments of widths `ws`, most
/// expendable first, must fit in `avail` cells: segments are dropped from
/// the front while more than one is left and they do not fit.
pub open spec fn spec_first_kept(ws: Seq<usize>, avail: usize) -> int {
    if ws.len() == 0 {
        0
    } else if exists|k: int| 0 <= k < ws.len() - 1 && tail_sum(ws, k) <= avail {
        choose|k: int|
            0 <= k < ws.len() - 1 && tail_sum(ws, k) <= avail && forall|j: int|
                0 <= j < k ==> tail_sum(ws, j) > avail
    } else {
        ws.len() - 1
    }
}

proof fn lemma_tail_sum_mono(ws: Seq<usize>, a: int, b: int)
    requires
        0 <= a <= b,
    ensures
        tail_sum(ws, a) >= tail_sum(ws, b),
    decreases b - a,
{
    if a < b {
        lemma_tail_sum_mono(ws, a + 1, b);
    }
}

/// A part of the header line.
#[derive(Debug, Clone, Copy, PartialEq, Eq, Structural)]
pub enum HeaderSegment {
    Source,
    Status,
    View,
    Sort,
    Filter,
    Copied,
}

/// The header's segments, most expendable first: source, status, view and
/// sort, then the filter while one is edited or in force, then the copy
/// notice while it is fresh.
pub open spec fn spec_header_segments(filter_shown: bool, copied: bool) -> Seq<HeaderSegment> {
    seq![HeaderSegment::Source, HeaderSegment::Status, HeaderSegment::View, HeaderSegment::Sort]
        + (if filter_shown { seq![HeaderSegment::Filter] } else { Seq::empty() })
        + (if copied { seq![HeaderSegment::Copied] } else { Seq::empty() })
}

pub fn header_segments(filter_shown: bool, copied: bool) -> (r: Vec<HeaderSegment>)
    ensures
        r@ == spec_header_segments(filter_shown, copied),
{
    let mut r = vec![HeaderSegment::Source, HeaderSegment::Status, HeaderSegment::View, HeaderSegment::Sort];
    if filter_shown {
        r.push(HeaderSegment::Filter);
    }
    if copied {
        r.push(HeaderSegment::Copied);
    }
    assert(r@ =~= spec_header_segments(filter_shown, copied));
    r
}

/// The header keeps the longest run of its last segments that fits in the
/// room it has, and only the last segment when none does: every longer run
/// is too wide.
pub proof fn law_header_keeps_the_longest_fitting_tail(ws: Seq<usize>, avail: usize)
    requires
        ws.len() > 0,
    ensures
        0 <= spec_first_kept(ws, avail) < ws.len(),
        tail_sum(ws, spec_first_kept(ws, avail)) <= avail || spec_first_kept(ws, avail) == ws.len() - 1,
        forall|j: int| 0 <= j < spec_first_kept(ws, avail) ==> tail_sum(ws, j) > avail,
{
    if !(exists|k: int| 0 <= k < ws.len() - 1 && tail_sum(ws, k) <= avail) {
        assert forall|j: int| 0 <= j < ws.len() - 1 implies tail_sum(ws, j) > avail by {}
    } else {
        let w = choose|k: int| 0 <= k < ws.len() - 1 && tail_sum(ws, k) <= avail;
        lemma_least_fitting(ws, avail, w);
    }
}

/// Where some run fits, a least one does.
proof fn lemma_least_fitting(ws: Seq<usize>, avail: usize, w: int)
    requires
        0 <= w < ws.len() - 1,
        tail_sum(ws, w) <= avail,
    ensures
        exists|k: int|
            0 <= k < ws.len() - 1 && tail_sum(ws, k) <= avail && forall|j: int|
                0 <= j < k ==> tail_sum(ws, j) > avail,
    decreases w,
{
    if exists|j: int| 0 <= j < w && tail_sum(ws, j) <= avail {
        let j = choose|j: int| 0 <= j < w && tail_sum(ws, j) <= avail;
        lemma_least_fitting(ws, avail, j);
    } else {
        assert(forall|j: int| 0 <= j < w ==> tail_sum(ws, j) > avail);
    }
}

/// Which header segments fit: the position of the first one kept.
pub fn first_kept_segment(ws: &[usize], avail: usize) -> (k: usize)
    requires
        tail_sum(ws@, 0) <= usize::MAX,
    ensures
        k == spec_first_kept(ws@, avail),
{
    let n = ws.len();
    if n == 0 {
        return 0;
    }
    let mut total: usize = 0;
    let mut i: usize = n;
    while i > 0
        invariant
            0 <= i <= n,
            n == ws@.len(),
            total == tail_sum(ws@, i as int),
            tail_sum(ws@, 0) <= usize::MAX,
        decreases i,
    {
        proof {
            lemma_tail_sum_mono(ws@, 0, i - 1);
        }
        total = total + ws[i - 1];
        i = i - 1;
    }
    let mut k: usize = 0;
    while k < n - 1
        invariant
            0 <= k <= n - 1,
            n == ws@.len(),
            total == tail_sum(ws@, k as int),
            forall|j: int| 0 <= j < k ==> tail_sum(ws@, j) > avail,
        decreases n - k,
    {
        if total <= avail {
            proof {
                let w = k as int;
                assert(0 <= w < ws@.len() - 1 && tail_sum(ws@, w) <= avail);
                let c = choose|c: int|
                    0 <= c < ws@.len() - 1 && tail_sum(ws@, c) <= avail && forall|j: int|
                        0 <= j < c ==> tail_sum(ws@, j) > avail;
                assert(c == w) by {
                    if c < w {
                        assert(tail_sum(ws@, c) > avail);
                    } else if c > w {
                        assert(tail_sum(ws@, w) > avail);
                    }
                }
            }
            return k;
        }
        proof {
            lemma_tail_sum_mono(ws@, k + 1, n as int);
            assert(tail_sum(ws@, k as int) == ws@[k as int] + tail_sum(ws@, k + 1));
        }
        total = total - ws[k];
        k = k + 1;
    }
    proof {
        if exists|c: int| 0 <= c < ws@.len() - 1 && tail_sum(ws@, c) <= avail {
            let c = choose|c: int| 0 <= c < ws@.len() - 1 && tail_sum(ws@, c) <= avail;
            assert(tail_sum(ws@, c) > avail);
        }
    }
    k
}

} // verus!
