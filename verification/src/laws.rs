//! Properties the library keeps across its operations.

use vstd::prelude::*;
use vstd::view::View as _;
use vstd::set_lib::{lemma_int_range, lemma_subset_equality, set_int_range};

use crate::aa::{absorb, filled, gathered, has_id, merged, or_else, Extras, ModelView};
use crate::metric::Metric;
use crate::board::{board_at, data_len, Board, BoardRow, Data, Status, BOARD_COUNT};
use crate::columns::{
    agent_column_order, agent_column_shown, column_order, column_shown, spec_agent_column_for_key,
    spec_column_for_key, AaColumn, AgentColumn,
};
use crate::filter::{lemma_positions_all, matching_rows, query_tokens, texts_match};
use crate::input::{spec_key_command, spec_mouse_command, Command, KeyCode, KeyPress, MouseKind};
use crate::metric::{spec_count_rank, spec_rank, SIGN_BIT};
use crate::order::{goes_after, is_perm, is_stable_order, reorder, stably_sorted};
use crate::sort::{
    aa_rank, agent_slot, deepswe_slot, spec_toggle, AaKey, AaSort, AgentKey, AgentSort, DeepSweKey,
    DeepSweSort, SortDir,
};
use crate::state::{
    aa_key_for, after_cycle_board, after_move_down, after_move_to_bottom, after_move_to_top,
    after_move_up, after_page_down, after_page_up, after_pop_filter, after_push_filter,
    after_select_board, first_row, with_filter,
    after_toggle_view, agent_key_for, cycled_aa, cycled_agent, cycled_deepswe, deepswe_key_for,
    model_ok, next_aa_sort, next_agent_sort,
    next_deepswe_sort, row_count, rows_matching, AppModel, View,
};
use crate::text::{has_non_space, is_control, lemma_words_empty_iff_blank, words};

verus! {

/// A sorted board shows its rows with a missing metric after every row
/// that has one, in either direction.
pub proof fn law_missing_metrics_last<T>(
    out: Seq<T>,
    inp: Seq<T>,
    key: spec_fn(T) -> Option<u64>,
    dir: SortDir,
    i: int,
    j: int,
)
    requires
        stably_sorted(out, inp, key, dir),
        0 <= i < j < out.len(),
        key(out[i]) is None,
    ensures
        key(out[j]) is None,
{
    let p = choose|p: Seq<int>| is_stable_order(p, inp.map_values(key), dir) && out == reorder(inp, p);
    let keys = inp.map_values(key);
    assert(!goes_after(keys[p[i]], keys[p[j]], dir));
    assert(keys[p[i]] == key(out[i]));
    assert(keys[p[j]] == key(out[j]));
}

/// Sorting neither loses nor repeats a row: the sorted rows are the input
/// rows, each taken once, and every input row is among them.
pub proof fn law_sort_keeps_rows<T>(out: Seq<T>, inp: Seq<T>, key: spec_fn(T) -> Option<u64>, dir: SortDir)
    requires
        stably_sorted(out, inp, key, dir),
    ensures
        out.len() == inp.len(),
        forall|j: int| 0 <= j < inp.len() ==> out.contains(#[trigger] inp[j]),
        forall|k: int| 0 <= k < out.len() ==> inp.contains(#[trigger] out[k]),
{
    let p = choose|p: Seq<int>| is_stable_order(p, inp.map_values(key), dir) && out == reorder(inp, p);
    let n = inp.len() as int;
    assert(is_perm(p, n));
    assert forall|k: int| 0 <= k < out.len() implies inp.contains(#[trigger] out[k]) by {
        assert(out[k] == inp[p[k]]);
    }
    assert(p.no_duplicates()) by {
        assert forall|a: int, b: int| 0 <= a < p.len() && 0 <= b < p.len() && a != b implies p[a] != p[b] by {
            if a < b {
                assert(p[a] != p[b]);
            } else {
                assert(p[b] != p[a]);
            }
        }
    }
    p.unique_seq_to_set();
    lemma_int_range(0, n);
    assert(p.to_set().subset_of(set_int_range(0, n)));
    lemma_subset_equality(p.to_set(), set_int_range(0, n));
    assert forall|j: int| 0 <= j < inp.len() implies out.contains(#[trigger] inp[j]) by {
        assert(set_int_range(0, n).contains(j));
        assert(p.to_set().contains(j));
        let k = choose|k: int| 0 <= k < p.len() && p[k] == j;
        assert(out[k] == inp[j]);
    }
}

/// Rows that tie on the metric keep the order they came in.
pub proof fn law_ties_keep_order<T>(
    out: Seq<T>,
    inp: Seq<T>,
    key: spec_fn(T) -> Option<u64>,
    dir: SortDir,
) -> (p: Seq<int>)
    requires
        stably_sorted(out, inp, key, dir),
    ensures
        is_perm(p, inp.len() as int),
        out == reorder(inp, p),
        forall|i: int, j: int|
            0 <= i < j < out.len() && key(out[i]) == key(out[j]) ==> #[trigger] p[i] < #[trigger] p[j],
{
    let p = choose|p: Seq<int>| is_stable_order(p, inp.map_values(key), dir) && out == reorder(inp, p);
    let keys = inp.map_values(key);
    assert forall|i: int, j: int| 0 <= i < j < out.len() && key(out[i]) == key(out[j]) implies #[trigger] p[i]
        < #[trigger] p[j] by {
        assert(keys[p[i]] == key(out[i]));
        assert(keys[p[j]] == key(out[j]));
        assert(!goes_after(keys[p[j]], keys[p[i]], dir));
    }
    p
}

/// Negative zero ranks with positive zero; every value with the sign bit
/// clear ranks above every value with it set; among positive values the
/// rank grows with the bit pattern, among negative values it shrinks.
pub proof fn law_rank_orders_numbers(a: u64, b: u64)
    ensures
        spec_rank(SIGN_BIT) == spec_rank(0),
        a < SIGN_BIT && b >= SIGN_BIT && b != SIGN_BIT ==> spec_rank(b) < spec_rank(a),
        a < SIGN_BIT && b < SIGN_BIT ==> (spec_rank(a) < spec_rank(b) <==> a < b),
        a > SIGN_BIT && b > SIGN_BIT ==> (spec_rank(a) < spec_rank(b) <==> a > b),
{
}

/// Choosing a cost-like key sorts cheapest (or fastest, or leanest) first;
/// choosing any other key sorts highest first.
pub proof fn law_cost_like_keys_sort_ascending(
    aa: AaSort,
    agent: AgentSort,
    deepswe: DeepSweSort,
    c: char,
    ka: AaKey,
    kg: AgentKey,
    kd: DeepSweKey,
)
    ensures
        aa_key_for(c) == Some(ka) && ka != aa.key ==> next_aa_sort(aa, c).key == ka && (next_aa_sort(
            aa,
            c,
        ).dir == SortDir::Asc <==> ka == AaKey::Price),
        agent_key_for(c) == Some(kg) && kg != agent.key ==> next_agent_sort(agent, c).key == kg && (
        next_agent_sort(agent, c).dir == SortDir::Asc <==> (kg == AgentKey::Cost || kg == AgentKey::Time
            || kg == AgentKey::Tokens || kg == AgentKey::Turns)),
        deepswe_key_for(c) == Some(kd) && kd != deepswe.key ==> next_deepswe_sort(deepswe, c).key == kd
            && (next_deepswe_sort(deepswe, c).dir == SortDir::Asc <==> (kd == DeepSweKey::Cost || kd
            == DeepSweKey::Time || kd == DeepSweKey::Tokens)),
{
}

/// Pressing the key of the active sort reverses it, and pressing it again
/// restores it; a key the board does not use leaves the sort alone.
pub proof fn law_same_sort_key_reverses(aa: AaSort, agent: AgentSort, deepswe: DeepSweSort, c: char)
    ensures
        aa_key_for(c) == Some(aa.key) ==> next_aa_sort(aa, c) == (AaSort { dir: spec_toggle(aa.dir), ..aa })
            && next_aa_sort(next_aa_sort(aa, c), c) == aa,
        agent_key_for(c) == Some(agent.key) ==> next_agent_sort(agent, c) == (AgentSort {
            dir: spec_toggle(agent.dir),
            ..agent
        }) && next_agent_sort(next_agent_sort(agent, c), c) == agent,
        deepswe_key_for(c) == Some(deepswe.key) ==> next_deepswe_sort(deepswe, c) == (DeepSweSort {
            dir: spec_toggle(deepswe.dir),
            ..deepswe
        }) && next_deepswe_sort(next_deepswe_sort(deepswe, c), c) == deepswe,
        aa_key_for(c) is None ==> next_aa_sort(aa, c) == aa,
        agent_key_for(c) is None ==> next_agent_sort(agent, c) == agent,
        deepswe_key_for(c) is None ==> next_deepswe_sort(deepswe, c) == deepswe,
{
}

/// Typing into a filter touches only the board on screen: every other
/// board keeps its filter, rows, selection and view, and so shows the same
/// rows as before.
pub proof fn law_filters_are_scoped_to_the_current_board(m: AppModel, c: char, b: int)
    requires
        model_ok(m),
        0 <= b < BOARD_COUNT,
        b != m.current,
    ensures
        after_push_filter(m, c).filters[b] == m.filters[b],
        after_push_filter(m, c).status[b] == m.status[b],
        after_push_filter(m, c).selected[b] == m.selected[b],
        after_push_filter(m, c).views[b] == m.views[b],
        row_count(after_push_filter(m, c), b) == row_count(m, b),
{
}

/// Backspace undoes a typed character: the filter is as it was, with the
/// first row it shows selected.
pub proof fn law_backspace_undoes_typing(m: AppModel, c: char)
    requires
        model_ok(m),
        !is_control(c),
    ensures
        after_pop_filter(after_push_filter(m, c)).filters == m.filters,
        after_pop_filter(after_push_filter(m, c)) == with_filter(m, m.filters[m.current]),
{
    let cur = m.current;
    let m1 = after_push_filter(m, c);
    let q = m.filters[cur];
    assert(m1.filters[cur] == q.push(c));
    assert(q.push(c).drop_last() =~= q);
    let fa = m1.filters.update(cur, q);
    let fb = m.filters.update(cur, q);
    assert(fa =~= fb);
    assert(fb =~= m.filters);
    let ma = AppModel { filters: fa, ..m1 };
    let mb = AppModel { filters: fb, ..m };
    assert(row_count(ma, cur) == row_count(mb, cur));
    let sel = first_row(row_count(mb, cur));
    assert(ma.selected.update(cur, sel) =~= mb.selected.update(cur, sel));
}

/// The table/chart switch belongs to the board on screen: toggling leaves
/// every other board's view alone, switching boards leaves all views
/// alone, and toggling twice gives back the state.
pub proof fn law_view_is_scoped_to_the_current_board(m: AppModel, b: int, idx: int)
    requires
        model_ok(m),
        0 <= b < BOARD_COUNT,
    ensures
        b != m.current ==> after_toggle_view(m).views[b] == m.views[b],
        after_toggle_view(m).views[m.current] != m.views[m.current],
        after_select_board(m, idx).views == m.views,
        after_toggle_view(after_toggle_view(m)) == m,
{
    let m2 = after_toggle_view(after_toggle_view(m));
    assert(m2.views =~= m.views);
}

/// The selection moves never leave a board with rows without a selected
/// row within them, when the selection was within them before.
pub proof fn law_moves_keep_selection_in_range(m: AppModel)
    requires
        model_ok(m),
        row_count(m, m.current) > 0,
        m.selected[m.current] matches Some(k) ==> k < row_count(m, m.current),
    ensures
        ({
            let n = row_count(m, m.current);
            &&& after_move_down(m).selected[m.current] matches Some(k) && k < n
            &&& after_move_up(m).selected[m.current] matches Some(k) && k < n
            &&& after_page_down(m).selected[m.current] matches Some(k) && k < n
            &&& after_page_up(m).selected[m.current] matches Some(k) && k < n
            &&& after_move_to_top(m).selected[m.current] == Some(0usize)
            &&& after_move_to_bottom(m).selected[m.current] == Some((n - 1) as usize)
        }),
{
}

/// Switching to any board keeps its selection within the rows it shows.
pub proof fn law_switching_boards_clamps_selection(m: AppModel, idx: int)
    requires
        model_ok(m),
        0 <= idx < BOARD_COUNT,
    ensures
        after_select_board(m, idx).current == idx,
        row_count(m, idx) == 0 ==> after_select_board(m, idx).selected[idx] is None,
        row_count(m, idx) > 0 ==> (after_select_board(m, idx).selected[idx] matches Some(k) && k
            < row_count(m, idx)),
{
}

/// Moving one tab along and one tab back returns to the same board.
pub proof fn law_cycling_boards_returns(m: AppModel)
    requires
        model_ok(m),
    ensures
        after_cycle_board(after_cycle_board(m, 1), -1).current == m.current,
        after_cycle_board(after_cycle_board(m, -1), 1).current == m.current,
        0 <= after_cycle_board(m, 1).current < BOARD_COUNT,
        0 <= after_cycle_board(m, -1).current < BOARD_COUNT,
{
}

/// A filter query with nothing besides whitespace shows every row.
pub proof fn law_blank_filter_shows_all_rows(d: Data, q: Seq<char>)
    requires
        !has_non_space(q),
    ensures
        matching_rows(d, query_tokens(q)) == Seq::new(data_len(d), |i: int| i as usize),
        rows_matching(Some(Status::Loaded(d)), q) == matching_rows(d, query_tokens(q)),
{
    lemma_words_empty_iff_blank(q);
    let toks = query_tokens(q);
    assert(toks.len() == 0);
    match d {
        Data::Aa(v) => {
            let pred = |i: int| texts_match(crate::filter::model_texts(v@[i]@), toks);
            lemma_positions_all(v@.len(), pred);
        },
        Data::AaAgents(v) => {
            let pred = |i: int| texts_match(crate::filter::row_texts(v@[i]), toks);
            lemma_positions_all(v@.len(), pred);
        },
        Data::DeepSwe(v) => {
            let pred = |i: int| texts_match(crate::filter::row_texts(v@[i]), toks);
            lemma_positions_all(v@.len(), pred);
        },
    }
}

/// The leaderboard only fills gaps: a model keeps any context window or
/// cache-write price it has, and a model whose slug the leaderboard lacks
/// stays as it is.
pub proof fn law_leaderboard_fills_only_gaps(m: ModelView, lb: Map<Seq<char>, Extras>)
    ensures
        m.context_window_tokens is Some ==> filled(m, lb).context_window_tokens == m.context_window_tokens,
        m.cache_write_price is Some ==> filled(m, lb).cache_write_price == m.cache_write_price,
        (m.slug matches Some(s) ==> !lb.contains_key(s)) ==> filled(m, lb) == m,
        filled(m, lb).id == m.id && filled(m, lb).name == m.name && filled(m, lb).price_1m_blended
            == m.price_1m_blended,
{
}

/// The AA table always shows the index, model, intelligence and price
/// columns and the column of the active sort metric; a wider terminal
/// never hides a column; the columns come in layout order.
pub proof fn law_aa_columns_keep_sort_metric_visible(w1: u16, w2: u16, key: AaKey, c: AaColumn)
    ensures
        column_order().filter(|x: AaColumn| column_shown(x, w1, key)).contains(spec_column_for_key(key)),
        column_shown(AaColumn::Index, w1, key) && column_shown(AaColumn::Model, w1, key)
            && column_shown(AaColumn::Intelligence, w1, key) && column_shown(AaColumn::Price, w1, key),
        w1 <= w2 && column_shown(c, w1, key) ==> column_shown(c, w2, key),
{
    let pred = |x: AaColumn| column_shown(x, w1, key);
    let k = spec_column_for_key(key);
    let i: int = match k {
        AaColumn::Index => 0,
        AaColumn::Model => 1,
        AaColumn::Provider => 2,
        AaColumn::Intelligence => 3,
        AaColumn::Speed => 4,
        AaColumn::Price => 5,
        AaColumn::Cache => 6,
        AaColumn::Context => 7,
        AaColumn::Released => 8,
        AaColumn::Open => 9,
    };
    assert(column_order()[i] == k);
    column_order().lemma_filter_contains(pred, i);
}

/// The AA Agents table always shows the column of the active sort metric,
/// and a wider terminal never hides a column.
pub proof fn law_agent_columns_keep_sort_metric_visible(w1: u16, w2: u16, key: AgentKey, c: AgentColumn)
    ensures
        agent_column_order().filter(|x: AgentColumn| agent_column_shown(x, w1, key)).contains(
            spec_agent_column_for_key(key),
        ),
        w1 <= w2 && agent_column_shown(c, w1, key) ==> agent_column_shown(c, w2, key),
{
    let pred = |x: AgentColumn| agent_column_shown(x, w1, key);
    let k = spec_agent_column_for_key(key);
    let i: int = match k {
        AgentColumn::Index => 0,
        AgentColumn::Agent => 1,
        AgentColumn::Provider => 2,
        AgentColumn::Score => 3,
        AgentColumn::Pass => 4,
        AgentColumn::Cost => 5,
        AgentColumn::Time => 6,
        AgentColumn::Tokens => 7,
        AgentColumn::Turns => 8,
        AgentColumn::Released => 9,
    };
    assert(agent_column_order()[i] == k);
    agent_column_order().lemma_filter_contains(pred, i);
}

/// Control-C quits whatever the screen shows.
pub proof fn law_control_c_always_quits(k: KeyPress, help_open: bool, editing: bool)
    requires
        k.control,
        k.code == KeyCode::Char('c'),
    ensures
        spec_key_command(k, help_open, editing) == Command::Quit,
{
}


/// `sel` reads a field that merging fills from the second record only
/// when the first lacks it.
pub open spec fn merge_fills<T>(sel: spec_fn(ModelView) -> Option<T>) -> bool {
    forall|a: ModelView, b: ModelView| #[trigger] sel(merged(a, b)) == or_else(sel(a), sel(b))
}

proof fn lemma_gathered_step(recs: Seq<Option<ModelView>>, x: Option<ModelView>)
    ensures
        gathered(recs.push(x)) == absorb(gathered(recs), x),
{
    assert(recs.push(x).drop_last() =~= recs);
}

/// Every gathered model comes from a record with its id.
proof fn lemma_gathered_ids_from_records(recs: Seq<Option<ModelView>>, id: Seq<char>)
    requires
        has_id(gathered(recs), id),
    ensures
        exists|j: int| 0 <= j < recs.len() && (#[trigger] recs[j]) is Some && recs[j]->0.id == id,
    decreases recs.len(),
{
    let pre = recs.drop_last();
    let acc = gathered(pre);
    if has_id(acc, id) {
        lemma_gathered_ids_from_records(pre, id);
        let j = choose|j: int| 0 <= j < pre.len() && (#[trigger] pre[j]) is Some && pre[j]->0.id == id;
        assert(recs[j] == pre[j]);
    } else {
        let i = choose|i: int| 0 <= i < gathered(recs).len() && #[trigger] gathered(recs)[i].id == id;
        match recs.last() {
            Some(m) => {
                if m.id.len() == 0 {
                } else if has_id(acc, m.id) {
                    let c = choose|c: int| 0 <= c < acc.len() && #[trigger] acc[c].id == m.id;
                    if i != c {
                        assert(gathered(recs)[i] == acc[i]);
                    }
                    assert(recs[recs.len() - 1] is Some);
                } else {
                    if i < acc.len() {
                        assert(gathered(recs)[i] == acc[i]);
                    }
                    assert(recs[recs.len() - 1] is Some);
                }
            },
            None => {},
        }
    }
}

/// Gathering one more record keeps every model gathered so far in its
/// place, with its id, and keeps a field it has.
proof fn lemma_gathered_keeps(
    recs: Seq<Option<ModelView>>,
    x: Option<ModelView>,
    sel: spec_fn(ModelView) -> Option<Metric>,
    k: int,
)
    requires
        merge_fills(sel),
        0 <= k < gathered(recs).len(),
    ensures
        gathered(recs.push(x)).len() >= gathered(recs).len(),
        gathered(recs.push(x))[k].id == gathered(recs)[k].id,
        sel(gathered(recs)[k]) is Some ==> sel(gathered(recs.push(x))[k]) == sel(gathered(recs)[k]),
{
    lemma_gathered_step(recs, x);
    let acc = gathered(recs);
    match x {
        Some(m) => {
            if m.id.len() == 0 {
            } else if has_id(acc, m.id) {
                let c = choose|c: int| 0 <= c < acc.len() && #[trigger] acc[c].id == m.id;
                if c == k {
                    assert(sel(merged(acc[c], m)) == or_else(sel(acc[c]), sel(m)));
                }
            } else {
            }
        },
        None => {},
    }
}

/// A model gathered from the first `n` records keeps its place, its id
/// and a field it has through the remaining records.
proof fn lemma_persists(
    recs: Seq<Option<ModelView>>,
    sel: spec_fn(ModelView) -> Option<Metric>,
    k: int,
    n: int,
    w: Option<Metric>,
)
    requires
        merge_fills(sel),
        0 <= n <= recs.len(),
        0 <= k < gathered(recs.take(n)).len(),
        w is Some,
        sel(gathered(recs.take(n))[k]) == w,
    ensures
        k < gathered(recs).len(),
        gathered(recs)[k].id == gathered(recs.take(n))[k].id,
        sel(gathered(recs)[k]) == w,
    decreases recs.len() - n,
{
    if n == recs.len() {
        assert(recs.take(n) =~= recs);
    } else {
        lemma_gathered_keeps(recs.take(n), recs[n], sel, k);
        assert(recs.take(n + 1) =~= recs.take(n).push(recs[n]));
        lemma_persists(recs, sel, k, n + 1, w);
    }
}

/// The first record of a model decides each field it has: what it gives
/// stays, whatever records of the model follow.
pub proof fn law_first_record_wins(
    recs: Seq<Option<ModelView>>,
    sel: spec_fn(ModelView) -> Option<Metric>,
    j: int,
    r: ModelView,
    v: Metric,
) -> (k: int)
    requires
        merge_fills(sel),
        0 <= j < recs.len(),
        recs[j] == Some(r),
        r.id.len() > 0,
        sel(r) == Some(v),
        forall|i: int| 0 <= i < j ==> !((#[trigger] recs[i]) matches Some(q) && q.id == r.id),
    ensures
        0 <= k < gathered(recs).len(),
        gathered(recs)[k].id == r.id,
        sel(gathered(recs)[k]) == Some(v),
{
    let pre = recs.take(j);
    assert(!has_id(gathered(pre), r.id)) by {
        if has_id(gathered(pre), r.id) {
            lemma_gathered_ids_from_records(pre, r.id);
            let i = choose|i: int| 0 <= i < pre.len() && (#[trigger] pre[i]) is Some && pre[i]->0.id == r.id;
            assert(recs[i] == pre[i]);
        }
    }
    assert(recs.take(j + 1) =~= pre.push(Some(r)));
    lemma_gathered_step(pre, Some(r));
    let k = gathered(pre).len() as int;
    lemma_persists(recs, sel, k, j + 1, Some(v));
    k
}

/// A record lacking a field never hides the field another record of the
/// same model has: when any record of a model gives a field, the gathered
/// model has it.
pub proof fn law_no_record_shadows_another(
    recs: Seq<Option<ModelView>>,
    sel: spec_fn(ModelView) -> Option<Metric>,
    j: int,
    r: ModelView,
) -> (k: int)
    requires
        merge_fills(sel),
        0 <= j < recs.len(),
        recs[j] == Some(r),
        r.id.len() > 0,
        sel(r) is Some,
    ensures
        0 <= k < gathered(recs).len(),
        gathered(recs)[k].id == r.id,
        sel(gathered(recs)[k]) is Some,
{
    let pre = recs.take(j);
    assert(recs.take(j + 1) =~= pre.push(Some(r)));
    lemma_gathered_step(pre, Some(r));
    let acc = gathered(pre);
    let k: int = if has_id(acc, r.id) {
        let c = choose|c: int| 0 <= c < acc.len() && #[trigger] acc[c].id == r.id;
        assert(sel(merged(acc[c], r)) == or_else(sel(acc[c]), sel(r)));
        c
    } else {
        acc.len() as int
    };
    lemma_persists(recs, sel, k, j + 1, sel(gathered(recs.take(j + 1))[k]));
    k
}

/// Every optional field of a model is filled by merging, so the laws on
/// merging hold of each of them.
pub proof fn law_optional_fields_merge_by_filling()
    ensures
        merge_fills(|m: ModelView| m.slug),
        merge_fills(|m: ModelView| m.model_creators),
        merge_fills(|m: ModelView| m.intelligence_index),
        merge_fills(|m: ModelView| m.timescale),
        merge_fills(|m: ModelView| m.price_1m_blended),
        merge_fills(|m: ModelView| m.price_1m_blended_no_cache),
        merge_fills(|m: ModelView| m.price_1m_input_tokens),
        merge_fills(|m: ModelView| m.price_1m_output_tokens),
        merge_fills(|m: ModelView| m.cache_hit_price),
        merge_fills(|m: ModelView| m.cache_write_price),
        merge_fills(|m: ModelView| m.cache_hit_discount),
        merge_fills(|m: ModelView| m.context_window_tokens),
        merge_fills(|m: ModelView| m.release_date),
        merge_fills(|m: ModelView| m.is_open_weights),
{
}

/// The ids of the records `recs` that carry a non-empty id, each once, in
/// the order in which it first appears.
pub open spec fn first_ids(recs: Seq<Option<ModelView>>) -> Seq<Seq<char>>
    decreases recs.len(),
{
    if recs.len() == 0 {
        Seq::empty()
    } else {
        let p = first_ids(recs.drop_last());
        match recs.last() {
            Some(m) => if m.id.len() > 0 && !p.contains(m.id) {
                p.push(m.id)
            } else {
                p
            },
            None => p,
        }
    }
}

/// The records of `recs` with the id `id`, in order.
pub open spec fn records_of(recs: Seq<Option<ModelView>>, id: Seq<char>) -> Seq<ModelView>
    decreases recs.len(),
{
    if recs.len() == 0 {
        Seq::empty()
    } else {
        let p = records_of(recs.drop_last(), id);
        match recs.last() {
            Some(m) => if m.id == id {
                p.push(m)
            } else {
                p
            },
            None => p,
        }
    }
}

/// The first of the records `rs`, completed from each later one in turn.
pub open spec fn merge_all(rs: Seq<ModelView>) -> ModelView
    recommends
        rs.len() > 0,
    decreases rs.len(),
{
    if rs.len() <= 1 {
        rs[0]
    } else {
        merged(merge_all(rs.drop_last()), rs.last())
    }
}

/// The first of `s` that holds a value, if any does.
pub open spec fn first_some<T>(s: Seq<Option<T>>) -> Option<T>
    decreases s.len(),
{
    if s.len() == 0 {
        None
    } else if s[0] is Some {
        s[0]
    } else {
        first_some(s.drop_first())
    }
}

proof fn lemma_first_some_push<T>(s: Seq<Option<T>>, x: Option<T>)
    ensures
        first_some(s.push(x)) == or_else(first_some(s), x),
    decreases s.len(),
{
    let t = s.push(x);
    if s.len() == 0 {
        assert(t[0] == x);
        assert(t.drop_first() =~= Seq::<Option<T>>::empty());
        assert(first_some(Seq::<Option<T>>::empty()) == None::<T>);
        assert(first_some(s) == None::<T>);
        if x is None {
            assert(first_some(t) == first_some(t.drop_first()));
        }
    } else if s[0] is Some {
        assert(t[0] == s[0]);
    } else {
        assert(t[0] == s[0]);
        assert(t.drop_first() =~= s.drop_first().push(x));
        lemma_first_some_push(s.drop_first(), x);
        assert(first_some(t) == first_some(t.drop_first()));
    }
}

/// A record of `recs` has the id `id` exactly when `records_of` finds one.
proof fn lemma_records_of_found(recs: Seq<Option<ModelView>>, id: Seq<char>)
    ensures
        records_of(recs, id).len() > 0 <==> exists|j: int|
            0 <= j < recs.len() && (#[trigger] recs[j]) is Some && recs[j]->0.id == id,
    decreases recs.len(),
{
    if recs.len() > 0 {
        let pre = recs.drop_last();
        lemma_records_of_found(pre, id);
        if records_of(pre, id).len() > 0 {
            let j = choose|j: int| 0 <= j < pre.len() && (#[trigger] pre[j]) is Some && pre[j]->0.id == id;
            assert(recs[j] == pre[j]);
        }
        if exists|j: int| 0 <= j < recs.len() && (#[trigger] recs[j]) is Some && recs[j]->0.id == id {
            let j = choose|j: int| 0 <= j < recs.len() && (#[trigger] recs[j]) is Some && recs[j]->0.id == id;
            if j < pre.len() {
                assert(pre[j] == recs[j]);
            }
        }
    }
}

/// Gathering, step by step: the gathered models follow `first_ids`, each
/// the merge of the records with its id.
proof fn lemma_gathered_by_first_ids(recs: Seq<Option<ModelView>>)
    ensures
        gathered(recs).len() == first_ids(recs).len(),
        forall|k: int|
            0 <= k < first_ids(recs).len() ==> {
                &&& (#[trigger] gathered(recs)[k]).id == first_ids(recs)[k]
                &&& first_ids(recs)[k].len() > 0
                &&& records_of(recs, first_ids(recs)[k]).len() > 0
                &&& gathered(recs)[k] == merge_all(records_of(recs, first_ids(recs)[k]))
            },
        forall|k: int, l: int|
            0 <= k < l < first_ids(recs).len() ==> #[trigger] first_ids(recs)[k] != #[trigger] first_ids(
                recs,
            )[l],
        forall|id: Seq<char>|
            id.len() > 0 && !first_ids(recs).contains(id) ==> #[trigger] records_of(recs, id).len()
                == 0,
    decreases recs.len(),
{
    if recs.len() > 0 {
        let pre = recs.drop_last();
        lemma_gathered_by_first_ids(pre);
        let acc = gathered(pre);
        let p = first_ids(pre);
        let g = gathered(recs);
        let f = first_ids(recs);
        assert(g == absorb(acc, recs.last()));
        match recs.last() {
            Some(m) => {
                if m.id.len() == 0 {
                    assert forall|id: Seq<char>| id.len() > 0 implies #[trigger] records_of(recs, id)
                        == records_of(pre, id) by {}
                    assert forall|k: int| 0 <= k < f.len() implies records_of(recs, f[k]) == records_of(
                        pre,
                        p[k],
                    ) by {
                        assert(acc[k].id == p[k]);
                        assert(records_of(recs, p[k]) == records_of(pre, p[k]));
                    }
                } else if has_id(acc, m.id) {
                    let c = choose|c: int| 0 <= c < acc.len() && #[trigger] acc[c].id == m.id;
                    assert(p[c] == m.id);
                    assert(p.contains(m.id));
                    assert(f == p);
                    assert(g == acc.update(c, merged(acc[c], m)));
                    let q = records_of(pre, m.id);
                    assert(records_of(recs, m.id) == q.push(m));
                    assert(q.push(m).drop_last() =~= q);
                    assert(merge_all(q.push(m)) == merged(merge_all(q), m));
                    assert forall|k: int| 0 <= k < f.len() && k != c implies records_of(recs, f[k])
                        == records_of(pre, p[k]) by {
                        assert(p[k] != p[c]);
                    }
                    assert forall|id: Seq<char>|
                        id.len() > 0 && !f.contains(id) implies #[trigger] records_of(recs, id).len()
                        == 0 by {
                        assert(id != m.id);
                        assert(records_of(pre, id).len() == 0);
                        assert(records_of(recs, id) == records_of(pre, id));
                    }
                } else {
                    assert(!p.contains(m.id)) by {
                        if p.contains(m.id) {
                            let i = choose|i: int| 0 <= i < p.len() && p[i] == m.id;
                            assert(acc[i].id == m.id);
                        }
                    }
                    assert(f == p.push(m.id));
                    assert(g == acc.push(m));
                    assert(records_of(pre, m.id).len() == 0);
                    assert(records_of(recs, m.id) =~= seq![m]);
                    assert forall|k: int| 0 <= k < p.len() implies records_of(recs, f[k]) == records_of(
                        pre,
                        p[k],
                    ) by {
                        assert(p[k] != m.id);
                    }
                    assert forall|id: Seq<char>|
                        id.len() > 0 && !f.contains(id) implies #[trigger] records_of(recs, id).len()
                        == 0 by {
                        assert(f[p.len() as int] == m.id);
                        assert(id != m.id);
                        if p.contains(id) {
                            let i = choose|i: int| 0 <= i < p.len() && p[i] == id;
                            assert(f[i] == id);
                        }
                        assert(records_of(pre, id).len() == 0);
                        assert(records_of(recs, id) == records_of(pre, id));
                    }
                    assert forall|k: int, l: int| 0 <= k < l < f.len() implies #[trigger] f[k]
                        != #[trigger] f[l] by {
                        if l == p.len() {
                            assert(f[k] == p[k]);
                        }
                    }
                }
            },
            None => {
                assert forall|id: Seq<char>| id.len() > 0 implies #[trigger] records_of(recs, id)
                    == records_of(pre, id) by {}
                assert forall|k: int| 0 <= k < f.len() implies records_of(recs, f[k]) == records_of(
                    pre,
                    p[k],
                ) by {
                    assert(records_of(recs, p[k]) == records_of(pre, p[k]));
                }
            },
        }
    }
}

/// Gathering lists each non-empty id among the records once, in the order
/// of its first record, and makes of the records with that id one model:
/// the first of them completed from each later one in turn.
pub proof fn law_gathering_merges_records_by_id(recs: Seq<Option<ModelView>>)
    ensures
        gathered(recs).len() == first_ids(recs).len(),
        forall|k: int|
            0 <= k < gathered(recs).len() ==> (#[trigger] gathered(recs)[k]).id == first_ids(recs)[k]
                && gathered(recs)[k] == merge_all(records_of(recs, first_ids(recs)[k])),
        forall|k: int, l: int|
            0 <= k < l < first_ids(recs).len() ==> #[trigger] first_ids(recs)[k] != #[trigger] first_ids(
                recs,
            )[l],
        forall|id: Seq<char>|
            id.len() > 0 ==> (#[trigger] first_ids(recs).contains(id) <==> exists|j: int|
                0 <= j < recs.len() && (#[trigger] recs[j]) is Some && recs[j]->0.id == id),
{
    lemma_gathered_by_first_ids(recs);
    assert forall|id: Seq<char>|
        id.len() > 0 implies (#[trigger] first_ids(recs).contains(id) <==> exists|j: int|
            0 <= j < recs.len() && (#[trigger] recs[j]) is Some && recs[j]->0.id == id) by {
        lemma_records_of_found(recs, id);
        if first_ids(recs).contains(id) {
            let k = choose|k: int| 0 <= k < first_ids(recs).len() && first_ids(recs)[k] == id;
            assert(gathered(recs)[k].id == id);
            assert(records_of(recs, first_ids(recs)[k]).len() > 0);
        }
    }
}

/// Each optional field of the model merged from records `rs` is the first
/// value that field has among them; id and name are the first record's.
pub proof fn law_merged_fields_are_first_values<T>(rs: Seq<ModelView>, sel: spec_fn(ModelView) -> Option<T>)
    requires
        rs.len() > 0,
        merge_fills(sel),
    ensures
        sel(merge_all(rs)) == first_some(rs.map_values(sel)),
        merge_all(rs).id == rs[0].id,
        merge_all(rs).name == rs[0].name,
    decreases rs.len(),
{
    assert(rs.map_values(sel)[0] == sel(rs[0]));
    let t = rs.map_values(sel);
    if rs.len() == 1 {
        assert(merge_all(rs) == rs[0]);
        assert(t.drop_first() =~= Seq::<Option<T>>::empty());
        assert(first_some(Seq::<Option<T>>::empty()) == None::<T>);
        if sel(rs[0]) is None {
            assert(first_some(t) == first_some(t.drop_first()));
        }
    } else {
        let q = rs.drop_last();
        assert(q[0] == rs[0]);
        assert(merge_all(rs) == merged(merge_all(q), rs.last()));
        law_merged_fields_are_first_values(q, sel);
        assert(rs.map_values(sel) =~= q.map_values(sel).push(sel(rs.last())));
        lemma_first_some_push(q.map_values(sel), sel(rs.last()));
        assert(sel(merged(merge_all(q), rs.last())) == or_else(sel(merge_all(q)), sel(rs.last())));
    }
}

/// No model is gathered exactly when no record carries a non-empty id.
pub proof fn law_no_models_exactly_when_no_record_has_an_id(recs: Seq<Option<ModelView>>)
    ensures
        gathered(recs).len() == 0 <==> forall|j: int|
            0 <= j < recs.len() ==> !((#[trigger] recs[j]) matches Some(m) && m.id.len() > 0),
{
    law_gathering_merges_records_by_id(recs);
    if gathered(recs).len() > 0 {
        let id = first_ids(recs)[0];
        lemma_gathered_by_first_ids(recs);
        assert(gathered(recs)[0].id == id);
        assert(first_ids(recs).contains(id));
        let j = choose|j: int| 0 <= j < recs.len() && (#[trigger] recs[j]) is Some && recs[j]->0.id == id;
        assert(recs[j] matches Some(m) && m.id.len() > 0);
    }
    if exists|j: int| 0 <= j < recs.len() && ((#[trigger] recs[j]) matches Some(m) && m.id.len() > 0) {
        let j = choose|j: int| 0 <= j < recs.len() && ((#[trigger] recs[j]) matches Some(m) && m.id.len() > 0);
        let id = recs[j]->0.id;
        assert(first_ids(recs).contains(id));
    }
}

/// The rank of an optional metric: its number's place in numeric order,
/// none when it is missing.
pub open spec fn rank_of(o: Option<Metric>) -> Option<u64> {
    match o {
        Some(v) => Some(spec_rank(v.bits)),
        None => None,
    }
}

/// Each AA sort key orders models by the metric it names: intelligence
/// by the intelligence index, speed by the median output speed, price by
/// the blended price, context by the context window (as a float), and the
/// cache key by the cache-hit discount.
pub proof fn law_aa_keys_rank_their_fields(m: ModelView)
    ensures
        aa_rank(m, AaKey::Intelligence) == rank_of(m.intelligence_index),
        aa_rank(m, AaKey::Speed) == rank_of(
            match m.timescale {
                Some(t) => t.median_output_speed,
                None => None,
            },
        ),
        aa_rank(m, AaKey::Price) == rank_of(m.price_1m_blended),
        aa_rank(m, AaKey::Context) == match m.context_window_tokens {
            Some(n) => Some(spec_count_rank(n)),
            None => None,
        },
        aa_rank(m, AaKey::Cache) == rank_of(m.cache_hit_discount),
{
}

/// The AA Agents and DeepSWE keys read a row's metrics at fixed places:
/// index, pass rate, cost, time, tokens, turns; and pass rate, cost, time,
/// tokens, steps.
pub proof fn law_row_keys_read_their_slots()
    ensures
        agent_slot(AgentKey::Index) == 0,
        agent_slot(AgentKey::Pass) == 1,
        agent_slot(AgentKey::Cost) == 2,
        agent_slot(AgentKey::Time) == 3,
        agent_slot(AgentKey::Tokens) == 4,
        agent_slot(AgentKey::Turns) == 5,
        deepswe_slot(DeepSweKey::Pass) == 0,
        deepswe_slot(DeepSweKey::Cost) == 1,
        deepswe_slot(DeepSweKey::Time) == 2,
        deepswe_slot(DeepSweKey::Tokens) == 3,
        deepswe_slot(DeepSweKey::Steps) == 4,
{
}

/// On the AA board the keys i, s, p, c and d sort by intelligence, speed,
/// price, context and cache discount. A new key sorts price lowest first
/// and the rest highest first; the key in force reverses; other keys, and
/// other boards, leave the AA sort alone.
pub proof fn law_aa_sort_keys(m: AppModel, c: char)
    ensures
        board_at(m.current) == Board::Aa ==> {
            &&& cycled_aa(m, 'i').key == AaKey::Intelligence
            &&& cycled_aa(m, 's').key == AaKey::Speed
            &&& cycled_aa(m, 'p').key == AaKey::Price
            &&& cycled_aa(m, 'c').key == AaKey::Context
            &&& cycled_aa(m, 'd').key == AaKey::Cache
        },
        board_at(m.current) == Board::Aa && (c == 'i' || c == 's' || c == 'p' || c == 'c' || c
            == 'd') ==> if cycled_aa(m, c).key == m.aa_sort.key {
            cycled_aa(m, c).dir != m.aa_sort.dir
        } else {
            cycled_aa(m, c).dir == if cycled_aa(m, c).key == AaKey::Price {
                SortDir::Asc
            } else {
                SortDir::Desc
            }
        },
        !(board_at(m.current) == Board::Aa && (c == 'i' || c == 's' || c == 'p' || c == 'c' || c
            == 'd')) ==> cycled_aa(m, c) == m.aa_sort,
{
}

/// On the AA Agents board the keys i, a, p, t, u and s sort by index,
/// pass rate, cost, time, tokens and turns. A new key sorts cost, time,
/// tokens and turns lowest first and the rest highest first; the key in
/// force reverses; other keys, and other boards, leave the sort alone.
pub proof fn law_agent_sort_keys(m: AppModel, c: char)
    ensures
        board_at(m.current) == Board::AaAgents ==> {
            &&& cycled_agent(m, 'i').key == AgentKey::Index
            &&& cycled_agent(m, 'a').key == AgentKey::Pass
            &&& cycled_agent(m, 'p').key == AgentKey::Cost
            &&& cycled_agent(m, 't').key == AgentKey::Time
            &&& cycled_agent(m, 'u').key == AgentKey::Tokens
            &&& cycled_agent(m, 's').key == AgentKey::Turns
        },
        board_at(m.current) == Board::AaAgents && (c == 'i' || c == 'a' || c == 'p' || c == 't'
            || c == 'u' || c == 's') ==> if cycled_agent(m, c).key == m.agent_sort.key {
            cycled_agent(m, c).dir != m.agent_sort.dir
        } else {
            cycled_agent(m, c).dir == if cycled_agent(m, c).key == AgentKey::Index
                || cycled_agent(m, c).key == AgentKey::Pass {
                SortDir::Desc
            } else {
                SortDir::Asc
            }
        },
        !(board_at(m.current) == Board::AaAgents && (c == 'i' || c == 'a' || c == 'p' || c == 't'
            || c == 'u' || c == 's')) ==> cycled_agent(m, c) == m.agent_sort,
{
}

/// On the DeepSWE board the keys a, p, t, u and s sort by pass rate,
/// cost, time, tokens and steps. A new key sorts cost, time and tokens
/// lowest first and pass rate and steps highest first; the key in force
/// reverses; other keys, and other boards, leave the sort alone.
pub proof fn law_deepswe_sort_keys(m: AppModel, c: char)
    ensures
        board_at(m.current) == Board::DeepSwe ==> {
            &&& cycled_deepswe(m, 'a').key == DeepSweKey::Pass
            &&& cycled_deepswe(m, 'p').key == DeepSweKey::Cost
            &&& cycled_deepswe(m, 't').key == DeepSweKey::Time
            &&& cycled_deepswe(m, 'u').key == DeepSweKey::Tokens
            &&& cycled_deepswe(m, 's').key == DeepSweKey::Steps
        },
        board_at(m.current) == Board::DeepSwe && (c == 'a' || c == 'p' || c == 't' || c == 'u'
            || c == 's') ==> if cycled_deepswe(m, c).key == m.deepswe_sort.key {
            cycled_deepswe(m, c).dir != m.deepswe_sort.dir
        } else {
            cycled_deepswe(m, c).dir == if cycled_deepswe(m, c).key == DeepSweKey::Pass
                || cycled_deepswe(m, c).key == DeepSweKey::Steps {
                SortDir::Desc
            } else {
                SortDir::Asc
            }
        },
        !(board_at(m.current) == Board::DeepSwe && (c == 'a' || c == 'p' || c == 't' || c == 'u'
            || c == 's')) ==> cycled_deepswe(m, c) == m.deepswe_sort,
{
}

/// The AA table lays its columns out as index, model, provider,
/// intelligence, speed, price, cache, context, release date, open
/// weights. It always shows index, model, intelligence and price; it
/// shows the provider from 62 cells, the cache discount from 70, the
/// context from 74, the speed from 84, open weights from 98 and the
/// release date from 110, and the column of the sort metric at any width.
pub proof fn law_aa_column_thresholds(w: u16, k: AaKey)
    ensures
        column_order() == seq![
            AaColumn::Index,
            AaColumn::Model,
            AaColumn::Provider,
            AaColumn::Intelligence,
            AaColumn::Speed,
            AaColumn::Price,
            AaColumn::Cache,
            AaColumn::Context,
            AaColumn::Released,
            AaColumn::Open,
        ],
        column_shown(AaColumn::Index, w, k),
        column_shown(AaColumn::Model, w, k),
        column_shown(AaColumn::Intelligence, w, k),
        column_shown(AaColumn::Price, w, k),
        column_shown(AaColumn::Provider, w, k) <==> w >= 62,
        column_shown(AaColumn::Cache, w, k) <==> w >= 70 || k == AaKey::Cache,
        column_shown(AaColumn::Context, w, k) <==> w >= 74 || k == AaKey::Context,
        column_shown(AaColumn::Speed, w, k) <==> w >= 84 || k == AaKey::Speed,
        column_shown(AaColumn::Open, w, k) <==> w >= 98,
        column_shown(AaColumn::Released, w, k) <==> w >= 110,
{
}

/// The AA Agents table always shows index, agent, score and pass rate; it
/// shows the provider from 62 cells, the cost from 70, the time from 78,
/// the tokens from 86, the turns from 94 and the release date from 110,
/// and the column of the sort metric at any width.
pub proof fn law_agent_column_thresholds(w: u16, k: AgentKey)
    ensures
        agent_column_shown(AgentColumn::Index, w, k),
        agent_column_shown(AgentColumn::Agent, w, k),
        agent_column_shown(AgentColumn::Score, w, k),
        agent_column_shown(AgentColumn::Pass, w, k),
        agent_column_shown(AgentColumn::Provider, w, k) <==> w >= 62,
        agent_column_shown(AgentColumn::Cost, w, k) <==> w >= 70 || k == AgentKey::Cost,
        agent_column_shown(AgentColumn::Time, w, k) <==> w >= 78 || k == AgentKey::Time,
        agent_column_shown(AgentColumn::Tokens, w, k) <==> w >= 86 || k == AgentKey::Tokens,
        agent_column_shown(AgentColumn::Turns, w, k) <==> w >= 94 || k == AgentKey::Turns,
        agent_column_shown(AgentColumn::Released, w, k) <==> w >= 110,
{
}

/// With no help shown and no filter being edited, a key without Control
/// does what the help lists: j and Down move down, k and Up move up, the
/// page keys move by pages, g and Home go to the top, G and End to the
/// bottom, [ and ] change board, 1 to 3 jump to a board, q and Esc quit,
/// ? and h open the help, r reloads, o reverses the sort, m switches the
/// view, z the compact mode, y copies, / starts a filter, and the sort
/// letters pick a sort. The mouse wheel moves the selection.
pub proof fn law_keys_do_what_the_help_lists(k: KeyPress, row: u16, column: u16, width: u16)
    requires
        !k.control,
    ensures
        (k.code == KeyCode::Down || k.code == KeyCode::Char('j')) ==> spec_key_command(k, false, false)
            == Command::Down,
        (k.code == KeyCode::Up || k.code == KeyCode::Char('k')) ==> spec_key_command(k, false, false)
            == Command::Up,
        k.code == KeyCode::PageDown ==> spec_key_command(k, false, false) == Command::PageDown,
        k.code == KeyCode::PageUp ==> spec_key_command(k, false, false) == Command::PageUp,
        (k.code == KeyCode::Home || k.code == KeyCode::Char('g')) ==> spec_key_command(k, false, false)
            == Command::Top,
        (k.code == KeyCode::End || k.code == KeyCode::Char('G')) ==> spec_key_command(k, false, false)
            == Command::Bottom,
        k.code == KeyCode::Char('[') ==> spec_key_command(k, false, false) == Command::PrevBoard,
        k.code == KeyCode::Char(']') ==> spec_key_command(k, false, false) == Command::NextBoard,
        k.code == KeyCode::Char('1') ==> spec_key_command(k, false, false) == Command::JumpTo(0),
        k.code == KeyCode::Char('2') ==> spec_key_command(k, false, false) == Command::JumpTo(1),
        k.code == KeyCode::Char('3') ==> spec_key_command(k, false, false) == Command::JumpTo(2),
        (k.code == KeyCode::Char('q') || k.code == KeyCode::Esc) ==> spec_key_command(k, false, false)
            == Command::Quit,
        (k.code == KeyCode::Char('?') || k.code == KeyCode::Char('h')) ==> spec_key_command(
            k,
            false,
            false,
        ) == Command::ToggleHelp,
        k.code == KeyCode::Char('r') ==> spec_key_command(k, false, false) == Command::Reload,
        k.code == KeyCode::Char('o') ==> spec_key_command(k, false, false) == Command::ToggleDir,
        k.code == KeyCode::Char('m') ==> spec_key_command(k, false, false) == Command::ToggleView,
        k.code == KeyCode::Char('z') ==> spec_key_command(k, false, false) == Command::ToggleCompact,
        k.code == KeyCode::Char('y') ==> spec_key_command(k, false, false) == Command::Copy,
        k.code == KeyCode::Char('/') ==> spec_key_command(k, false, false) == Command::BeginFilter,
        forall|c: char|
            (c == 'a' || c == 'c' || c == 'd' || c == 'i' || c == 'p' || c == 's' || c == 't' || c
                == 'u') && k.code == KeyCode::Char(c) ==> spec_key_command(k, false, false)
                == Command::CycleSort(c),
        spec_mouse_command(MouseKind::ScrollUp, row, column, width) == Command::Up,
        spec_mouse_command(MouseKind::ScrollDown, row, column, width) == Command::Down,
{
    assert(crate::board::shortcut_keys()[0] == '1');
    assert(crate::board::shortcut_keys()[1] == '2');
    assert(crate::board::shortcut_keys()[2] == '3');
    assert forall|c: char|
        (c == 'a' || c == 'c' || c == 'd' || c == 'i' || c == 'p' || c == 's' || c == 't' || c
            == 'u') && k.code == KeyCode::Char(c) implies spec_key_command(k, false, false)
        == Command::CycleSort(c) by {
        assert(!crate::board::shortcut_keys().contains(c));
    }
}

/// Up moves the selection one row up and stops at the first row; down
/// moves it one row down and stops at the last; a page moves ten rows the
/// same way; a board with no selection starts at the first row. Only the
/// current board's selection changes.
pub proof fn law_moves_step_by_rows(m: AppModel)
    requires
        model_ok(m),
    ensures
        ({
            let c = m.current;
            let n = row_count(m, c);
            let sel = m.selected[c];
            &&& (sel is Some && sel->0 > 0) ==> after_move_up(m).selected[c] == Some((sel->0 - 1) as usize)
            &&& (sel is None || sel == Some(0usize)) ==> after_move_up(m).selected[c] == Some(0usize)
            &&& (sel is Some && sel->0 >= 10) ==> after_page_up(m).selected[c] == Some((sel->0 - 10) as usize)
            &&& (sel is Some && sel->0 < 10) ==> after_page_up(m).selected[c] == Some(0usize)
            &&& (n > 0 && sel is None) ==> after_move_down(m).selected[c] == Some(0usize)
            &&& (n > 0 && sel is Some && sel->0 + 1 < n) ==> after_move_down(m).selected[c] == Some(
                (sel->0 + 1) as usize,
            )
            &&& (n > 0 && sel is Some && sel->0 + 1 >= n) ==> after_move_down(m).selected[c] == Some(
                (n - 1) as usize,
            )
            &&& (n > 0 && sel is Some && sel->0 + 10 < n) ==> after_page_down(m).selected[c] == Some(
                (sel->0 + 10) as usize,
            )
            &&& (n > 0 && sel is Some && sel->0 + 10 >= n) ==> after_page_down(m).selected[c] == Some(
                (n - 1) as usize,
            )
            &&& n == 0 ==> after_move_down(m) == m && after_page_down(m) == m
            &&& forall|b: int|
                0 <= b < BOARD_COUNT && b != c ==> after_move_up(m).selected[b] == m.selected[b]
                    && after_move_down(m).selected[b] == m.selected[b]
            &&& after_move_up(m) == AppModel { selected: after_move_up(m).selected, ..m }
            &&& after_move_down(m) == AppModel { selected: after_move_down(m).selected, ..m }
        }),
{
}

} // verus!
