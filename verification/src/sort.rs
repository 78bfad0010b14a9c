use vstd::prelude::*;

use crate::aa::{spec_speed, Model, ModelView};
use crate::board::{BoardRow, Data};
use crate::metric::{count_rank, spec_count_rank, spec_rank, Metric};
use crate::order::{is_stable_order, reorder, stable_sort_by_keys, stably_sorted};

verus! {

/// Direction in which a board is ordered by its metric.
#[derive(Debug, Clone, Copy, PartialEq, Eq, Structural)]
pub enum SortDir {
    Desc,
    Asc,
}

impl SortDir {
    /// The marker shown next to the sort key: `v` descending, `^` ascending.
    pub fn arrow(self) -> (s: &'static str)
        ensures
            self == SortDir::Desc ==> s@ == "v"@,
            self == SortDir::Asc ==> s@ == "^"@,
    {
        match self {
            SortDir::Desc => "v",
            SortDir::Asc => "^",
        }
    }

    /// The opposite direction.
    pub fn toggle(self) -> (r: Self)
        ensures
            r == spec_toggle(self),
    {
        match self {
            SortDir::Desc => SortDir::Asc,
            SortDir::Asc => SortDir::Desc,
        }
    }
}

pub open spec fn spec_toggle(d: SortDir) -> SortDir {
    match d {
        SortDir::Desc => SortDir::Asc,
        SortDir::Asc => SortDir::Desc,
    }
}

/// Toggling the direction twice gives back the direction, and toggling
/// always changes it.
pub proof fn law_toggle_involutive(d: SortDir)
    ensures
        spec_toggle(spec_toggle(d)) == d,
        spec_toggle(d) != d,
{
}


/// What the AA board can be sorted by.
#[derive(Debug, Clone, Copy, PartialEq, Eq, Structural)]
pub enum AaKey {
    Intelligence,
    Speed,
    Price,
    Context,
    Cache,
}

/// What the AA Agents board can be sorted by.
#[derive(Debug, Clone, Copy, PartialEq, Eq, Structural)]
pub enum AgentKey {
    Index,
    Pass,
    Cost,
    Time,
    Tokens,
    Turns,
}

/// What the DeepSWE board can be sorted by.
#[derive(Debug, Clone, Copy, PartialEq, Eq, Structural)]
pub enum DeepSweKey {
    Pass,
    Cost,
    Time,
    Tokens,
    Steps,
}

#[derive(Debug, Clone, Copy, PartialEq, Eq, Structural)]
pub struct AaSort {
    pub key: AaKey,
    pub dir: SortDir,
}

#[derive(Debug, Clone, Copy, PartialEq, Eq, Structural)]
pub struct AgentSort {
    pub key: AgentKey,
    pub dir: SortDir,
}

#[derive(Debug, Clone, Copy, PartialEq, Eq, Structural)]
pub struct DeepSweSort {
    pub key: DeepSweKey,
    pub dir: SortDir,
}

/// The rank of a metric that may be missing.
pub open spec fn opt_rank(o: Option<Metric>) -> Option<u64> {
    match o {
        Some(m) => Some(spec_rank(m.bits)),
        None => None,
    }
}

/// The rank by which a model is ordered under `key`; a context window
/// ranks by its token count taken as a float, so counts that are one float
/// tie.
pub open spec fn aa_rank(m: ModelView, key: AaKey) -> Option<u64> {
    match key {
        AaKey::Intelligence => opt_rank(m.intelligence_index),
        AaKey::Speed => opt_rank(spec_speed(m)),
        AaKey::Price => opt_rank(m.price_1m_blended),
        AaKey::Context => match m.context_window_tokens {
            Some(n) => Some(spec_count_rank(n)),
            None => None,
        },
        AaKey::Cache => opt_rank(m.cache_hit_discount),
    }
}

/// The position of an AA Agents sort key among a row's metrics.
pub open spec fn agent_slot(key: AgentKey) -> int {
    match key {
        AgentKey::Index => 0,
        AgentKey::Pass => 1,
        AgentKey::Cost => 2,
        AgentKey::Time => 3,
        AgentKey::Tokens => 4,
        AgentKey::Turns => 5,
    }
}

/// The position of a DeepSWE sort key among a row's metrics.
pub open spec fn deepswe_slot(key: DeepSweKey) -> int {
    match key {
        DeepSweKey::Pass => 0,
        DeepSweKey::Cost => 1,
        DeepSweKey::Time => 2,
        DeepSweKey::Tokens => 3,
        DeepSweKey::Steps => 4,
    }
}

/// The rank of a row's metric at `slot`, missing when the row has none there.
pub open spec fn row_rank(r: BoardRow, slot: int) -> Option<u64> {
    if 0 <= slot < r.metrics@.len() {
        opt_rank(r.metrics@[slot])
    } else {
        None
    }
}

fn metric_rank(o: Option<Metric>) -> (r: Option<u64>)
    ensures
        r == opt_rank(o),
{
    match o {
        Some(m) => Some(m.rank()),
        None => None,
    }
}

/// The rank of `m` under `key`.
pub fn aa_metric_rank(m: &Model, key: AaKey) -> (r: Option<u64>)
    ensures
        r == aa_rank(m@, key),
{
    match key {
        AaKey::Intelligence => metric_rank(m.intelligence_index),
        AaKey::Speed => metric_rank(m.speed()),
        AaKey::Price => metric_rank(m.price_1m_blended),
        AaKey::Context => match m.context_window_tokens {
            Some(n) => Some(count_rank(n)),
            None => None,
        },
        AaKey::Cache => metric_rank(m.cache_hit_discount),
    }
}

/// The position of an AA Agents sort key among a row's metrics.
pub fn agent_key_slot(key: AgentKey) -> (i: usize)
    ensures
        i == agent_slot(key),
{
    match key {
        AgentKey::Index => 0,
        AgentKey::Pass => 1,
        AgentKey::Cost => 2,
        AgentKey::Time => 3,
        AgentKey::Tokens => 4,
        AgentKey::Turns => 5,
    }
}

/// The position of a DeepSWE sort key among a row's metrics.
pub fn deepswe_key_slot(key: DeepSweKey) -> (i: usize)
    ensures
        i == deepswe_slot(key),
{
    match key {
        DeepSweKey::Pass => 0,
        DeepSweKey::Cost => 1,
        DeepSweKey::Time => 2,
        DeepSweKey::Tokens => 3,
        DeepSweKey::Steps => 4,
    }
}

/// The rank of the metric at `slot` of `row`.
pub fn row_metric_rank(row: &BoardRow, slot: usize) -> (r: Option<u64>)
    ensures
        r == row_rank(*row, slot as int),
{
    if slot < row.metrics.len() {
        metric_rank(row.metrics[slot])
    } else {
        None
    }
}

/// Sorts the AA models stably by the sort key, missing metrics last.
pub fn sort_aa(models: &mut Vec<Model>, sort: &AaSort)
    ensures
        stably_sorted(final(models)@, old(models)@, |m: Model| aa_rank(m@, sort.key), sort.dir),
{
    let ghost m0 = models@;
    let ghost key = |m: Model| aa_rank(m@, sort.key);
    let mut keys: Vec<Option<u64>> = Vec::new();
    let mut i: usize = 0;
    while i < models.len()
        invariant
            0 <= i <= models@.len(),
            keys@.len() == i,
            forall|k: int| 0 <= k < i ==> #[trigger] keys@[k] == aa_rank(models@[k]@, sort.key),
        decreases models@.len() - i,
    {
        keys.push(aa_metric_rank(&models[i], sort.key));
        i = i + 1;
    }
    assert(keys@ =~= m0.map_values(key));
    let p = stable_sort_by_keys(models, &mut keys, sort.dir);
    assert(is_stable_order(p@, m0.map_values(key), sort.dir) && models@ == reorder(m0, p@));
}

/// Sorts rows stably by their metric at `slot`, missing metrics last.
pub fn sort_rows(rows: &mut Vec<BoardRow>, slot: usize, dir: SortDir)
    ensures
        stably_sorted(final(rows)@, old(rows)@, |r: BoardRow| row_rank(r, slot as int), dir),
{
    let ghost r0 = rows@;
    let ghost key = |r: BoardRow| row_rank(r, slot as int);
    let mut keys: Vec<Option<u64>> = Vec::new();
    let mut i: usize = 0;
    while i < rows.len()
        invariant
            0 <= i <= rows@.len(),
            keys@.len() == i,
            forall|k: int| 0 <= k < i ==> #[trigger] keys@[k] == row_rank(rows@[k], slot as int),
        decreases rows@.len() - i,
    {
        keys.push(row_metric_rank(&rows[i], slot));
        i = i + 1;
    }
    assert(keys@ =~= r0.map_values(key));
    let p = stable_sort_by_keys(rows, &mut keys, dir);
    assert(is_stable_order(p@, r0.map_values(key), dir) && rows@ == reorder(r0, p@));
}

/// Sorts the AA Agents rows stably by the sort key, missing metrics last.
pub fn sort_agents(rows: &mut Vec<BoardRow>, sort: &AgentSort)
    ensures
        stably_sorted(final(rows)@, old(rows)@, |r: BoardRow| row_rank(r, agent_slot(sort.key)), sort.dir),
{
    sort_rows(rows, agent_key_slot(sort.key), sort.dir);
}

/// Sorts the DeepSWE rows stably by the sort key, missing metrics last.
pub fn sort_deepswe(rows: &mut Vec<BoardRow>, sort: &DeepSweSort)
    ensures
        stably_sorted(final(rows)@, old(rows)@, |r: BoardRow| row_rank(r, deepswe_slot(sort.key)), sort.dir),
{
    sort_rows(rows, deepswe_key_slot(sort.key), sort.dir);
}

/// `out` is `inp` sorted by the sort that applies to its board.
pub open spec fn data_sorted(out: Data, inp: Data, aa: AaSort, agent: AgentSort, deepswe: DeepSweSort) -> bool {
    match (out, inp) {
        (Data::Aa(o), Data::Aa(i)) => stably_sorted(o@, i@, |m: Model| aa_rank(m@, aa.key), aa.dir),
        (Data::AaAgents(o), Data::AaAgents(i)) => stably_sorted(
            o@,
            i@,
            |r: BoardRow| row_rank(r, agent_slot(agent.key)),
            agent.dir,
        ),
        (Data::DeepSwe(o), Data::DeepSwe(i)) => stably_sorted(
            o@,
            i@,
            |r: BoardRow| row_rank(r, deepswe_slot(deepswe.key)),
            deepswe.dir,
        ),
        _ => false,
    }
}

/// Sorts a board's rows by the sort that applies to that board.
pub fn sort_with(data: &mut Data, aa_sort: &AaSort, agent_sort: &AgentSort, deepswe_sort: &DeepSweSort)
    ensures
        data_sorted(*final(data), *old(data), *aa_sort, *agent_sort, *deepswe_sort),
{
    match data {
        Data::Aa(models) => sort_aa(models, aa_sort),
        Data::AaAgents(rows) => sort_agents(rows, agent_sort),
        Data::DeepSwe(rows) => sort_deepswe(rows, deepswe_sort),
    }
}

} // verus!
