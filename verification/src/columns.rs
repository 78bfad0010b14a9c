//! Which columns the AA table shows at a given terminal width, and how the
//! AA metrics are named and charted.

use vstd::prelude::*;

use crate::sort::{AaKey, AgentKey, DeepSweKey};

verus! {

/// A column of the AA table.
#[derive(Debug, Clone, Copy, PartialEq, Eq, Structural)]
pub enum AaColumn {
    Index,
    Model,
    Provider,
    Intelligence,
    Speed,
    Price,
    Cache,
    Context,
    Released,
    Open,
}

/// How much room a column takes.
#[derive(Debug, Clone, Copy, PartialEq, Eq, Structural)]
pub enum ColumnWidth {
    /// Exactly this many cells.
    Length(u16),
    /// At least this many cells.
    Min(u16),
}

/// Whether a chart of a metric puts higher or lower values first.
#[derive(Debug, Clone, Copy, PartialEq, Eq, Structural)]
pub enum ChartPreference {
    Higher,
    Lower,
}

/// The columns in the order the table lays them out.
pub open spec fn column_order() -> Seq<AaColumn> {
    seq![
        AaColumn::Index,
        AaColumn::Model,
        AaColumn::Provider,
        AaColumn::Intelligence,
        AaColumn::Speed,
        AaColumn::Price,
        AaColumn::Cache,
        AaColumn::Context,
        AaColumn::Released,
        AaColumn::Open,
    ]
}

/// The column that shows the metric a sort key orders by.
pub open spec fn spec_column_for_key(key: AaKey) -> AaColumn {
    match key {
        AaKey::Intelligence => AaColumn::Intelligence,
        AaKey::Speed => AaColumn::Speed,
        AaKey::Price => AaColumn::Price,
        AaKey::Context => AaColumn::Context,
        AaKey::Cache => AaColumn::Cache,
    }
}

/// Whether a table `width` cells wide, sorted by `key`, shows `c`: the
/// index, model, intelligence and price always, the sort metric always,
/// and the rest once the width reaches their threshold (provider 62, cache
/// 70, context 74, speed 84, open weights 98, release date 110).
pub open spec fn column_shown(c: AaColumn, width: u16, key: AaKey) -> bool {
    ||| c == AaColumn::Index
    ||| c == AaColumn::Model
    ||| c == AaColumn::Intelligence
    ||| c == AaColumn::Price
    ||| c == spec_column_for_key(key)
    ||| c == AaColumn::Provider && width >= 62
    ||| c == AaColumn::Cache && width >= 70
    ||| c == AaColumn::Context && width >= 74
    ||| c == AaColumn::Speed && width >= 84
    ||| c == AaColumn::Open && width >= 98
    ||| c == AaColumn::Released && width >= 110
}

impl AaColumn {
    /// The column's heading.
    pub fn header(self) -> (s: &'static str)
        ensures
            s@ == spec_header(self),
    {
        match self {
            AaColumn::Index => "#",
            AaColumn::Model => "Model",
            AaColumn::Provider => "Provider",
            AaColumn::Intelligence => "Intel",
            AaColumn::Speed => "t/s",
            AaColumn::Price => "$/M",
            AaColumn::Cache => "Cache",
            AaColumn::Context => "Ctx",
            AaColumn::Released => "Release",
            AaColumn::Open => "Open",
        }
    }

    /// The room the column takes.
    pub fn width(self) -> (w: ColumnWidth)
        ensures
            w == spec_width(self),
    {
        match self {
            AaColumn::Index => ColumnWidth::Length(3),
            AaColumn::Model => ColumnWidth::Min(12),
            AaColumn::Provider => ColumnWidth::Length(11),
            AaColumn::Intelligence => ColumnWidth::Length(6),
            AaColumn::Speed => ColumnWidth::Length(6),
            AaColumn::Price => ColumnWidth::Length(7),
            AaColumn::Cache => ColumnWidth::Length(6),
            AaColumn::Context => ColumnWidth::Length(7),
            AaColumn::Released => ColumnWidth::Length(10),
            AaColumn::Open => ColumnWidth::Length(5),
        }
    }

    /// The column's place in the layout.
    pub fn order(self) -> (o: u8)
        ensures
            o < 10,
            column_order()[o as int] == self,
    {
        match self {
            AaColumn::Index => 0,
            AaColumn::Model => 1,
            AaColumn::Provider => 2,
            AaColumn::Intelligence => 3,
            AaColumn::Speed => 4,
            AaColumn::Price => 5,
            AaColumn::Cache => 6,
            AaColumn::Context => 7,
            AaColumn::Released => 8,
            AaColumn::Open => 9,
        }
    }
}

pub open spec fn spec_header(c: AaColumn) -> Seq<char> {
    match c {
        AaColumn::Index => "#"@,
        AaColumn::Model => "Model"@,
        AaColumn::Provider => "Provider"@,
        AaColumn::Intelligence => "Intel"@,
        AaColumn::Speed => "t/s"@,
        AaColumn::Price => "$/M"@,
        AaColumn::Cache => "Cache"@,
        AaColumn::Context => "Ctx"@,
        AaColumn::Released => "Release"@,
        AaColumn::Open => "Open"@,
    }
}

pub open spec fn spec_width(c: AaColumn) -> ColumnWidth {
    match c {
        AaColumn::Index => ColumnWidth::Length(3),
        AaColumn::Model => ColumnWidth::Min(12),
        AaColumn::Provider => ColumnWidth::Length(11),
        AaColumn::Intelligence => ColumnWidth::Length(6),
        AaColumn::Speed => ColumnWidth::Length(6),
        AaColumn::Price => ColumnWidth::Length(7),
        AaColumn::Cache => ColumnWidth::Length(6),
        AaColumn::Context => ColumnWidth::Length(7),
        AaColumn::Released => ColumnWidth::Length(10),
        AaColumn::Open => ColumnWidth::Length(5),
    }
}

/// The column that shows the metric `key` orders by.
pub fn aa_column_for_key(key: AaKey) -> (c: AaColumn)
    ensures
        c == spec_column_for_key(key),
{
    match key {
        AaKey::Intelligence => AaColumn::Intelligence,
        AaKey::Speed => AaColumn::Speed,
        AaKey::Price => AaColumn::Price,
        AaKey::Context => AaColumn::Context,
        AaKey::Cache => AaColumn::Cache,
    }
}

fn shown(c: AaColumn, width: u16, key: AaKey) -> (r: bool)
    ensures
        r == column_shown(c, width, key),
{
    c == AaColumn::Index || c == AaColumn::Model || c == AaColumn::Intelligence || c
        == AaColumn::Price || c == aa_column_for_key(key) || (c == AaColumn::Provider && width
        >= 62) || (c == AaColumn::Cache && width >= 70) || (c == AaColumn::Context && width >= 74)
        || (c == AaColumn::Speed && width >= 84) || (c == AaColumn::Open && width >= 98) || (c
        == AaColumn::Released && width >= 110)
}

/// The columns of an AA table `width` cells wide sorted by `sort_key`, in
/// layout order: the core columns and the sort metric always, the others
/// as the width allows.
pub fn aa_columns(width: u16, sort_key: AaKey) -> (cols: Vec<AaColumn>)
    ensures
        cols@ == column_order().filter(|c: AaColumn| column_shown(c, width, sort_key)),
{
    let all = [
        AaColumn::Index,
        AaColumn::Model,
        AaColumn::Provider,
        AaColumn::Intelligence,
        AaColumn::Speed,
        AaColumn::Price,
        AaColumn::Cache,
        AaColumn::Context,
        AaColumn::Released,
        AaColumn::Open,
    ];
    let ghost pred = |c: AaColumn| column_shown(c, width, sort_key);
    assert(all@ == column_order());
    let mut cols: Vec<AaColumn> = Vec::new();
    let mut i: usize = 0;
    while i < 10
        invariant
            0 <= i <= 10,
            all@ == column_order(),
            pred == (|c: AaColumn| column_shown(c, width, sort_key)),
            cols@ == column_order().take(i as int).filter(pred),
        decreases 10 - i,
    {
        let c = all[i];
        proof {
            let pre = column_order().take(i as int);
            assert(column_order().take(i + 1) == pre.push(c));
            reveal_with_fuel(Seq::filter, 1);
            assert(pre.push(c).drop_last() == pre);
        }
        if shown(c, width, sort_key) {
            cols.push(c);
        }
        i = i + 1;
    }
    assert(column_order().take(10) == column_order());
    cols
}

/// The name of an AA sort key.
pub fn aa_key_label(k: AaKey) -> (s: &'static str)
    ensures
        s@ == match k {
            AaKey::Intelligence => "Intelligence"@,
            AaKey::Speed => "Speed"@,
            AaKey::Price => "Price"@,
            AaKey::Context => "Context"@,
            AaKey::Cache => "Cache Discount"@,
        },
{
    match k {
        AaKey::Intelligence => "Intelligence",
        AaKey::Speed => "Speed",
        AaKey::Price => "Price",
        AaKey::Context => "Context",
        AaKey::Cache => "Cache Discount",
    }
}

/// A chart of price puts the lowest first; charts of the other metrics
/// put the highest first.
pub fn aa_chart_preference(key: AaKey) -> (p: ChartPreference)
    ensures
        key == AaKey::Price ==> p == ChartPreference::Lower,
        key != AaKey::Price ==> p == ChartPreference::Higher,
{
    match key {
        AaKey::Price => ChartPreference::Lower,
        AaKey::Intelligence | AaKey::Speed | AaKey::Context | AaKey::Cache => {
            ChartPreference::Higher
        },
    }
}

/// A chart of an AA Agents metric puts the highest index and pass rate
/// first, and the lowest cost, time, tokens and turns.
pub fn agent_chart_preference(key: AgentKey) -> (p: ChartPreference)
    ensures
        (key == AgentKey::Index || key == AgentKey::Pass) ==> p == ChartPreference::Higher,
        !(key == AgentKey::Index || key == AgentKey::Pass) ==> p == ChartPreference::Lower,
{
    match key {
        AgentKey::Index | AgentKey::Pass => ChartPreference::Higher,
        _ => ChartPreference::Lower,
    }
}

/// A chart of a DeepSWE metric puts the highest pass rate first, and the
/// lowest cost, time, tokens and steps.
pub fn deepswe_chart_preference(key: DeepSweKey) -> (p: ChartPreference)
    ensures
        key == DeepSweKey::Pass ==> p == ChartPreference::Higher,
        key != DeepSweKey::Pass ==> p == ChartPreference::Lower,
{
    match key {
        DeepSweKey::Pass => ChartPreference::Higher,
        _ => ChartPreference::Lower,
    }
}

/// A column of the AA Agents table.
#[derive(Debug, Clone, Copy, PartialEq, Eq, Structural)]
pub enum AgentColumn {
    Index,
    Agent,
    Provider,
    Score,
    Pass,
    Cost,
    Time,
    Tokens,
    Turns,
    Released,
}

/// The AA Agents columns in layout order.
pub open spec fn agent_column_order() -> Seq<AgentColumn> {
    seq![
        AgentColumn::Index,
        AgentColumn::Agent,
        AgentColumn::Provider,
        AgentColumn::Score,
        AgentColumn::Pass,
        AgentColumn::Cost,
        AgentColumn::Time,
        AgentColumn::Tokens,
        AgentColumn::Turns,
        AgentColumn::Released,
    ]
}

/// The column that shows the metric an AA Agents sort key orders by.
pub open spec fn spec_agent_column_for_key(key: AgentKey) -> AgentColumn {
    match key {
        AgentKey::Index => AgentColumn::Score,
        AgentKey::Pass => AgentColumn::Pass,
        AgentKey::Cost => AgentColumn::Cost,
        AgentKey::Time => AgentColumn::Time,
        AgentKey::Tokens => AgentColumn::Tokens,
        AgentKey::Turns => AgentColumn::Turns,
    }
}

/// Whether an AA Agents table `width` cells wide, sorted by `key`, shows
/// `c`: the index, agent, score and pass rate always, the sort metric
/// always, and the rest from a width on (provider 62, cost 70, time 78,
/// tokens 86, turns 94, release date 110).
pub open spec fn agent_column_shown(c: AgentColumn, width: u16, key: AgentKey) -> bool {
    ||| c == AgentColumn::Index
    ||| c == AgentColumn::Agent
    ||| c == AgentColumn::Score
    ||| c == AgentColumn::Pass
    ||| c == spec_agent_column_for_key(key)
    ||| c == AgentColumn::Provider && width >= 62
    ||| c == AgentColumn::Cost && width >= 70
    ||| c == AgentColumn::Time && width >= 78
    ||| c == AgentColumn::Tokens && width >= 86
    ||| c == AgentColumn::Turns && width >= 94
    ||| c == AgentColumn::Released && width >= 110
}

/// The column that shows the metric `key` orders by.
pub fn agent_column_for_key(key: AgentKey) -> (c: AgentColumn)
    ensures
        c == spec_agent_column_for_key(key),
{
    match key {
        AgentKey::Index => AgentColumn::Score,
        AgentKey::Pass => AgentColumn::Pass,
        AgentKey::Cost => AgentColumn::Cost,
        AgentKey::Time => AgentColumn::Time,
        AgentKey::Tokens => AgentColumn::Tokens,
        AgentKey::Turns => AgentColumn::Turns,
    }
}

fn agent_shown(c: AgentColumn, width: u16, key: AgentKey) -> (r: bool)
    ensures
        r == agent_column_shown(c, width, key),
{
    c == AgentColumn::Index || c == AgentColumn::Agent || c == AgentColumn::Score || c
        == AgentColumn::Pass || c == agent_column_for_key(key) || (c == AgentColumn::Provider
        && width >= 62) || (c == AgentColumn::Cost && width >= 70) || (c == AgentColumn::Time
        && width >= 78) || (c == AgentColumn::Tokens && width >= 86) || (c == AgentColumn::Turns
        && width >= 94) || (c == AgentColumn::Released && width >= 110)
}

/// The columns of an AA Agents table `width` cells wide sorted by
/// `sort_key`, in layout order.
pub fn agent_columns(width: u16, sort_key: AgentKey) -> (cols: Vec<AgentColumn>)
    ensures
        cols@ == agent_column_order().filter(|c: AgentColumn| agent_column_shown(c, width, sort_key)),
{
    let all = [
        AgentColumn::Index,
        AgentColumn::Agent,
        AgentColumn::Provider,
        AgentColumn::Score,
        AgentColumn::Pass,
        AgentColumn::Cost,
        AgentColumn::Time,
        AgentColumn::Tokens,
        AgentColumn::Turns,
        AgentColumn::Released,
    ];
    let ghost pred = |c: AgentColumn| agent_column_shown(c, width, sort_key);
    assert(all@ == agent_column_order());
    let mut cols: Vec<AgentColumn> = Vec::new();
    let mut i: usize = 0;
    while i < 10
        invariant
            0 <= i <= 10,
            all@ == agent_column_order(),
            pred == (|c: AgentColumn| agent_column_shown(c, width, sort_key)),
            cols@ == agent_column_order().take(i as int).filter(pred),
        decreases 10 - i,
    {
        let c = all[i];
        proof {
            let pre = agent_column_order().take(i as int);
            assert(agent_column_order().take(i + 1) == pre.push(c));
            reveal_with_fuel(Seq::filter, 1);
            assert(pre.push(c).drop_last() == pre);
        }
        if agent_shown(c, width, sort_key) {
            cols.push(c);
        }
        i = i + 1;
    }
    assert(agent_column_order().take(10) == agent_column_order());
    cols
}

} // verus!
