use llmpk::columns::{aa_columns, agent_columns, AaColumn, AgentColumn};
use llmpk::sort::{AaKey, AgentKey};

#[test]
fn responsive_aa_columns_keep_active_sort_metric_visible() {
    let cols = aa_columns(48, AaKey::Speed);

    assert!(cols.contains(&AaColumn::Speed));
    assert!(cols.contains(&AaColumn::Model));
    assert!(cols.contains(&AaColumn::Intelligence));
    assert!(cols.contains(&AaColumn::Price));
    assert!(!cols.contains(&AaColumn::Released));

    let cache = aa_columns(70, AaKey::Cache);
    assert!(cache.contains(&AaColumn::Cache));
    assert!(aa_columns(70, AaKey::Intelligence).contains(&AaColumn::Cache));
    assert!(!aa_columns(69, AaKey::Intelligence).contains(&AaColumn::Cache));
}

#[test]
fn responsive_agent_columns_keep_active_sort_metric_visible() {
    let cols = agent_columns(48, AgentKey::Time);

    assert!(cols.contains(&AgentColumn::Time));
    assert!(cols.contains(&AgentColumn::Agent));
    assert!(cols.contains(&AgentColumn::Score));
    assert!(!cols.contains(&AgentColumn::Released));
}
