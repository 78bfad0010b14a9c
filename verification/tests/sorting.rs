use llmpk::aa::{Model};
use llmpk::board::BoardRow;
use llmpk::metric::{count_rank, Metric};
use llmpk::sort::{sort_aa, sort_agents, AaKey, AaSort, AgentKey, AgentSort, SortDir};

fn m(v: f64) -> Option<Metric> {
    Some(Metric { bits: v.to_bits() })
}

fn model(id: &str, intel: Option<f64>, price: Option<f64>, ctx: Option<u64>) -> Model {
    Model {
        id: id.to_string(),
        slug: None,
        name: id.to_string(),
        model_creators: None,
        intelligence_index: intel.and_then(m),
        timescale: None,
        price_1m_blended: price.and_then(m),
        price_1m_blended_no_cache: None,
        price_1m_input_tokens: None,
        price_1m_output_tokens: None,
        cache_hit_price: None,
        cache_write_price: None,
        cache_hit_discount: None,
        context_window_tokens: ctx,
        release_date: None,
        is_open_weights: None,
    }
}

fn ids(v: &[Model]) -> Vec<&str> {
    v.iter().map(|m| m.id.as_str()).collect()
}

#[test]
fn ranks_follow_numeric_order() {
    let vals: [f64; 10] = [-1e9, -2.5, -0.0001, -0.0, 0.0, 1e-300, 0.5, 1.0, 3.75, 1e300];
    for w in vals.windows(2) {
        let a = Metric { bits: w[0].to_bits() }.rank();
        let b = Metric { bits: w[1].to_bits() }.rank();
        if w[0] == w[1] {
            assert_eq!(a, b);
        } else {
            assert!(a < b, "{} should rank below {}", w[0], w[1]);
        }
    }
}

#[test]
fn descending_sort_puts_missing_last_and_keeps_ties_in_order() {
    let mut v = vec![
        model("none1", None, None, None),
        model("low", Some(10.0), None, None),
        model("tie_a", Some(50.0), None, None),
        model("none2", None, None, None),
        model("high", Some(70.5), None, None),
        model("tie_b", Some(50.0), None, None),
    ];
    sort_aa(&mut v, &AaSort { key: AaKey::Intelligence, dir: SortDir::Desc });
    assert_eq!(ids(&v), ["high", "tie_a", "tie_b", "low", "none1", "none2"]);
}

#[test]
fn ascending_sort_puts_missing_last() {
    let mut v = vec![
        model("none", None, None, None),
        model("dear", None, Some(5.0), None),
        model("cheap", None, Some(0.25), None),
        model("mid", None, Some(1.0), None),
    ];
    sort_aa(&mut v, &AaSort { key: AaKey::Price, dir: SortDir::Asc });
    assert_eq!(ids(&v), ["cheap", "mid", "dear", "none"]);
}

#[test]
fn context_sorts_by_token_count() {
    let mut v = vec![
        model("small", None, None, Some(8_192)),
        model("none", None, None, None),
        model("big", None, None, Some(1_047_576)),
        model("mid", None, None, Some(200_000)),
    ];
    sort_aa(&mut v, &AaSort { key: AaKey::Context, dir: SortDir::Desc });
    assert_eq!(ids(&v), ["big", "mid", "small", "none"]);
}

#[test]
fn context_counts_compare_as_floats() {
    let two53: u64 = 1 << 53;
    let samples: [u64; 12] = [
        0,
        1,
        200_000,
        two53 - 1,
        two53,
        two53 + 1,
        two53 + 2,
        two53 + 3,
        (1 << 60) + (1 << 7),
        (1 << 60) + (1 << 7) + 1,
        u64::MAX - 1024,
        u64::MAX,
    ];
    for x in samples {
        assert_eq!(count_rank(x), (x as f64) as u64, "count {x}");
    }
    assert_eq!(count_rank(two53 + 1), two53);
    assert_eq!(count_rank(two53 + 3), two53 + 4);
    assert_eq!(count_rank(u64::MAX), u64::MAX);

    // Counts that are one float tie and keep their order.
    let mut v = vec![
        model("first", None, None, Some(two53 + 1)),
        model("second", None, None, Some(two53)),
        model("larger", None, None, Some(two53 + 3)),
    ];
    sort_aa(&mut v, &AaSort { key: AaKey::Context, dir: SortDir::Desc });
    assert_eq!(ids(&v), ["larger", "first", "second"]);
}

fn agent(label: &str, cost: Option<f64>) -> BoardRow {
    BoardRow {
        label: label.to_string(),
        provider: None,
        release_date: None,
        search: vec![label.to_string()],
        metrics: vec![m(0.5), m(0.5), cost.and_then(m), None, None, None],
    }
}

#[test]
fn agent_rows_sort_by_the_metric_of_the_key() {
    let mut v = vec![agent("b", Some(2.0)), agent("none", None), agent("a", Some(1.25))];
    sort_agents(&mut v, &AgentSort { key: AgentKey::Cost, dir: SortDir::Asc });
    let labels: Vec<&str> = v.iter().map(|r| r.label.as_str()).collect();
    assert_eq!(labels, ["a", "b", "none"]);
}

#[test]
fn sort_dir_arrow_and_toggle() {
    assert_eq!(SortDir::Desc.arrow(), "v");
    assert_eq!(SortDir::Asc.arrow(), "^");
    assert_eq!(SortDir::Desc.toggle(), SortDir::Asc);
    assert_eq!(SortDir::Asc.toggle().toggle(), SortDir::Asc);
}
