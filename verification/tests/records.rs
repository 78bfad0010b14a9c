use llmpk::aa::{
    apply_leaderboard, gather_leaderboard, gather_models, models_from_records, AaError, Creator, LeaderboardRow, Model,
    Timescale,
};
use llmpk::metric::Metric;

fn m(v: f64) -> Option<Metric> {
    Some(Metric { bits: v.to_bits() })
}

fn bare(id: &str, slug: Option<&str>, name: &str) -> Model {
    Model {
        id: id.to_string(),
        slug: slug.map(|s| s.to_string()),
        name: name.to_string(),
        model_creators: None,
        intelligence_index: None,
        timescale: None,
        price_1m_blended: None,
        price_1m_blended_no_cache: None,
        price_1m_input_tokens: None,
        price_1m_output_tokens: None,
        cache_hit_price: None,
        cache_write_price: None,
        cache_hit_discount: None,
        context_window_tokens: None,
        release_date: None,
        is_open_weights: None,
    }
}

fn find<'a>(models: &'a [Model], id: &str) -> &'a Model {
    models
        .iter()
        .find(|m| m.display_id() == id)
        .unwrap_or_else(|| panic!("records should include {id}"))
}

#[test]
fn provider_and_display_id_fall_back() {
    let mut model = bare("x-1", None, "X One");
    assert_eq!(model.provider(), "?");
    assert_eq!(model.display_id(), "x-1");
    assert_eq!(model.provider_color(), None);
    model.slug = Some("x-one".to_string());
    model.model_creators = Some(Creator {
        name: "Acme".to_string(),
        color: Some("#cc785c".to_string()),
    });
    assert_eq!(model.provider(), "Acme");
    assert_eq!(model.display_id(), "x-one");
    assert_eq!(model.provider_color(), Some("#cc785c"));
    assert_eq!(model.speed(), None);
    model.timescale = Some(Timescale {
        median_output_speed: m(95.2),
    });
    assert_eq!(model.speed(), m(95.2));
}

#[test]
fn merge_keeps_first_values_and_fills_gaps() {
    let mut first = bare("a", None, "First");
    first.price_1m_blended = m(1.55);
    let mut second = bare("a", Some("a-slug"), "Second");
    second.price_1m_blended = m(9.0);
    second.cache_hit_discount = m(0.75);
    second.release_date = Some("2025-04-14".to_string());
    first.merge_missing(&second);
    assert_eq!(first.name, "First");
    assert_eq!(first.slug.as_deref(), Some("a-slug"));
    assert_eq!(first.price_1m_blended, m(1.55));
    assert_eq!(first.cache_hit_discount, m(0.75));
    assert_eq!(first.release_date.as_deref(), Some("2025-04-14"));
}

#[test]
fn gathering_lets_no_summary_record_shadow_prices() {
    // The summary record of one model comes first, its full record later.
    let summary = bare("gpt-4.1", Some("gpt-4.1"), "GPT-4.1");
    let mut full = bare("gpt-4.1", Some("gpt-4.1"), "GPT-4.1 (full)");
    full.price_1m_blended = m(1.55);
    full.cache_hit_discount = m(0.75);
    full.timescale = Some(Timescale {
        median_output_speed: m(95.2),
    });
    let other = bare("gemini-2.5-flash", None, "Gemini 2.5 Flash");
    let nameless = bare("", None, "No id");

    let g = gather_models(vec![Some(summary), None, Some(other), Some(full), Some(nameless), None]);
    assert_eq!(g.parse_failures, 2);
    assert_eq!(g.models.len(), 2);
    assert_eq!(g.models[0].id, "gpt-4.1");
    assert_eq!(g.models[1].id, "gemini-2.5-flash");
    let gpt = find(&g.models, "gpt-4.1");
    assert_eq!(gpt.name, "GPT-4.1");
    assert_eq!(gpt.speed(), m(95.2));
    assert_eq!(gpt.price_1m_blended, m(1.55));
    assert_eq!(gpt.cache_hit_discount, m(0.75));
}

#[test]
fn gathering_nothing_is_an_error() {
    let g = gather_models(vec![None, Some(bare("", None, "x"))]);
    assert_eq!(g.parse_failures, 1);
    assert!(matches!(g.into_models(), Err(AaError::NoModelRecords)));
    let g = gather_models(vec![Some(bare("a", None, "A"))]);
    assert_eq!(g.into_models().map(|v| v.len()).ok(), Some(1));
}

fn row(slug: Option<&str>, ctx: Option<u64>, cwp: Option<f64>) -> Option<LeaderboardRow> {
    Some(LeaderboardRow {
        slug: slug.map(|s| s.to_string()),
        context_window_tokens: ctx,
        cache_write_price: cwp.map(|v| Metric { bits: v.to_bits() }),
    })
}

#[test]
fn leaderboard_fills_context_windows_and_cache_write_prices() {
    let mut models = vec![
        bare("sonnet-id", Some("sonnet-4"), "Sonnet 4"),
        bare("gpt-id", Some("gpt-4.1"), "GPT-4.1"),
        bare("gemini-id", Some("gemini-2.5-flash"), "Gemini 2.5 Flash"),
        bare("kept", Some("kept"), "Kept"),
    ];
    models[3].context_window_tokens = Some(1);
    let lb = gather_leaderboard(vec![
        row(Some("sonnet-4"), Some(100), None),
        None,
        row(None, Some(5), None),
        row(Some("gpt-4.1"), Some(1_047_576), None),
        row(Some("sonnet-4"), Some(200_000), Some(3.75)),
        row(Some("kept"), Some(999), Some(0.5)),
    ])
    .expect("leaderboard rows");
    assert_eq!(lb.len(), 3);

    apply_leaderboard(&mut models, &lb);

    let sonnet = find(&models, "sonnet-4");
    assert_eq!(sonnet.context_window_tokens, Some(200_000));
    assert_eq!(sonnet.cache_write_price, m(3.75));

    let gpt = find(&models, "gpt-4.1");
    assert_eq!(gpt.context_window_tokens, Some(1_047_576));
    assert_eq!(gpt.cache_write_price, None);

    let gemini = find(&models, "gemini-2.5-flash");
    assert_eq!(gemini.context_window_tokens, None);
    assert_eq!(gemini.cache_write_price, None);

    let kept = find(&models, "kept");
    assert_eq!(kept.context_window_tokens, Some(1));
    assert_eq!(kept.cache_write_price, m(0.5));
}

#[test]
fn leaderboard_without_slugs_is_an_error() {
    let r = gather_leaderboard(vec![row(None, Some(5), None), None]);
    assert!(matches!(r, Err(AaError::NoLeaderboardRows)));
}

#[test]
fn records_become_models_in_order_of_first_appearance() {
    let mut a1 = bare("a", Some("a-slug"), "A");
    a1.intelligence_index = m(50.0);
    let b1 = bare("b", None, "B");
    let mut a2 = bare("a", None, "A summary");
    a2.intelligence_index = m(10.0);
    a2.price_1m_blended = m(3.0);
    let mut a3 = bare("a", None, "A again");
    a3.price_1m_blended = m(9.0);
    a3.cache_hit_price = m(0.5);
    let records = vec![None, Some(bare("", None, "no id")), Some(a1), Some(b1), None, Some(a2), Some(a3)];
    let (models, failures) = models_from_records(records);
    assert_eq!(failures, 2);
    let models = models.expect("two ids");
    let ids: Vec<&str> = models.iter().map(|m| m.id.as_str()).collect();
    assert_eq!(ids, vec!["a", "b"]);
    let a = &models[0];
    assert_eq!(a.name, "A");
    assert_eq!(a.slug.as_deref(), Some("a-slug"));
    assert_eq!(a.intelligence_index, m(50.0));
    assert_eq!(a.price_1m_blended, m(3.0));
    assert_eq!(a.cache_hit_price, m(0.5));
}

#[test]
fn records_without_an_id_give_no_models() {
    let (models, failures) = models_from_records(vec![None, Some(bare("", None, "x"))]);
    assert_eq!(models.err(), Some(AaError::NoModelRecords));
    assert_eq!(failures, 1);
    let (models, failures) = models_from_records(vec![]);
    assert_eq!(models.err(), Some(AaError::NoModelRecords));
    assert_eq!(failures, 0);
}
