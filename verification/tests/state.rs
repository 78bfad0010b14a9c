use llmpk::aa::{Creator, Model, Timescale};
use llmpk::board::{Board, BoardRow, Data, Status};
use llmpk::metric::Metric;
use llmpk::state::{AppState, View};

fn m(v: f64) -> Option<Metric> {
    Some(Metric { bits: v.to_bits() })
}

fn aa_model(id: &str, name: &str, provider: &str) -> Model {
    Model {
        id: id.to_string(),
        slug: None,
        name: name.to_string(),
        model_creators: Some(Creator {
            name: provider.to_string(),
            color: None,
        }),
        intelligence_index: m(50.0),
        timescale: Some(Timescale {
            median_output_speed: m(100.0),
        }),
        price_1m_blended: m(1.0),
        price_1m_blended_no_cache: m(1.5),
        price_1m_input_tokens: m(1.0),
        price_1m_output_tokens: m(3.0),
        cache_hit_price: m(0.1),
        cache_write_price: m(0.5),
        cache_hit_discount: m(0.9),
        context_window_tokens: Some(200_000),
        release_date: Some("2026-01-01".to_string()),
        is_open_weights: Some(false),
    }
}

/// A row of the AA Agents board, with the metrics in sort-key order:
/// index, pass@1, cost, time, tokens, turns.
fn agent_row(id: &str, agent: &str, provider: &str) -> BoardRow {
    BoardRow {
        label: agent.to_string(),
        provider: Some(provider.to_string()),
        release_date: Some("2026-01-01".to_string()),
        search: vec![
            agent.to_string(),
            id.to_string(),
            provider.to_string(),
            format!("{provider} Model"),
        ],
        metrics: vec![m(0.6), m(0.55), m(1.25), m(420.0), m(1_500_000.0), m(42.0)],
    }
}

fn make_models(n: usize) -> Vec<Model> {
    (0..n)
        .map(|i| aa_model(&format!("m{i}"), &format!("Model {i}"), "Provider"))
        .collect()
}

fn aa_rows(app: &AppState) -> &Vec<Model> {
    match app.status(Board::Aa) {
        Some(Status::Loaded(Data::Aa(models))) => models,
        _ => panic!("AA data should be loaded"),
    }
}

#[test]
fn descending_sorts_keep_missing_metrics_last() {
    let mut app = AppState::new();
    let mut missing = aa_model("missing", "Missing Intel", "Unknown");
    missing.intelligence_index = None;
    app.set_status(
        Board::Aa,
        Status::Loaded(Data::Aa(vec![
            missing,
            aa_model("scored", "Scored Intel", "OpenAI"),
        ])),
    );

    let models = aa_rows(&app);
    assert_eq!(models[0].name, "Scored Intel");
    assert_eq!(models[1].name, "Missing Intel");
}

#[test]
fn descending_agent_sorts_keep_missing_metrics_last() {
    let mut app = AppState::new();
    let mut missing = agent_row("missing", "Missing Agent", "Unknown");
    missing.metrics[0] = None;
    app.set_status(
        Board::AaAgents,
        Status::Loaded(Data::AaAgents(vec![
            missing,
            agent_row("scored", "Scored Agent", "Known"),
        ])),
    );

    let Some(Status::Loaded(Data::AaAgents(rows))) = app.status(Board::AaAgents) else {
        panic!("AA Agents data should be loaded");
    };
    assert_eq!(rows[0].label, "Scored Agent");
    assert_eq!(rows[1].label, "Missing Agent");
}

#[test]
fn current_board_filter_counts_aa_rows_and_can_clear() {
    let mut app = AppState::new();
    app.set_status(
        Board::Aa,
        Status::Loaded(Data::Aa(vec![
            aa_model("sonnet-4", "Sonnet Four", "Anthropic"),
            aa_model("gpt-5", "GPT-5", "OpenAI"),
        ])),
    );

    assert_eq!(app.row_count(Board::Aa), 2);

    app.begin_filter();
    for c in "anthropic".chars() {
        app.push_filter_char(c);
    }

    assert_eq!(app.row_count(Board::Aa), 1);
    assert_eq!(app.selected(Board::Aa), Some(0));

    app.clear_current_filter();

    assert_eq!(app.row_count(Board::Aa), 2);
}

#[test]
fn filters_are_scoped_to_the_current_board() {
    let mut app = AppState::new();
    app.set_status(
        Board::Aa,
        Status::Loaded(Data::Aa(vec![aa_model(
            "sonnet-4",
            "Sonnet Four",
            "Anthropic",
        )])),
    );
    app.set_status(
        Board::AaAgents,
        Status::Loaded(Data::AaAgents(vec![
            agent_row("acme-code", "Acme Code", "Anthropic"),
            agent_row("codex", "Codex", "OpenAI"),
        ])),
    );

    app.select_board(1);
    app.begin_filter();
    for c in "openai".chars() {
        app.push_filter_char(c);
    }

    assert_eq!(app.row_count(Board::AaAgents), 1);
    assert_eq!(app.row_count(Board::Aa), 1);
    assert_eq!(app.filter_query(Board::Aa), "");
    assert_eq!(app.filter_query(Board::AaAgents), "openai");
}

#[test]
fn chart_view_is_scoped_to_the_current_board() {
    let mut app = AppState::new();

    assert_eq!(app.current_view(), View::Table);
    app.toggle_view();
    assert_eq!(app.current_view(), View::Chart);

    app.select_board(1);
    assert_eq!(app.current_board(), Board::AaAgents);
    assert_eq!(app.current_view(), View::Table);

    app.toggle_view();
    assert_eq!(app.current_view(), View::Chart);

    app.select_board(0);
    assert_eq!(app.current_view(), View::Chart);
}

#[test]
fn page_down_moves_by_ten_rows() {
    let mut app = AppState::new();
    app.set_status(Board::Aa, Status::Loaded(Data::Aa(make_models(30))));
    assert_eq!(app.selected_idx(), 0);

    app.move_page_down();
    assert_eq!(app.selected_idx(), 10);

    app.move_page_down();
    assert_eq!(app.selected_idx(), 20);

    app.move_page_down();
    assert_eq!(app.selected_idx(), 29);
}

#[test]
fn page_up_stops_at_zero() {
    let mut app = AppState::new();
    app.set_status(Board::Aa, Status::Loaded(Data::Aa(make_models(30))));
    app.move_to_bottom();
    assert_eq!(app.selected_idx(), 29);

    app.move_page_up();
    assert_eq!(app.selected_idx(), 19);

    app.move_page_up();
    assert_eq!(app.selected_idx(), 9);

    app.move_page_up();
    assert_eq!(app.selected_idx(), 0);

    app.move_page_up();
    assert_eq!(app.selected_idx(), 0);
}

#[test]
fn move_to_top_and_bottom() {
    let mut app = AppState::new();
    app.set_status(Board::Aa, Status::Loaded(Data::Aa(make_models(20))));

    app.move_to_bottom();
    assert_eq!(app.selected_idx(), 19);

    app.move_to_top();
    assert_eq!(app.selected_idx(), 0);
}

#[test]
fn move_to_bottom_on_empty_list() {
    let mut app = AppState::new();
    app.set_status(Board::Aa, Status::Loaded(Data::Aa(vec![])));

    app.move_to_bottom();
    assert_eq!(app.selected(Board::Aa), None);
}

#[test]
fn filter_cache_returns_all_indices_when_no_filter() {
    let mut app = AppState::new();
    app.set_status(Board::Aa, Status::Loaded(Data::Aa(make_models(5))));
    let indices = app.filter_cache(Board::Aa, "");
    assert_eq!(indices, &[0, 1, 2, 3, 4]);
}

#[test]
fn filter_cache_returns_matching_indices() {
    let mut app = AppState::new();
    app.set_status(
        Board::Aa,
        Status::Loaded(Data::Aa(vec![
            aa_model("sonnet-4", "Sonnet Four", "Anthropic"),
            aa_model("gpt-5", "GPT-5", "OpenAI"),
            aa_model("opus-4", "Opus Four", "Anthropic"),
        ])),
    );
    let indices = app.filter_cache(Board::Aa, "anthropic");
    assert_eq!(indices, &[0, 2]);
}

#[test]
fn filter_cache_invalidates_on_query_change() {
    let mut app = AppState::new();
    app.set_status(
        Board::Aa,
        Status::Loaded(Data::Aa(vec![
            aa_model("sonnet-4", "Sonnet Four", "Anthropic"),
            aa_model("gpt-5", "GPT-5", "OpenAI"),
        ])),
    );
    let indices = app.filter_cache(Board::Aa, "openai");
    assert_eq!(indices, &[1]);
    let indices = app.filter_cache(Board::Aa, "anthropic");
    assert_eq!(indices, &[0]);
}

#[test]
fn sort_invalidates_filter_cache() {
    let mut app = AppState::new();
    let mut m1 = aa_model("sonnet", "Sonnet", "Anthropic");
    m1.intelligence_index = m(60.0);
    m1.price_1m_blended = m(5.0);
    let mut m2 = aa_model("gpt", "GPT", "OpenAI");
    m2.intelligence_index = m(50.0);
    m2.price_1m_blended = m(1.0);
    app.set_status(Board::Aa, Status::Loaded(Data::Aa(vec![m1, m2])));

    // Initially sorted by intelligence desc: [sonnet(60), gpt(50)]
    let indices = app.filter_cache(Board::Aa, "").to_vec();
    assert_eq!(indices, &[0, 1]);

    // Switch sort to price (ascending): data re-sorted to [gpt($1), sonnet($5)]
    app.cycle_sort('p');

    // The cache is rebuilt; the filter sees the new order
    let indices = app.filter_cache(Board::Aa, "").to_vec();
    let models = aa_rows(&app);
    assert_eq!(
        models[indices[0]].name, "GPT",
        "gpt should be first (cheaper)"
    );
    assert_eq!(models[indices[1]].name, "Sonnet", "sonnet should be second");

    // The filter still works after the sort
    let indices = app.filter_cache(Board::Aa, "sonnet").to_vec();
    assert_eq!(indices.len(), 1);
    let models = aa_rows(&app);
    assert_eq!(models[indices[0]].name, "Sonnet");
}

#[test]
fn backspace_undoes_a_typed_character() {
    let mut app = AppState::new();
    app.set_status(
        Board::Aa,
        Status::Loaded(Data::Aa(vec![
            aa_model("sonnet-4", "Sonnet Four", "Anthropic"),
            aa_model("gpt-5", "GPT-5", "OpenAI"),
        ])),
    );
    app.begin_filter();
    app.push_filter_char('g');
    app.push_filter_char('p');
    assert_eq!(app.current_filter(), "gp");
    assert_eq!(app.row_count(Board::Aa), 1);
    app.push_filter_char('x');
    assert_eq!(app.row_count(Board::Aa), 0);
    app.pop_filter_char();
    assert_eq!(app.current_filter(), "gp");
    assert_eq!(app.row_count(Board::Aa), 1);
    assert_eq!(app.selected(Board::Aa), Some(0));
}
