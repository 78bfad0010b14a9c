use llmpk::board::Board;
use llmpk::clipboard::clipboard_sequence;
use llmpk::columns::{
    aa_chart_preference, aa_key_label, agent_chart_preference, deepswe_chart_preference, AaColumn,
    ChartPreference, ColumnWidth,
};
use llmpk::display::{
    board_source, body_panel, centered_rect, footer_labels, header_segments, count_label, detail_split, filter_is_active, first_kept_segment,
    fmt_tokens, format_filter_label, position_label, showing_label, sort_key_hint, tab_label,
    too_small, view_label, Area, HeaderSegment, Panel,
};
use llmpk::board::{Data, Status};
use llmpk::highlight::{highlight_ranges, highlight_segments};
use llmpk::palette::{
    accent_rgb_for_provider, color_from_hex, color_slot_for_seed, hex_nibble, normalized_provider,
};
use llmpk::sort::{agent_key_slot, deepswe_key_slot, AaKey, AgentKey, DeepSweKey};
use llmpk::state::{AppState, View};
use llmpk::text::truncate;

#[test]
fn parses_hex_colors_and_maps_provider_accents() {
    assert_eq!(color_from_hex("#cc785c"), Some((0xcc, 0x78, 0x5c)));
    assert_eq!(color_from_hex("#7b61ff00"), Some((0x7b, 0x61, 0xff)));
    assert_eq!(color_from_hex("  ##CC785C \n"), Some((0xcc, 0x78, 0x5c)));
    assert_eq!(color_from_hex("#nothex"), None);
    assert_eq!(color_from_hex("aébcd"), None);
    assert_eq!(color_from_hex("#12345"), None);
    assert_eq!(accent_rgb_for_provider("Z.ai"), Some((0x1c, 0x7f, 0xf8)));
    assert_eq!(accent_rgb_for_provider("Moonshot AI"), Some((0x04, 0x7a, 0xfe)));
    assert_eq!(accent_rgb_for_provider("OpenAI"), Some((0x1f, 0x1f, 0x1f)));
    assert_eq!(accent_rgb_for_provider("Amazon Bedrock"), Some((0xff, 0x99, 0x00)));
    assert_eq!(accent_rgb_for_provider("Unknown Lab"), None);
    let n: String = normalized_provider("Z.ai - Zhipu AI").into_iter().collect();
    assert_eq!(n, "zaizhipuai");
    assert_eq!(hex_nibble(b'f'), Some(15));
    assert_eq!(hex_nibble(b'G'), None);
}

#[test]
fn seed_colors_hash_names_into_the_palette() {
    // Start value 1469598103934665603; per byte: xor, then multiply by
    // 1099511628211, wrapping.
    assert_eq!(color_slot_for_seed(""), (1469598103934665603u64 as usize) % 12);
    assert_eq!(color_slot_for_seed("a"), (4953267810257967366u64 as usize) % 12);
    assert_eq!(color_slot_for_seed("codex"), (7058195858031236390u64 as usize) % 12);
}

#[test]
fn labels_of_tabs_views_and_keys() {
    assert_eq!(tab_label(Board::Aa), "AA");
    assert_eq!(tab_label(Board::AaAgents), "AAg");
    assert_eq!(tab_label(Board::DeepSwe), "DSwe");
    assert_eq!(view_label(View::Table), "view: table");
    assert_eq!(view_label(View::Chart), "view: chart");
    assert_eq!(aa_key_label(AaKey::Cache), "Cache Discount");
    assert_eq!(aa_chart_preference(AaKey::Price), ChartPreference::Lower);
    assert_eq!(aa_chart_preference(AaKey::Speed), ChartPreference::Higher);
    assert_eq!(AaColumn::Price.header(), "$/M");
    assert_eq!(AaColumn::Model.width(), ColumnWidth::Min(12));
    assert_eq!(AaColumn::Open.order(), 9);
}

#[test]
fn filter_labels_and_activity() {
    assert!(!filter_is_active(""));
    assert!(!filter_is_active(" \t\u{3000}"));
    assert!(filter_is_active("  gpt "));
    assert_eq!(format_filter_label("", false), "<empty>");
    assert_eq!(format_filter_label("", true), "<empty>|");
    assert_eq!(format_filter_label("gpt", true), "gpt|");
    let long = "abcdefghijklmnopqrstuvwxyz0123456789";
    assert_eq!(format_filter_label(long, false), "abcdefghijklmnopqrstuvwxyz01234\u{2026}");
}

#[test]
fn truncation_marks_cuts() {
    assert_eq!(truncate("Sonnet Four", 20), "Sonnet Four");
    assert_eq!(truncate("Very Long Model Name", 8), "Very Lo\u{2026}");
    assert_eq!(truncate("abc", 0), "\u{2026}");
    assert_eq!(truncate("héllo", 5), "héllo");
}

#[test]
fn token_counts_and_counters() {
    assert_eq!(fmt_tokens(0), "0");
    assert_eq!(fmt_tokens(999), "999");
    assert_eq!(fmt_tokens(200_000), "200K");
    assert_eq!(fmt_tokens(1_047_576), "1M");
    assert_eq!(fmt_tokens(u64::MAX), "18446744073709M");
    assert_eq!(count_label(3, 102, true, "models"), "3/102 models");
    assert_eq!(count_label(3, 102, false, "agents"), "102 agents");
    assert_eq!(position_label(0, 5, View::Table), "  1/5");
    assert_eq!(position_label(0, 5, View::Chart), "");
    assert_eq!(position_label(0, 0, View::Table), "");
}

#[test]
fn centred_boxes_stay_inside() {
    let area = Area { x: 10, y: 5, width: 100, height: 30 };
    assert_eq!(centered_rect(area, 44, 7), Area { x: 38, y: 16, width: 44, height: 7 });
    assert_eq!(centered_rect(area, 200, 50), area);
}

#[test]
fn header_segments_drop_from_the_front() {
    assert_eq!(first_kept_segment(&[], 10), 0);
    assert_eq!(first_kept_segment(&[5, 5, 5], 15), 0);
    assert_eq!(first_kept_segment(&[5, 5, 5], 14), 1);
    assert_eq!(first_kept_segment(&[5, 5, 5], 5), 2);
    assert_eq!(first_kept_segment(&[5, 5, 5], 1), 2);
}

#[test]
fn clipboard_sequence_is_osc52_base64() {
    assert_eq!(clipboard_sequence("hello"), "\x1b]52;c;aGVsbG8=\x07");
    assert_eq!(clipboard_sequence(""), "\x1b]52;c;\x07");
    assert_eq!(clipboard_sequence("ab"), "\x1b]52;c;YWI=\x07");
    assert_eq!(clipboard_sequence("GPT-4.1"), "\x1b]52;c;R1BULTQuMQ==\x07");
    assert_eq!(clipboard_sequence("é"), "\x1b]52;c;w6k=\x07");
}

#[test]
fn board_shortcuts() {
    assert_eq!(Board::from_shortcut('1'), Some(0));
    assert_eq!(Board::from_shortcut('3'), Some(2));
    assert_eq!(Board::from_shortcut('4'), None);
    assert_eq!(Board::shortcut(0), Some('1'));
    assert_eq!(Board::shortcut(11), Some('='));
    assert_eq!(Board::shortcut(12), None);
    assert_eq!(Board::all(), vec![Board::Aa, Board::AaAgents, Board::DeepSwe]);
}

#[test]
fn highlight_ranges_follow_the_earliest_token() {
    let toks = |ts: &[&str]| ts.iter().map(|t| t.to_string()).collect::<Vec<String>>();
    // The text is lowercased before matching; the ranges are byte offsets.
    assert_eq!(highlight_ranges("GPT-5 Mini", &toks(&["mini"])), vec![(6, 10)]);
    assert_eq!(highlight_ranges("Sonnet Four", &toks(&["four", "son"])), vec![(0, 3), (7, 11)]);
    // Of tokens at the same byte the first listed wins, and the search goes
    // on from the end of the match.
    assert_eq!(highlight_ranges("aaaa", &toks(&["a", "aa"])), vec![(0, 1), (1, 2), (2, 3), (3, 4)]);
    assert_eq!(highlight_ranges("aaaa", &toks(&["aa", "a"])), vec![(0, 2), (2, 4)]);
    assert_eq!(highlight_ranges("Acme Code", &toks(&["zzz"])), vec![]);
    assert_eq!(highlight_ranges("Acme Code", &toks(&[])), vec![]);
    assert_eq!(highlight_ranges("Acme Code", &toks(&["", ""])), vec![]);
}

#[test]
fn header_and_footer_texts() {
    assert_eq!(Board::Aa.label(), "AA");
    assert_eq!(Board::AaAgents.label(), "AA Agents");
    assert_eq!(Board::DeepSwe.label(), "DeepSWE");
    assert_eq!(board_source(Board::Aa), "artificialanalysis.ai");
    assert_eq!(board_source(Board::AaAgents), "artificialanalysis.ai/agents/coding-agents");
    assert_eq!(board_source(Board::DeepSwe), "deepswe.datacurve.ai");
    assert_eq!(sort_key_hint(Board::Aa), "i/s/p/d/c");
    assert_eq!(sort_key_hint(Board::AaAgents), "i/a/p/t/u/s");
    assert_eq!(sort_key_hint(Board::DeepSwe), "a/p/t/u/s");
    assert_eq!(showing_label(true, 3, 12), "  showing 3/12");
    assert_eq!(showing_label(true, 12, 12), "");
    assert_eq!(showing_label(false, 3, 12), "");
}

#[test]
fn layout_thresholds() {
    assert!(too_small(35, 7));
    assert!(too_small(35, 40));
    assert!(too_small(128, 7));
    assert!(!too_small(36, 8));
    assert_eq!(detail_split(Board::Aa, 116, 12), Some((72, 34)));
    assert_eq!(detail_split(Board::Aa, 115, 30), None);
    assert_eq!(detail_split(Board::Aa, 200, 11), None);
    assert_eq!(detail_split(Board::AaAgents, 131, 30), None);
    assert_eq!(detail_split(Board::AaAgents, 132, 30), Some((88, 38)));
    assert_eq!(detail_split(Board::DeepSwe, 110, 12), Some((72, 34)));
}

#[test]
fn highlight_segments_cover_the_text() {
    let toks = |ts: &[&str]| ts.iter().map(|t| t.to_string()).collect::<Vec<String>>();
    assert_eq!(
        highlight_segments("GPT-5 Mini", &toks(&["mini"])),
        vec![(0, 6, false), (6, 10, true)]
    );
    assert_eq!(
        highlight_segments("Sonnet Four x", &toks(&["four", "son"])),
        vec![(0, 3, true), (3, 7, false), (7, 11, true), (11, 13, false)]
    );
    assert_eq!(highlight_segments("abc", &toks(&[])), vec![(0, 3, false)]);
    assert_eq!(highlight_segments("abc", &toks(&["", ""])), vec![(0, 3, false)]);
    assert_eq!(highlight_segments("abc", &toks(&["zz"])), vec![(0, 3, false)]);
    assert_eq!(highlight_segments("", &toks(&["zz"])), vec![]);
}

#[test]
fn body_panels_and_header_segments() {
    let loaded = Status::Loaded(Data::Aa(vec![]));
    assert_eq!(body_panel(None, 0, false, View::Table), Panel::Loading);
    assert_eq!(body_panel(Some(&Status::Loading), 0, false, View::Table), Panel::Loading);
    assert_eq!(body_panel(Some(&Status::Error("x".to_string())), 0, true, View::Chart), Panel::Error);
    assert_eq!(body_panel(Some(&loaded), 0, true, View::Table), Panel::FilterEmpty);
    assert_eq!(body_panel(Some(&loaded), 0, false, View::Table), Panel::Table);
    assert_eq!(body_panel(Some(&loaded), 3, true, View::Chart), Panel::Chart);
    let base = vec![
        HeaderSegment::Source,
        HeaderSegment::Status,
        HeaderSegment::View,
        HeaderSegment::Sort,
    ];
    assert_eq!(header_segments(false, false), base);
    let mut all = base.clone();
    all.push(HeaderSegment::Filter);
    all.push(HeaderSegment::Copied);
    assert_eq!(header_segments(true, true), all);
    let mut copied = base.clone();
    copied.push(HeaderSegment::Copied);
    assert_eq!(header_segments(false, true), copied);
}

#[test]
fn footer_texts_for_the_board_on_screen() {
    let mut app = AppState::new();
    let (pos, showing, hint) = footer_labels(&app);
    assert_eq!((pos.as_str(), showing.as_str(), hint), ("", "", "i/s/p/d/c"));
    app.set_status(Board::Aa, Status::Loaded(Data::Aa(vec![])));
    let (pos, _, _) = footer_labels(&app);
    assert_eq!(pos, "");
    app.select_board(2);
    let (_, _, hint) = footer_labels(&app);
    assert_eq!(hint, "a/p/t/u/s");
}

#[test]
fn chart_preferences_and_metric_slots() {
    assert_eq!(agent_chart_preference(AgentKey::Index), ChartPreference::Higher);
    assert_eq!(agent_chart_preference(AgentKey::Pass), ChartPreference::Higher);
    assert_eq!(agent_chart_preference(AgentKey::Cost), ChartPreference::Lower);
    assert_eq!(agent_chart_preference(AgentKey::Turns), ChartPreference::Lower);
    assert_eq!(deepswe_chart_preference(DeepSweKey::Pass), ChartPreference::Higher);
    assert_eq!(deepswe_chart_preference(DeepSweKey::Steps), ChartPreference::Lower);
    assert_eq!(agent_key_slot(AgentKey::Index), 0);
    assert_eq!(agent_key_slot(AgentKey::Turns), 5);
    assert_eq!(deepswe_key_slot(DeepSweKey::Pass), 0);
    assert_eq!(deepswe_key_slot(DeepSweKey::Steps), 4);
}
