use llmpk::aa::Model;
use llmpk::board::{Board, Data, Status};
use llmpk::input::{
    handle_key, handle_mouse, key_command, Command, Effect, KeyCode, KeyPress, MouseKind,
};
use llmpk::metric::Metric;
use llmpk::sort::{AaKey, SortDir};
use llmpk::state::{AppState, View};

fn press(c: char) -> KeyPress {
    KeyPress { code: KeyCode::Char(c), control: false, plain: true }
}

fn ctrl(c: char) -> KeyPress {
    KeyPress { code: KeyCode::Char(c), control: true, plain: false }
}

fn key(code: KeyCode) -> KeyPress {
    KeyPress { code, control: false, plain: true }
}

fn model(id: &str, name: &str, price: f64) -> Model {
    Model {
        id: id.to_string(),
        slug: None,
        name: name.to_string(),
        model_creators: None,
        intelligence_index: None,
        timescale: None,
        price_1m_blended: Some(Metric { bits: price.to_bits() }),
        price_1m_blended_no_cache: None,
        price_1m_input_tokens: None,
        price_1m_output_tokens: None,
        cache_hit_price: None,
        cache_write_price: None,
        cache_hit_discount: None,
        context_window_tokens: None,
        release_date: None,
        is_open_weights: None,
    }
}

#[test]
fn keys_map_to_commands() {
    assert_eq!(key_command(ctrl('c'), true, true), Command::Quit);
    assert_eq!(key_command(press('q'), true, false), Command::Quit);
    assert_eq!(key_command(press('j'), true, false), Command::Nothing);
    assert_eq!(key_command(key(KeyCode::Esc), true, false), Command::CloseHelp);
    assert_eq!(key_command(ctrl('u'), false, false), Command::ClearFilter);
    assert_eq!(key_command(press('q'), false, true), Command::PushFilterChar('q'));
    assert_eq!(key_command(key(KeyCode::Enter), false, true), Command::FinishFilter);
    assert_eq!(key_command(key(KeyCode::Backspace), false, true), Command::PopFilterChar);
    assert_eq!(key_command(ctrl('x'), false, true), Command::Nothing);
    assert_eq!(key_command(press('['), false, false), Command::PrevBoard);
    assert_eq!(key_command(press('2'), false, false), Command::JumpTo(1));
    assert_eq!(key_command(press('9'), false, false), Command::Nothing);
    assert_eq!(key_command(press('p'), false, false), Command::CycleSort('p'));
    assert_eq!(key_command(press('c'), false, false), Command::CycleSort('c'));
    assert_eq!(key_command(press('G'), false, false), Command::Bottom);
    assert_eq!(key_command(key(KeyCode::Home), false, false), Command::Top);
    assert_eq!(key_command(press('x'), false, false), Command::Nothing);
}

#[test]
fn switching_to_an_unloaded_board_asks_for_it() {
    let mut app = AppState::new();
    app.set_status(Board::Aa, Status::Loading);
    assert_eq!(handle_key(press(']'), &mut app), Effect::Fetch(Board::AaAgents));
    assert_eq!(app.current_board(), Board::AaAgents);
    assert!(matches!(app.status(Board::AaAgents), Some(Status::Loading)));
    // Loading already: no second fetch.
    assert_eq!(handle_key(press('r'), &mut app), Effect::Nothing);
    assert_eq!(handle_key(press('['), &mut app), Effect::Nothing);
    assert_eq!(app.current_board(), Board::Aa);
    assert_eq!(handle_key(press('['), &mut app), Effect::Fetch(Board::DeepSwe));
    app.set_status(Board::DeepSwe, Status::Error("boom".to_string()));
    assert_eq!(handle_key(press('r'), &mut app), Effect::Fetch(Board::DeepSwe));
    assert_eq!(handle_key(press('q'), &mut app), Effect::Quit);
}

#[test]
fn keys_drive_the_state() {
    let mut app = AppState::new();
    app.set_status(
        Board::Aa,
        Status::Loaded(Data::Aa(vec![model("dear", "Dear", 5.0), model("cheap", "Cheap", 0.5)])),
    );
    assert_eq!(handle_key(press('?'), &mut app), Effect::Nothing);
    assert!(app.is_help_open());
    handle_key(press('h'), &mut app);
    assert!(!app.is_help_open());
    handle_key(press('m'), &mut app);
    assert_eq!(app.current_view(), View::Chart);
    handle_key(press('z'), &mut app);
    assert!(app.is_compact());
    handle_key(press('p'), &mut app);
    assert_eq!(app.aa_sort().key, AaKey::Price);
    assert_eq!(app.aa_sort().dir, SortDir::Asc);
    handle_key(key(KeyCode::Down), &mut app);
    assert_eq!(app.selected_idx(), 1);
    assert_eq!(handle_key(press('y'), &mut app), Effect::Copy("Dear".to_string()));
    handle_key(press('o'), &mut app);
    assert_eq!(app.aa_sort().dir, SortDir::Desc);
    assert_eq!(app.selected_idx(), 0);
    assert_eq!(handle_key(press('y'), &mut app), Effect::Copy("Dear".to_string()));
    handle_key(press('/'), &mut app);
    assert!(app.is_filter_editing());
    for c in "che".chars() {
        handle_key(press(c), &mut app);
    }
    assert_eq!(app.current_filter(), "che");
    assert_eq!(app.row_count(Board::Aa), 1);
    handle_key(key(KeyCode::Backspace), &mut app);
    assert_eq!(app.current_filter(), "ch");
    handle_key(key(KeyCode::Esc), &mut app);
    assert!(!app.is_filter_editing());
    assert_eq!(app.current_filter(), "ch");
    handle_key(ctrl('u'), &mut app);
    assert_eq!(app.current_filter(), "");
    assert_eq!(app.row_count(Board::Aa), 2);
}

#[test]
fn mouse_scrolls_and_picks_tabs() {
    let mut app = AppState::new();
    app.set_status(Board::AaAgents, Status::Loading);
    assert_eq!(handle_mouse(MouseKind::LeftDown, 1, 50, 90, &mut app), Effect::Nothing);
    assert_eq!(app.current_board(), Board::AaAgents);
    assert_eq!(handle_mouse(MouseKind::LeftDown, 1, 89, 90, &mut app), Effect::Fetch(Board::DeepSwe));
    assert_eq!(app.current_board(), Board::DeepSwe);
    assert_eq!(handle_mouse(MouseKind::LeftDown, 5, 0, 90, &mut app), Effect::Nothing);
    assert_eq!(app.current_board(), Board::DeepSwe);
    assert_eq!(handle_mouse(MouseKind::LeftDown, 0, 0, 0, &mut app), Effect::Nothing);
    handle_mouse(MouseKind::ScrollUp, 10, 10, 90, &mut app);
    assert_eq!(app.selected(Board::DeepSwe), Some(0));
}

#[test]
fn cycling_boards_wraps_around() {
    let mut app = AppState::new();
    app.cycle_board(-1);
    assert_eq!(app.current_board(), Board::DeepSwe);
    app.cycle_board(1);
    assert_eq!(app.current_board(), Board::Aa);
    app.cycle_board(4);
    assert_eq!(app.current_board(), Board::AaAgents);
    app.select_board(7);
    assert_eq!(app.current_board(), Board::AaAgents);
}

#[test]
fn control_characters_do_not_enter_filters() {
    let mut app = AppState::new();
    app.push_filter_char('\u{7}');
    assert_eq!(app.current_filter(), "");
    app.push_filter_char('x');
    app.pop_filter_char();
    app.pop_filter_char();
    assert_eq!(app.current_filter(), "");
}
