use stui::app::{listed_order, App, Effect, KeyCode, KeyEvent};
use stui::layout::{header_line, HeaderLine};
use stui::model::{Game, State};

fn sample_games() -> Vec<Game> {
    vec![
        Game {
            id: "1".into(),
            name: "Alpha Game".into(),
            hidden: false,
            playtime: 120,
            favorite: false,
        },
        Game {
            id: "2".into(),
            name: "Beta Game".into(),
            hidden: false,
            playtime: 60,
            favorite: true,
        },
        Game {
            id: "3".into(),
            name: "Gamma Game".into(),
            hidden: true,
            playtime: 0,
            favorite: false,
        },
        Game {
            id: "4".into(),
            name: "Delta Game".into(),
            hidden: false,
            playtime: 300,
            favorite: false,
        },
    ]
}

fn key(code: KeyCode) -> KeyEvent {
    KeyEvent::new(code, false)
}

#[test]
fn test_app_initialization_with_last_selected() {
    let games = sample_games();
    let app = App::new(games, false, Some("4"), true);
    assert_eq!(app.cursor, 3);
    assert_eq!(app.games[app.cursor].id, "4");
}

#[test]
fn test_filtered_indices_ordering() {
    let games = sample_games();
    let app = App::new(games, false, None, true);
    let visual = app.filtered_indices();

    // Favorite ("Beta Game", index 1) should be first, followed by Alpha (0) and Delta (3)
    assert_eq!(visual, vec![1, 0, 3]);
}

#[test]
fn test_navigation_wrap_around() {
    let games = sample_games();
    let mut app = App::new(games, false, None, true);
    // visual order: [1 (Beta), 0 (Alpha), 3 (Delta)]
    app.cursor = 1;

    app.next_item();
    assert_eq!(app.cursor, 0);

    app.next_item();
    assert_eq!(app.cursor, 3);

    app.next_item();
    assert_eq!(app.cursor, 1);

    app.prev_item();
    assert_eq!(app.cursor, 3);
}

#[test]
fn test_search_filtering() {
    let games = sample_games();
    let mut app = App::new(games, false, None, true);

    app.handle_key_event(key(KeyCode::Char('/')));
    assert!(app.searching);

    app.handle_key_event(key(KeyCode::Char('d')));
    app.handle_key_event(key(KeyCode::Char('e')));
    assert_eq!(app.search_query, "de");

    let visual = app.filtered_indices();
    assert_eq!(visual, vec![3]); // "Delta Game"
    assert_eq!(app.cursor, 3);

    // Press Enter to confirm search filter
    app.handle_key_event(key(KeyCode::Enter));
    assert!(!app.searching);
    assert_eq!(app.filtered_indices(), vec![3]);

    // Press Esc to clear filter
    app.handle_key_event(key(KeyCode::Esc));
    assert_eq!(app.search_query, "");
    assert_eq!(app.filtered_indices(), vec![1, 0, 3]);
}

#[test]
fn test_toggle_view_mode() {
    let games = sample_games();
    let mut app = App::new(games, false, None, true);
    assert!(!app.show_hidden);

    app.toggle_view_mode();
    assert!(app.show_hidden);
    let visual = app.filtered_indices();
    assert_eq!(visual, vec![2]); // Gamma Game (hidden)
    assert_eq!(app.cursor, 2);
}

#[test]
fn new_falls_back_to_first_unhidden_game() {
    let mut games = sample_games();
    games[0].hidden = true;
    // "3" is hidden, so it is not selected
    let app = App::new(games, true, Some("3"), false);
    assert_eq!(app.cursor, 1);
    assert!(!app.steam_online);
    assert!(app.quit_after_launch);
    let app = App::new(Vec::new(), false, Some("9"), true);
    assert_eq!(app.cursor, 0);
}

#[test]
fn navigation_records_the_selection() {
    let mut app = App::new(sample_games(), false, None, true);
    app.cursor = 3;
    let effects = app.next_item();
    assert_eq!(app.cursor, 1);
    assert_eq!(effects, vec![Effect::SaveState("2".to_string())]);
    let effects = app.prev_item();
    assert_eq!(app.cursor, 3);
    assert_eq!(effects, vec![Effect::SaveState("4".to_string())]);
}

#[test]
fn navigation_from_an_unlisted_game() {
    let mut app = App::new(sample_games(), false, None, true);
    app.cursor = 2; // hidden, not listed
    app.next_item();
    assert_eq!(app.cursor, 1);
    app.cursor = 2;
    app.prev_item();
    assert_eq!(app.cursor, 3);
}

#[test]
fn navigation_on_an_empty_list_does_nothing() {
    let mut app = App::new(sample_games(), false, None, true);
    app.search_query = "zzz".to_string();
    app.cursor = 3;
    assert_eq!(app.next_item(), vec![]);
    assert_eq!(app.cursor, 3);
    assert_eq!(app.prev_item(), vec![]);
    let effects = app.snap_cursor_to_first_match();
    assert_eq!(app.cursor, 0);
    assert_eq!(effects, vec![Effect::SaveState("1".to_string())]);
}

#[test]
fn search_ignores_case() {
    let mut app = App::new(sample_games(), false, None, true);
    app.search_query = "DELTA".to_string();
    assert_eq!(app.filtered_indices(), vec![3]);
    app.search_query = "game".to_string();
    assert_eq!(app.filtered_indices(), vec![1, 0, 3]);
}

#[test]
fn equal_names_keep_library_order() {
    let mut games = sample_games();
    games[3].name = "Alpha Game".into();
    let app = App::new(games, false, None, true);
    assert_eq!(app.filtered_indices(), vec![1, 0, 3]);
}

#[test]
fn backspace_edits_the_query() {
    let mut app = App::new(sample_games(), false, None, true);
    app.handle_key_event(key(KeyCode::Char('/')));
    app.handle_key_event(key(KeyCode::Char('b')));
    assert_eq!(app.cursor, 1);
    let effects = app.handle_key_event(key(KeyCode::Backspace));
    assert_eq!(app.search_query, "");
    assert_eq!(app.cursor, 1);
    assert_eq!(effects, vec![Effect::SaveState("2".to_string())]);
    app.handle_key_event(key(KeyCode::Backspace));
    assert_eq!(app.search_query, "");
    let effects = app.handle_key_event(key(KeyCode::Up));
    assert!(effects.is_empty());
    assert!(app.searching);
    app.handle_key_event(key(KeyCode::Esc));
    assert!(!app.searching);
}

#[test]
fn toggle_favorite_twice_restores() {
    let mut app = App::new(sample_games(), false, None, true);
    assert_eq!(app.toggle_favorite(), vec![Effect::SaveGames]);
    assert!(app.games[0].favorite);
    assert_eq!(app.filtered_indices(), vec![0, 1, 3]);
    app.toggle_favorite();
    assert_eq!(app.games, sample_games());
    app.cursor = 10;
    assert_eq!(app.toggle_favorite(), vec![]);
}

#[test]
fn toggle_hidden_moves_to_next_visible_game() {
    let mut app = App::new(sample_games(), false, None, true);
    let effects = app.toggle_hidden();
    assert!(app.games[0].hidden);
    assert_eq!(app.cursor, 1);
    assert_eq!(effects, vec![Effect::SaveGames, Effect::SaveState("2".to_string())]);
    // from the last game, the search goes backwards
    app.cursor = 3;
    app.toggle_hidden();
    assert!(app.games[3].hidden);
    assert_eq!(app.cursor, 1);
    // nothing left in view
    app.cursor = 1;
    app.toggle_hidden();
    assert_eq!(app.cursor, 0);
}

#[test]
fn toggle_view_mode_twice() {
    let mut app = App::new(sample_games(), false, None, true);
    app.toggle_view_mode();
    let effects = app.toggle_view_mode();
    assert!(!app.show_hidden);
    assert_eq!(app.cursor, 0);
    assert_eq!(effects, vec![Effect::SaveState("1".to_string())]);
}

#[test]
fn steam_status_keys() {
    let mut app = App::new(sample_games(), false, None, true);
    assert_eq!(app.handle_key_event(key(KeyCode::Char('o'))), vec![Effect::SetSteamStatus(false)]);
    assert!(!app.steam_online);
    assert_eq!(app.handle_key_event(key(KeyCode::Char('O'))), vec![Effect::SetSteamStatus(true)]);
    assert!(app.steam_online);
}

#[test]
fn launch_and_quit() {
    let mut app = App::new(sample_games(), true, Some("2"), true);
    let effects = app.handle_key_event(key(KeyCode::Enter));
    assert_eq!(
        effects,
        vec![Effect::SaveState("2".to_string()), Effect::LaunchGame("2".to_string())]
    );
    assert!(app.should_quit);

    let mut app = App::new(sample_games(), false, None, true);
    app.launch_selected();
    assert!(!app.should_quit);
    app.cursor = 7;
    assert_eq!(app.launch_selected(), vec![]);
}

#[test]
fn quit_keys() {
    let mut app = App::new(sample_games(), false, None, true);
    app.handle_key_event(key(KeyCode::Char('c')));
    assert!(!app.should_quit);
    let effects = app.handle_key_event(KeyEvent::new(KeyCode::Char('c'), true));
    assert!(app.should_quit);
    assert_eq!(effects, vec![Effect::SaveState("1".to_string())]);
    let mut app = App::new(sample_games(), false, None, true);
    app.handle_key_event(key(KeyCode::Char('q')));
    assert!(app.should_quit);
}

#[test]
fn command_keys() {
    let mut app = App::new(sample_games(), false, None, true);
    app.handle_key_event(key(KeyCode::Char('j')));
    assert_eq!(app.cursor, 3);
    app.handle_key_event(key(KeyCode::Down));
    assert_eq!(app.cursor, 1);
    app.handle_key_event(key(KeyCode::Char('k')));
    assert_eq!(app.cursor, 3);
    app.handle_key_event(key(KeyCode::Char('f')));
    assert!(app.games[3].favorite);
    app.handle_key_event(key(KeyCode::Char('H')));
    assert!(app.show_hidden);
    app.handle_key_event(key(KeyCode::Char('h')));
    assert!(!app.games[2].hidden);
    assert_eq!(app.handle_key_event(key(KeyCode::Other)), vec![]);
    assert_eq!(app.handle_key_event(key(KeyCode::Char('x'))), vec![]);
}

#[test]
fn save_current_state_needs_a_selection() {
    let mut app = App::new(sample_games(), false, None, true);
    assert_eq!(app.save_current_state(), Some("1".to_string()));
    app.cursor = 4;
    assert_eq!(app.save_current_state(), None);
}

#[test]
fn last_selected_state() {
    let state = State::default();
    assert_eq!(state.last_selected(), None);
    let state = State { last_selected_id: "105600".to_string() };
    assert_eq!(state.last_selected(), Some("105600"));
}

#[test]
fn listed_order_on_given_lowered_names() {
    let games = sample_games();
    let lowered: Vec<String> =
        vec!["alpha game".into(), "beta game".into(), "gamma game".into(), "delta game".into()];
    assert_eq!(listed_order(&games, false, &lowered, ""), vec![1, 0, 3]);
    assert_eq!(listed_order(&games, false, &lowered, "de"), vec![3]);
    assert_eq!(listed_order(&games, false, &lowered, "game"), vec![1, 0, 3]);
    assert_eq!(listed_order(&games, true, &lowered, "game"), vec![2]);
    // the filter goes by the lowered names it is given
    let other: Vec<String> = vec!["x".into(), "q".into(), "x".into(), "q".into()];
    assert_eq!(listed_order(&games, false, &other, "q"), vec![1, 3]);
    assert_eq!(listed_order(&games, false, &other, "DE"), Vec::<usize>::new());
}

#[test]
fn query_matching_ignores_case() {
    let mut a = App::new(sample_games(), false, None, true);
    let mut b = App::new(sample_games(), false, None, true);
    a.search_query = "DE".to_string();
    b.search_query = "de".to_string();
    assert_eq!(a.filtered_indices(), vec![3]);
    assert_eq!(a.filtered_indices(), b.filtered_indices());
    b.search_query = "delta".to_string();
    assert_eq!(b.filtered_indices(), vec![3]);
}

#[test]
fn header_second_line() {
    assert_eq!(header_line(true, "", true), HeaderLine::Search);
    assert_eq!(header_line(false, "de", true), HeaderLine::Filtered);
    assert_eq!(header_line(false, "", true), HeaderLine::ShowingHidden);
    assert_eq!(header_line(false, "", false), HeaderLine::Blank);
}
