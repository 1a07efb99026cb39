use arxiv_tui::arxiv::{Entry, SearchError};
use arxiv_tui::state::{Action, Event, HomePanel, InputState, Key, MenuItem, TuiState};

fn entry(n: usize) -> Entry {
    Entry {
        title: format!("Paper {}", n),
        pdf_link: format!("http://arxiv.org/pdf/{}", n),
        authors: format!("Author {}", n),
        summary: format!("Summary {}", n),
    }
}

fn normal_state_with(n: usize, selected: usize) -> TuiState {
    let mut state = TuiState::default();
    state.input_state = InputState::NormalMode;
    state.data = Some((0..n).map(entry).collect());
    state.selected = selected;
    state
}

fn typed(state: &mut TuiState, text: &str) {
    for c in text.chars() {
        assert!(matches!(state.handle_key(Key::Char(c)), Action::Nothing));
    }
}

#[test]
fn default_state() {
    let state = TuiState::default();
    assert_eq!(state.input, "");
    assert_eq!(state.input_state, InputState::InsertMode);
    assert_eq!(state.selected, 0);
    assert_eq!(state.active_home_panel, HomePanel::SearchBar);
    assert_eq!(state.page, MenuItem::Home);
    assert!(state.data.is_none());
    assert!(state.status.is_none());
    assert_eq!(state.data_len(), 0);
    assert!(state.get_selected_entry().is_none());
}

#[test]
fn insert_mode_edits_query() {
    let mut state = TuiState::default();
    typed(&mut state, "qubit");
    assert_eq!(state.input, "qubit");
    assert_eq!(state.input_state, InputState::InsertMode);
    assert!(matches!(state.handle_key(Key::Backspace), Action::Nothing));
    assert_eq!(state.input, "qubi");
    assert!(matches!(state.handle_key(Key::Up), Action::Nothing));
    assert_eq!(state.input, "qubi");
}

#[test]
fn backspace_on_empty_query_is_noop() {
    let mut state = TuiState::default();
    assert!(matches!(state.handle_key(Key::Backspace), Action::Nothing));
    assert_eq!(state.input, "");
    assert_eq!(state.input_state, InputState::InsertMode);
}

#[test]
fn q_in_insert_mode_is_a_character() {
    let mut state = TuiState::default();
    assert!(matches!(state.handle_key(Key::Char('q')), Action::Nothing));
    assert_eq!(state.input, "q");
    assert_eq!(state.input_state, InputState::InsertMode);
}

#[test]
fn escape_leaves_insert_mode() {
    let mut state = TuiState::default();
    typed(&mut state, "ab");
    assert!(matches!(state.handle_key(Key::Esc), Action::Nothing));
    assert_eq!(state.input_state, InputState::NormalMode);
    assert_eq!(state.input, "ab");
}

#[test]
fn normal_mode_keys_enter_insert_mode() {
    for c in ['i', 's', '/'] {
        let mut state = normal_state_with(2, 1);
        assert!(matches!(state.handle_key(Key::Char(c)), Action::Nothing));
        assert_eq!(state.input_state, InputState::InsertMode);
        assert_eq!(state.selected, 1);
        assert_eq!(state.input, "");
    }
}

#[test]
fn q_in_normal_mode_quits() {
    let mut state = normal_state_with(2, 1);
    assert!(matches!(state.handle_key(Key::Char('q')), Action::Quit));
    assert_eq!(state.input_state, InputState::NormalMode);
    assert_eq!(state.selected, 1);
}

#[test]
fn enter_submits_search() {
    let mut state = TuiState::default();
    typed(&mut state, "\"quantum computing\"");
    match state.handle_key(Key::Enter) {
        Action::Search(url) => assert_eq!(
            url,
            "http://export.arxiv.org/api/query?search_query=all:%22quantum+computing%22&start=0&max_results=10"
        ),
        other => panic!("unexpected action {:?}", other),
    }
    assert_eq!(state.input_state, InputState::NormalMode);
    assert_eq!(state.input, "\"quantum computing\"");
}

#[test]
fn navigation_wraps_down() {
    let mut state = normal_state_with(3, 0);
    state.handle_key(Key::Char('j'));
    assert_eq!(state.selected, 1);
    state.handle_key(Key::Down);
    assert_eq!(state.selected, 2);
    state.handle_key(Key::Char('j'));
    assert_eq!(state.selected, 0);
}

#[test]
fn navigation_wraps_up() {
    let mut state = normal_state_with(3, 0);
    state.handle_key(Key::Char('k'));
    assert_eq!(state.selected, 2);
    state.handle_key(Key::Up);
    assert_eq!(state.selected, 1);
}

#[test]
fn advancing_len_times_returns_to_start() {
    for start in 0..4 {
        let mut state = normal_state_with(4, start);
        for _ in 0..4 {
            state.select_next();
        }
        assert_eq!(state.selected, start);
        for _ in 0..4 {
            state.select_previous();
        }
        assert_eq!(state.selected, start);
    }
}

#[test]
fn navigation_on_empty_results_is_noop() {
    let mut state = TuiState::default();
    state.input_state = InputState::NormalMode;
    state.handle_key(Key::Char('j'));
    assert_eq!(state.selected, 0);
    state.handle_key(Key::Char('k'));
    assert_eq!(state.selected, 0);
    assert!(matches!(state.handle_key(Key::Enter), Action::Nothing));
    let mut state = normal_state_with(0, 0);
    state.handle_key(Key::Down);
    state.handle_key(Key::Up);
    assert_eq!(state.selected, 0);
}

#[test]
fn enter_in_normal_mode_opens_selected_link() {
    let mut state = normal_state_with(3, 1);
    match state.handle_key(Key::Enter) {
        Action::Open(link) => assert_eq!(link, "http://arxiv.org/pdf/1"),
        other => panic!("unexpected action {:?}", other),
    }
    assert_eq!(state.selected, 1);
    assert_eq!(state.input_state, InputState::NormalMode);
    assert_eq!(state.input, "");
    assert_eq!(state.data_len(), 3);
    assert!(state.status.is_none());
    let data = state.data.as_ref().unwrap();
    for (i, e) in data.iter().enumerate() {
        assert_eq!(e.pdf_link, format!("http://arxiv.org/pdf/{}", i));
    }
}

#[test]
fn selected_entry() {
    let state = normal_state_with(3, 2);
    assert_eq!(state.get_selected_entry().unwrap().title, "Paper 2");
    let state = normal_state_with(3, 5);
    assert!(state.get_selected_entry().is_none());
}

#[test]
fn search_replaces_results() {
    let mut state = normal_state_with(3, 2);
    state.search(Ok(String::from(
        "<feed><entry><title>T</title></entry><entry/></feed>",
    )));
    assert_eq!(state.data_len(), 2);
    assert_eq!(state.selected, 0);
    assert_eq!(state.get_selected_entry().unwrap().title, "T");
    assert!(state.status.is_none());
}

#[test]
fn failed_search_keeps_results() {
    let mut state = normal_state_with(3, 2);
    state.search(Err(SearchError::Timeout));
    assert_eq!(state.status, Some(SearchError::Timeout));
    assert_eq!(state.data_len(), 3);
    assert_eq!(state.selected, 2);
    state.search(Ok(String::from("<feed>")));
    assert_eq!(state.status, Some(SearchError::MalformedFeed));
    assert_eq!(state.data_len(), 3);
    state.show_results(Err(SearchError::HttpError(503)));
    assert_eq!(state.status, Some(SearchError::HttpError(503)));
    state.show_results(Err(SearchError::NetworkError));
    assert_eq!(state.status, Some(SearchError::NetworkError));
    state.show_results(Ok(vec![entry(7)]));
    assert!(state.status.is_none());
    assert_eq!(state.get_selected_entry().unwrap().title, "Paper 7");
}

#[test]
fn mode_line_text() {
    assert_eq!(InputState::NormalMode.to_string(), "= NORMAL MODE = (Select a paper)");
    assert_eq!(InputState::InsertMode.to_string(), "= INSERT MODE = (Search for results)");
}

#[test]
fn menu_item_positions() {
    assert_eq!(usize::from(MenuItem::Home), 0);
    assert_eq!(usize::from(MenuItem::Search), 1);
    assert_eq!(usize::from(MenuItem::Favorites), 2);
    assert_eq!(usize::from(MenuItem::Settings), 3);
}

#[test]
fn events_carry_input() {
    let e: Event<Key> = Event::Input(Key::Enter);
    assert!(matches!(e, Event::Input(Key::Enter)));
    let t: Event<Key> = Event::Tick;
    assert!(matches!(t, Event::Tick));
}
