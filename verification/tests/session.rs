use refline::app::{toggle_context_page, ContextPage, MenuAction};
use refline::figure_drawing::{
    keypress, FigureDrawingState, KeyInput, NamedKey, SessionError, DEFAULT_DURATION_MS,
    MAX_DECODE_RETRIES,
};
use refline::reference::{RefStore, Reference};
use refline::reference_board;
use refline::reference_board::BoardCommand;
use refline::reference_pane::Pane;

fn refs(paths: &[&str]) -> Vec<Reference> {
    paths.iter().map(|p| Reference::new(String::from(*p))).collect()
}

fn store_with_three_images() -> RefStore {
    let mut store = RefStore::new();
    store.push_folder(
        String::from("/r"),
        true,
        refs(&["/r/1.jpg", "/r/2.jpg", "/r/3.jpg"]),
    );
    store
}

#[test]
fn default_session_state() {
    let state = FigureDrawingState::default();
    assert!(state.current_ref.is_none());
    assert!(state.history.is_empty());
    assert!(state.sfw_only);
    assert_eq!(state.duration_per_image, DEFAULT_DURATION_MS);
    assert_eq!(state.decode_failures, 0);
}

#[test]
fn empty_store_fails_without_touching_history() {
    let store = RefStore::new();
    let mut state = FigureDrawingState::default();
    assert!(state.sfw_only);
    let r = state.load_new_reference(&store);
    assert!(matches!(r, Err(SessionError::EmptyStore)));
    assert!(state.history.is_empty());
    assert!(state.current_ref.is_none());
}

#[test]
fn sfw_filter_hides_every_unsafe_folder() {
    let mut store = RefStore::new();
    store.push_folder(String::from("/n"), false, refs(&["/n/1.jpg"]));
    let mut state = FigureDrawingState::default();
    // Only an unsafe folder is registered, so the filtered view is empty.
    let r = state.load_new_reference(&store);
    assert!(matches!(r, Err(SessionError::EmptyStore)));
    state.set_filter(false);
    let r = state.load_new_reference(&store);
    assert_eq!(r.unwrap().path, "/n/1.jpg");
    assert_eq!(state.history.len(), 1);
}

#[test]
fn draws_are_in_range_and_roughly_uniform() {
    let store = store_with_three_images();
    let mut state = FigureDrawingState::default();
    assert_eq!(store.reference_count(false), 3);
    let mut counts = [0usize; 3];
    for _ in 0..1000 {
        let picked = state.load_new_reference(&store).unwrap();
        match picked.path.as_str() {
            "/r/1.jpg" => counts[0] += 1,
            "/r/2.jpg" => counts[1] += 1,
            "/r/3.jpg" => counts[2] += 1,
            other => panic!("picked a path outside the store: {other}"),
        }
    }
    assert_eq!(state.history.len(), 1000);
    for c in counts {
        assert!((200..=470).contains(&c), "draws are far from uniform: {counts:?}");
    }
}

#[test]
fn first_load_seeds_the_cursor_once() {
    let store = store_with_three_images();
    let mut state = FigureDrawingState::default();
    state.load_new_reference(&store).unwrap();
    assert_eq!(state.current_ref, Some(0));
    state.load_new_reference(&store).unwrap();
    // Further loads extend history without moving the cursor.
    assert_eq!(state.current_ref, Some(0));
    assert_eq!(state.history.len(), 2);
}

#[test]
fn navigate_forward_after_first_load_keeps_history() {
    let store = store_with_three_images();
    let mut state = FigureDrawingState::default();
    state.load_new_reference(&store).unwrap();
    let len_before = state.history.len();
    state.navigate(1);
    assert_eq!(state.history.len(), len_before);
}

#[test]
fn navigate_at_end_triggers_exactly_one_load() {
    let store = store_with_three_images();
    let mut state = FigureDrawingState::default();
    state.load_new_reference(&store).unwrap();
    // Cursor stands at the last history position.
    assert_eq!(state.current_ref, Some(state.history.len() - 1));
    let needs_load = state.navigate(1);
    assert!(needs_load);
    let len_before = state.history.len();
    state.load_new_reference(&store).unwrap();
    assert_eq!(state.history.len(), len_before + 1);
    assert_eq!(state.current_ref, Some(1));
}

#[test]
fn navigating_backward_never_loads_nor_goes_below_zero() {
    let store = store_with_three_images();
    let mut state = FigureDrawingState::default();
    for _ in 0..3 {
        state.load_new_reference(&store).unwrap();
    }
    state.navigate(1);
    state.navigate(1);
    assert_eq!(state.current_ref, Some(2));
    assert!(!state.navigate(-1));
    assert_eq!(state.current_ref, Some(1));
    assert!(!state.navigate(-1));
    assert_eq!(state.current_ref, Some(0));
    assert!(!state.navigate(-1));
    // The cursor saturates at zero instead of going negative.
    assert_eq!(state.current_ref, Some(0));
    assert_eq!(state.history.len(), 3);
}

#[test]
fn first_navigation_seeds_the_cursor() {
    let mut state = FigureDrawingState::default();
    let needs_load = state.navigate(1);
    assert_eq!(state.current_ref, Some(0));
    // With no history yet the seeded cursor stands past the end.
    assert!(needs_load);
    let mut state = FigureDrawingState::default();
    state.navigate(-1);
    assert_eq!(state.current_ref, Some(0));
    let mut state = FigureDrawingState::default();
    state.navigate(3);
    assert_eq!(state.current_ref, Some(2));
}

#[test]
fn navigation_saturates_at_the_extremes() {
    let mut state = FigureDrawingState::default();
    state.current_ref = Some(5);
    state.navigate(isize::MIN);
    assert_eq!(state.current_ref, Some(0));
    state.current_ref = Some(usize::MAX);
    state.navigate(isize::MAX);
    assert_eq!(state.current_ref, Some(usize::MAX));
    state.current_ref = Some(usize::MAX - 1);
    state.navigate(2);
    assert_eq!(state.current_ref, Some(usize::MAX));
}

#[test]
fn current_reference_follows_the_cursor() {
    let store = store_with_three_images();
    let mut state = FigureDrawingState::default();
    assert!(state.current_reference().is_none());
    state.load_new_reference(&store).unwrap();
    let shown = state.current_reference().unwrap();
    assert_eq!(shown.path, state.history[0].path);
    state.navigate(1);
    // The cursor now stands past the end: nothing to show yet.
    assert!(state.current_reference().is_none());
}

#[test]
fn auto_refresh_fires_on_empty_history_or_elapsed_interval() {
    let store = store_with_three_images();
    let mut state = FigureDrawingState::default();
    assert!(state.maybe_auto_refresh(0));
    state.load_new_reference(&store).unwrap();
    state.mark_fetched(1000);
    assert!(!state.maybe_auto_refresh(1000 + DEFAULT_DURATION_MS));
    assert!(state.maybe_auto_refresh(1001 + DEFAULT_DURATION_MS));
    // A clock reading before the last fetch does not fire either.
    assert!(!state.maybe_auto_refresh(0));
}

#[test]
fn decode_failures_are_retried_within_a_bound() {
    let mut state = FigureDrawingState::default();
    for _ in 0..MAX_DECODE_RETRIES {
        assert!(state.on_decode_failure().is_ok());
    }
    assert!(matches!(
        state.on_decode_failure(),
        Err(SessionError::DecodeFailure)
    ));
    state.on_decode_success();
    assert_eq!(state.decode_failures, 0);
    assert!(state.on_decode_failure().is_ok());
}

#[test]
fn session_keys_map_to_navigation_steps() {
    assert_eq!(keypress(KeyInput::Character('l')), Some(1));
    assert_eq!(keypress(KeyInput::Character('h')), Some(-1));
    assert_eq!(keypress(KeyInput::Character('x')), None);
    assert_eq!(keypress(KeyInput::Named(NamedKey::ArrowUp)), None);
    assert_eq!(keypress(KeyInput::Unidentified), None);
}

#[test]
fn board_keys_map_to_board_commands() {
    assert_eq!(
        reference_board::keypress(KeyInput::Character('v')),
        Some(BoardCommand::SplitVertical)
    );
    assert_eq!(
        reference_board::keypress(KeyInput::Character('h')),
        Some(BoardCommand::SplitHorizontal)
    );
    assert_eq!(
        reference_board::keypress(KeyInput::Character('w')),
        Some(BoardCommand::CloseFocused)
    );
    assert_eq!(
        reference_board::keypress(KeyInput::Named(NamedKey::ArrowLeft)),
        Some(BoardCommand::FocusAdjacent)
    );
    assert_eq!(reference_board::keypress(KeyInput::Named(NamedKey::Other)), None);
    assert_eq!(reference_board::keypress(KeyInput::Character('q')), None);
    assert_eq!(reference_board::keypress(KeyInput::Unidentified), None);
}

#[test]
fn page_model_titles_and_panes() {
    assert_eq!(ContextPage::default(), ContextPage::About);
    assert_eq!(ContextPage::About.title(), "About");
    assert_eq!(MenuAction::About.context_page(), ContextPage::About);
    let pane = Pane::new(4);
    assert_eq!(pane.id, 4);
    assert!(!pane.is_pinned);
}

#[test]
fn toggling_the_shown_context_page_flips_the_drawer() {
    assert_eq!(
        toggle_context_page(ContextPage::About, ContextPage::About, true),
        (ContextPage::About, false)
    );
    assert_eq!(
        toggle_context_page(ContextPage::About, ContextPage::About, false),
        (ContextPage::About, true)
    );
}
