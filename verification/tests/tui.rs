use shph::tui::{
    elapsed_text, session_summary, shorten_key, DashboardAction, DashboardKey, DashboardState, DashboardView,
    SessionRole,
};

#[test]
fn views_have_numbers_titles_and_tab_order() {
    assert_eq!(DashboardView::Overview.number(), '1');
    assert_eq!(DashboardView::ControlPlane.number(), '4');
    assert_eq!(DashboardView::ControlPlane.title(), "Control plane");
    assert_eq!(DashboardView::Overview.next(), DashboardView::Peers);
    assert_eq!(DashboardView::ControlPlane.next(), DashboardView::Overview);
}

#[test]
fn keys_switch_views_quit_and_reload() {
    let mut state = DashboardState::new();
    assert_eq!(state.handle_key(DashboardKey::Char('3'), None), DashboardAction::Continue);
    assert_eq!(state.view, DashboardView::Session);
    assert_eq!(state.handle_key(DashboardKey::Tab, None), DashboardAction::Continue);
    assert_eq!(state.view, DashboardView::ControlPlane);
    assert_eq!(state.handle_key(DashboardKey::Char('r'), None), DashboardAction::Reload);
    assert_eq!(state.handle_key(DashboardKey::Esc, None), DashboardAction::Quit);
    assert_eq!(state.handle_key(DashboardKey::Char('q'), None), DashboardAction::Quit);
    assert_eq!(state.handle_key(DashboardKey::Other, None), DashboardAction::Continue);
}

#[test]
fn help_is_modal_until_closed() {
    let mut state = DashboardState::new();
    state.handle_key(DashboardKey::Char('?'), Some(3));
    assert!(state.show_help);
    assert_eq!(state.handle_key(DashboardKey::Char('2'), Some(3)), DashboardAction::Continue);
    assert_eq!(state.view, DashboardView::Overview);
    assert_eq!(state.handle_key(DashboardKey::Char('q'), Some(3)), DashboardAction::Continue);
    assert!(!state.show_help);
}

#[test]
fn peer_selection_stays_within_the_list() {
    let mut state = DashboardState::new();
    state.handle_key(DashboardKey::Up, Some(3));
    assert_eq!(state.peer_index, 0);
    state.handle_key(DashboardKey::Down, Some(3));
    state.handle_key(DashboardKey::Char('j'), Some(3));
    state.handle_key(DashboardKey::Down, Some(3));
    assert_eq!(state.peer_index, 2);
    state.handle_key(DashboardKey::Char('k'), Some(3));
    assert_eq!(state.peer_index, 1);
    state.handle_key(DashboardKey::End, Some(3));
    assert_eq!(state.peer_index, 2);
    state.handle_key(DashboardKey::Home, Some(3));
    assert_eq!(state.peer_index, 0);
    state.handle_key(DashboardKey::Down, None);
    assert_eq!(state.peer_index, 0);
    state.handle_key(DashboardKey::End, Some(5));
    state.clamp_to_peers(2);
    assert_eq!(state.peer_index, 1);
    state.clamp_to_peers(0);
    assert_eq!(state.peer_index, 0);
}

#[test]
fn keys_are_shortened_around_an_ellipsis() {
    assert_eq!(shorten_key("short-key"), "short-key");
    assert_eq!(shorten_key("abcdefghijklmnopqrstuvw"), "abcdefghijklmnopqrstuvw");
    assert_eq!(shorten_key("0123456789abcdefghijklmnopqrstuvwxyz"), "0123456789...qrstuvwxyz");
}

#[test]
fn session_and_elapsed_summaries() {
    assert_eq!(session_summary(None, None, None), "not configured");
    assert_eq!(session_summary(Some(SessionRole::Listen), Some("0.0.0.0:51820"), None), "listen 0.0.0.0:51820");
    assert_eq!(session_summary(Some(SessionRole::Listen), None, None), "listen default");
    assert_eq!(session_summary(Some(SessionRole::Connect), None, None), "connect unset");
    assert_eq!(elapsed_text(Some(0)), "just now");
    assert_eq!(elapsed_text(Some(42)), "42s ago");
    assert_eq!(elapsed_text(None), "clock adjusted");
}
