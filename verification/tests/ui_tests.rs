use awb_core::ui::{
    display_seconds, interactive_menu_prompt, is_wait_cancel_key, menu_with_default,
    next_selection, option_with_auto_default_suffix, previous_selection,
    rerender_menu_line_count, rerender_menu_option_line_offset, selection_from_char,
    AutoDefault, Countdown, Key, MenuAction, MenuMode, MenuState,
};

#[test]
fn maps_digit_to_selection() {
    assert_eq!(selection_from_char('1', 2), Some(1));
    assert_eq!(selection_from_char('2', 2), Some(2));
    assert_eq!(selection_from_char('3', 2), None);
    assert_eq!(selection_from_char('x', 2), None);
}

#[test]
fn recognizes_wait_cancel_keys() {
    assert!(is_wait_cancel_key(Key::Esc));
    assert!(is_wait_cancel_key(Key::Char('c', false)));
    assert!(is_wait_cancel_key(Key::Char('C', false)));
    assert!(is_wait_cancel_key(Key::Char('c', true)));
    assert!(is_wait_cancel_key(Key::Char('x', false)));
    assert!(is_wait_cancel_key(Key::Char('X', false)));
    assert!(!is_wait_cancel_key(Key::Char('q', false)));
}

#[test]
fn rounds_countdown_seconds_up() {
    assert_eq!(display_seconds(0, 0), 0);
    assert_eq!(display_seconds(0, 1_000_000), 1);
    assert_eq!(display_seconds(1, 1_000_000), 2);
    assert_eq!(display_seconds(2, 0), 2);
}

#[test]
fn renders_auto_default_prompt_without_countdown() {
    let auto_default = Some(AutoDefault {
        selection: 0,
        active: true,
    });

    assert_eq!(
        interactive_menu_prompt(auto_default),
        "Use ↑↓ + Enter, number key, or ESC to cancel: "
    );
}

#[test]
fn renders_regular_prompt_when_auto_default_is_inactive() {
    let auto_default = Some(AutoDefault {
        selection: 0,
        active: false,
    });

    assert_eq!(
        interactive_menu_prompt(auto_default),
        "Use ↑↓ + Enter, number key, or ESC to cancel: "
    );
}

#[test]
fn appends_dots_to_active_default_option() {
    let auto_default = Some(AutoDefault {
        selection: 0,
        active: true,
    });

    assert_eq!(
        option_with_auto_default_suffix("Start scrcpy and close awb", 0, auto_default, 3),
        "Start scrcpy and close awb..."
    );
    assert_eq!(
        option_with_auto_default_suffix("Start scrcpy and wait", 1, auto_default, 3),
        "Start scrcpy and wait"
    );
}

#[test]
fn rerender_includes_prompt_line() {
    assert_eq!(rerender_menu_line_count(3), 4);
}

#[test]
fn option_rerender_offset_starts_from_prompt_line() {
    assert_eq!(rerender_menu_option_line_offset(3, 0), 3);
    assert_eq!(rerender_menu_option_line_offset(3, 1), 2);
    assert_eq!(rerender_menu_option_line_offset(3, 2), 1);
}

#[test]
fn wraps_arrow_selection() {
    assert_eq!(previous_selection(0, 3), 2);
    assert_eq!(previous_selection(2, 3), 1);
    assert_eq!(next_selection(2, 3), 0);
    assert_eq!(next_selection(0, 3), 1);
}

#[test]
fn menu_keys_move_choose_and_cancel() {
    let mut state = MenuState::new(Some(AutoDefault {
        selection: 0,
        active: true,
    }), 3);
    assert_eq!(state.handle_key(Key::Up), MenuAction::Redraw);
    assert_eq!(state.selected, 2);
    assert_eq!(
        state.auto_default,
        Some(AutoDefault {
            selection: 0,
            active: false
        })
    );
    assert_eq!(state.handle_key(Key::Enter), MenuAction::Choose(3));
    assert_eq!(state.handle_key(Key::Char('2', false)), MenuAction::Choose(2));
    assert_eq!(state.handle_key(Key::Char('9', false)), MenuAction::Bell);
    assert_eq!(state.handle_key(Key::Char('c', true)), MenuAction::Cancel);
    assert_eq!(state.expired_choice(true), None);

    let waiting = MenuState::new(Some(AutoDefault {
        selection: 1,
        active: true,
    }), 3);
    assert_eq!(waiting.option_count, 3);
    assert_eq!(waiting.expired_choice(false), None);
    assert_eq!(waiting.expired_choice(true), Some(2));
}

#[test]
fn menus_need_options_and_a_numbered_default() {
    assert!(menu_with_default(0, 1).is_err());
    assert!(menu_with_default(3, 4).is_err());
    assert_eq!(menu_with_default(3, 1).unwrap(), MenuMode::Interactive);
    assert_eq!(menu_with_default(10, 1).unwrap(), MenuMode::Lines);
}

#[test]
fn countdown_writes_only_when_the_number_changes() {
    let mut countdown = Countdown::new("Waiting".to_string());
    assert_eq!(
        countdown.tick(4, 500).as_deref(),
        Some("Waiting: 5 seconds remaining...")
    );
    assert_eq!(countdown.tick(4, 100), None);
    assert!(countdown.finish());
    assert!(!countdown.finish());
}

#[test]
fn next_selection_wraps_any_selection_into_range() {
    assert_eq!(next_selection(7, 3), 2);
    assert_eq!(next_selection(0, 1), 0);
}
