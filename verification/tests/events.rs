use voicevox_chat::events::{
    apply_chat_event, apply_key_event, handle_chat_event, handle_insert_mode, handle_key_event, handle_model_select_mode,
    handle_normal_mode, handle_scroll_action, handle_settings_mode, ChatEvent, KeyCode, KeyEvent,
    ScrollAction,
};
use voicevox_chat::state::{AppState, InputMode, MessageRole};

fn press(code: KeyCode) -> KeyEvent {
    KeyEvent { code, control: false, pressed: true }
}

fn typed(state: &mut AppState, text: &str) {
    for c in text.chars() {
        handle_key_event(press(KeyCode::Char(c)), state);
    }
}

fn id() -> String {
    "reply".to_string()
}

#[test]
fn streaming_start_adds_an_empty_assistant_message() {
    let mut state = AppState::new();
    handle_chat_event(&mut state, ChatEvent::StreamingStart(id()));
    assert_eq!(state.messages.len(), 1);
    assert_eq!(state.messages[0].role, MessageRole::Assistant);
    assert_eq!(state.messages[0].content, "");
    assert!(state.messages[0].is_streaming);
    assert_ne!(state.messages[0].id, id());
}

#[test]
fn streaming_chunk_extends_the_last_message() {
    let mut state = AppState::new();
    state.add_message(MessageRole::User, "q".to_string());
    handle_chat_event(&mut state, ChatEvent::StreamingStart(id()));
    handle_chat_event(&mut state, ChatEvent::StreamingChunk(id(), "Hi".to_string()));
    handle_chat_event(&mut state, ChatEvent::StreamingChunk("other".to_string(), "!".to_string()));
    assert_eq!(state.messages[0].content, "q");
    assert_eq!(state.messages[1].content, "Hi!");
    assert!(state.messages[1].is_streaming);
}

#[test]
fn streaming_chunk_leaves_a_finished_message_alone() {
    let mut state = AppState::new();
    handle_chat_event(&mut state, ChatEvent::StreamingChunk(id(), "x".to_string()));
    assert!(state.messages.is_empty());
    state.add_message(MessageRole::Assistant, "done".to_string());
    handle_chat_event(&mut state, ChatEvent::StreamingChunk(id(), "x".to_string()));
    handle_chat_event(&mut state, ChatEvent::StreamingComplete(id()));
    assert_eq!(state.messages.len(), 1);
    assert_eq!(state.messages[0].content, "done");
    assert!(!state.messages[0].is_streaming);
}

#[test]
fn streamed_reply_becomes_one_finished_message() {
    let chunks = ["Hel", "", "lo, ", "日本", "!"];
    let mut state = AppState::new();
    state.add_message(MessageRole::User, "q".to_string());
    state.scroll_offset = 3;
    handle_chat_event(&mut state, ChatEvent::StreamingStart(id()));
    for chunk in chunks {
        handle_chat_event(&mut state, ChatEvent::StreamingChunk(id(), chunk.to_string()));
    }
    handle_chat_event(&mut state, ChatEvent::StreamingComplete(id()));
    assert_eq!(state.messages.len(), 2);
    assert_eq!(state.messages[1].role, MessageRole::Assistant);
    assert_eq!(state.messages[1].content, chunks.concat());
    assert!(!state.messages[1].is_streaming);
    assert_eq!(state.messages[0].content, "q");
    assert_eq!(state.scroll_offset, 3);
    assert_eq!(state.input_mode, InputMode::Normal);
}

#[test]
fn error_event_adds_a_system_message() {
    let mut state = AppState::new();
    handle_chat_event(&mut state, ChatEvent::Error("status 500".to_string()));
    assert_eq!(state.messages.len(), 1);
    assert_eq!(state.messages[0].role, MessageRole::System);
    assert_eq!(state.messages[0].content, "Error: status 500");
    assert!(!state.messages[0].is_streaming);
}

#[test]
fn model_changed_event_sets_the_model_and_says_so() {
    let mut state = AppState::new();
    handle_chat_event(&mut state, ChatEvent::ModelChanged("gpt-5".to_string()));
    assert_eq!(state.current_model, "gpt-5");
    assert_eq!(state.model_select_index, 0);
    assert_eq!(state.messages[0].role, MessageRole::System);
    assert_eq!(state.messages[0].content, "Model changed to: gpt-5");
}

#[test]
fn keys_that_do_not_go_down_change_nothing() {
    let mut state = AppState::new();
    let key = KeyEvent { code: KeyCode::Char('q'), control: false, pressed: false };
    let outcome = handle_key_event(key, &mut state);
    assert!(!outcome.should_quit);
    assert!(outcome.scroll.is_none());
    assert!(outcome.send.is_none());
    assert!(!state.should_quit);
}

#[test]
fn normal_mode_quits_on_q() {
    let mut state = AppState::new();
    let outcome = handle_key_event(press(KeyCode::Char('q')), &mut state);
    assert!(outcome.should_quit);
    assert!(state.should_quit);
    assert!(outcome.scroll.is_none());
}

#[test]
fn normal_mode_scrolls() {
    let mut state = AppState::new();
    for (code, action) in [
        (KeyCode::Up, ScrollAction::Up),
        (KeyCode::Char('k'), ScrollAction::Up),
        (KeyCode::Down, ScrollAction::Down),
        (KeyCode::Char('j'), ScrollAction::Down),
        (KeyCode::Char('g'), ScrollAction::ToTop),
        (KeyCode::Char('G'), ScrollAction::ToBottom),
    ] {
        let outcome = handle_normal_mode(press(code), &mut state);
        assert_eq!(outcome.scroll, Some(action));
        assert!(!outcome.should_quit);
        assert!(outcome.send.is_none());
        assert_eq!(state.input_mode, InputMode::Normal);
    }
}

#[test]
fn normal_mode_changes_the_mode() {
    for (c, mode) in [
        ('i', InputMode::Insert),
        ('m', InputMode::ModelSelect),
        ('s', InputMode::Settings),
        ('x', InputMode::Normal),
    ] {
        let mut state = AppState::new();
        let outcome = handle_key_event(press(KeyCode::Char(c)), &mut state);
        assert_eq!(state.input_mode, mode);
        assert!(!outcome.should_quit);
        assert!(outcome.scroll.is_none());
    }
    let mut state = AppState::new();
    handle_key_event(press(KeyCode::Enter), &mut state);
    handle_key_event(press(KeyCode::Other), &mut state);
    assert_eq!(state.input_mode, InputMode::Normal);
    assert_eq!(state.current_input, "");
}

#[test]
fn insert_mode_types_into_the_line() {
    let mut state = AppState::new();
    handle_key_event(press(KeyCode::Char('i')), &mut state);
    typed(&mut state, "héy");
    assert_eq!(state.current_input, "héy");
    assert_eq!(state.cursor_position, 4);
    handle_key_event(press(KeyCode::Left), &mut state);
    handle_key_event(press(KeyCode::Left), &mut state);
    assert_eq!(state.cursor_position, 1);
    handle_key_event(press(KeyCode::Backspace), &mut state);
    assert_eq!(state.current_input, "éy");
    handle_key_event(press(KeyCode::Right), &mut state);
    assert_eq!(state.cursor_position, 2);
    typed(&mut state, "q");
    assert_eq!(state.current_input, "éqy");
    assert!(!state.should_quit);
    handle_key_event(press(KeyCode::Esc), &mut state);
    assert_eq!(state.input_mode, InputMode::Normal);
    assert_eq!(state.current_input, "éqy");
}

#[test]
fn insert_mode_breaks_the_line_on_control_n() {
    let mut state = AppState::new();
    state.input_mode = InputMode::Insert;
    typed(&mut state, "a");
    let key = KeyEvent { code: KeyCode::Char('n'), control: true, pressed: true };
    handle_insert_mode(key, &mut state);
    typed(&mut state, "n");
    let other = KeyEvent { code: KeyCode::Char('x'), control: true, pressed: true };
    handle_insert_mode(other, &mut state);
    assert_eq!(state.current_input, "a\nnx");
    assert_eq!(state.cursor_position, 4);
}

#[test]
fn enter_sends_the_line() {
    let mut state = AppState::new();
    state.input_mode = InputMode::Insert;
    state.auto_scroll_enabled = false;
    typed(&mut state, " hello ");
    let outcome = handle_key_event(press(KeyCode::Enter), &mut state);
    assert_eq!(outcome.send, Some(" hello ".to_string()));
    assert_eq!(outcome.scroll, Some(ScrollAction::ToBottom));
    assert!(!outcome.should_quit);
    assert_eq!(state.messages.len(), 1);
    assert_eq!(state.messages[0].role, MessageRole::User);
    assert_eq!(state.messages[0].content, " hello ");
    assert!(!state.messages[0].is_streaming);
    assert_eq!(state.current_input, "");
    assert_eq!(state.cursor_position, 0);
    assert_eq!(state.input_mode, InputMode::Normal);
    assert!(state.auto_scroll_enabled);
}

#[test]
fn enter_on_white_space_does_nothing() {
    for line in ["", "   ", " \n\t\u{3000}"] {
        let mut state = AppState::new();
        state.input_mode = InputMode::Insert;
        typed(&mut state, line);
        let outcome = handle_key_event(press(KeyCode::Enter), &mut state);
        assert!(outcome.send.is_none());
        assert!(outcome.scroll.is_none());
        assert!(state.messages.is_empty());
        assert_eq!(state.current_input, line);
        assert_eq!(state.input_mode, InputMode::Insert);
    }
}

#[test]
fn enter_on_a_command_changes_the_mode() {
    for (line, mode) in [
        ("/model", InputMode::ModelSelect),
        ("  /model\n", InputMode::ModelSelect),
        ("/settings", InputMode::Settings),
        (" /settings ", InputMode::Settings),
    ] {
        let mut state = AppState::new();
        state.input_mode = InputMode::Insert;
        typed(&mut state, line);
        let outcome = handle_key_event(press(KeyCode::Enter), &mut state);
        assert!(outcome.send.is_none());
        assert!(outcome.scroll.is_none());
        assert!(state.messages.is_empty());
        assert_eq!(state.current_input, "");
        assert_eq!(state.cursor_position, 0);
        assert_eq!(state.input_mode, mode);
    }
    let mut state = AppState::new();
    state.input_mode = InputMode::Insert;
    typed(&mut state, "/models");
    let outcome = handle_key_event(press(KeyCode::Enter), &mut state);
    assert_eq!(outcome.send, Some("/models".to_string()));
}

#[test]
fn model_select_mode_moves_and_confirms() {
    let mut state = AppState::new();
    state.input_mode = InputMode::ModelSelect;
    assert!(!handle_model_select_mode(press(KeyCode::Up), &mut state));
    assert_eq!(state.model_select_index, 1);
    handle_key_event(press(KeyCode::Char('k')), &mut state);
    assert_eq!(state.model_select_index, 0);
    handle_key_event(press(KeyCode::Char('j')), &mut state);
    handle_key_event(press(KeyCode::Down), &mut state);
    handle_key_event(press(KeyCode::Down), &mut state);
    assert_eq!(state.model_select_index, 2);
    handle_key_event(press(KeyCode::Char('k')), &mut state);
    let outcome = handle_key_event(press(KeyCode::Enter), &mut state);
    assert!(!outcome.should_quit);
    assert!(outcome.send.is_none());
    assert_eq!(state.current_model, "gpt-5-mini");
    assert_eq!(state.input_mode, InputMode::Normal);
    assert_eq!(state.messages.len(), 1);
    assert_eq!(state.messages[0].role, MessageRole::System);
    assert_eq!(state.messages[0].content, "Model changed to: gpt-5-mini");
}

#[test]
fn model_select_mode_is_left_by_escape() {
    let mut state = AppState::new();
    state.input_mode = InputMode::ModelSelect;
    handle_key_event(press(KeyCode::Char('q')), &mut state);
    assert_eq!(state.input_mode, InputMode::ModelSelect);
    handle_key_event(press(KeyCode::Esc), &mut state);
    assert_eq!(state.input_mode, InputMode::Normal);
    assert_eq!(state.current_model, "gpt-5-nano");
    assert!(state.messages.is_empty());
    let mut beyond = AppState::new();
    beyond.input_mode = InputMode::ModelSelect;
    beyond.model_select_index = 5;
    handle_key_event(press(KeyCode::Enter), &mut beyond);
    assert_eq!(beyond.input_mode, InputMode::ModelSelect);
    assert!(beyond.messages.is_empty());
}

#[test]
fn settings_mode_moves_and_leaves() {
    let mut state = AppState::new();
    state.input_mode = InputMode::Settings;
    state.update_settings(vec![
        ("a".to_string(), "1".to_string()),
        ("b".to_string(), "2".to_string()),
    ]);
    assert!(!handle_settings_mode(press(KeyCode::Down), &mut state));
    assert_eq!(state.settings_scroll_index, 1);
    handle_key_event(press(KeyCode::Char('j')), &mut state);
    assert_eq!(state.settings_scroll_index, 1);
    handle_key_event(press(KeyCode::Char('k')), &mut state);
    assert_eq!(state.settings_scroll_index, 0);
    handle_key_event(press(KeyCode::Up), &mut state);
    assert_eq!(state.settings_scroll_index, 0);
    handle_key_event(press(KeyCode::Enter), &mut state);
    assert_eq!(state.input_mode, InputMode::Settings);
    let outcome = handle_key_event(press(KeyCode::Char('q')), &mut state);
    assert!(!outcome.should_quit);
    assert!(!state.should_quit);
    assert_eq!(state.input_mode, InputMode::Normal);
    state.input_mode = InputMode::Settings;
    handle_key_event(press(KeyCode::Esc), &mut state);
    assert_eq!(state.input_mode, InputMode::Normal);
}

#[test]
fn scroll_by_hand_stops_the_following() {
    let mut state = AppState::new();
    state.add_message(MessageRole::User, "a\nb\nc".to_string());
    handle_scroll_action(&mut state, ScrollAction::Down, 80);
    assert_eq!(state.scroll_offset, 1);
    assert!(!state.auto_scroll_enabled);
    handle_scroll_action(&mut state, ScrollAction::ToBottom, 80);
    assert_eq!(state.scroll_offset, 2);
    assert!(state.auto_scroll_enabled);
    handle_scroll_action(&mut state, ScrollAction::Up, 80);
    assert_eq!(state.scroll_offset, 1);
    assert!(!state.auto_scroll_enabled);
    state.enable_auto_scroll();
    handle_scroll_action(&mut state, ScrollAction::ToTop, 80);
    assert_eq!(state.scroll_offset, 0);
    assert!(!state.auto_scroll_enabled);
}

#[test]
fn the_view_follows_the_reply_while_it_may() {
    let mut state = AppState::new();
    assert!(apply_chat_event(&mut state, ChatEvent::StreamingStart(id()), 80));
    assert_eq!(state.scroll_offset, 0);
    assert!(apply_chat_event(&mut state, ChatEvent::StreamingChunk(id(), "a\nb\nc".to_string()), 80));
    assert_eq!(state.messages[0].content, "a\nb\nc");
    assert_eq!(state.scroll_offset, 2);
    assert!(apply_chat_event(&mut state, ChatEvent::StreamingChunk(id(), "defgh".to_string()), 12));
    assert_eq!(state.scroll_offset, 3);
    state.disable_auto_scroll();
    assert!(apply_chat_event(&mut state, ChatEvent::StreamingChunk(id(), "\n\n".to_string()), 80));
    assert_eq!(state.scroll_offset, 3);
    assert!(apply_chat_event(&mut state, ChatEvent::StreamingComplete(id()), 80));
    assert!(!state.messages[0].is_streaming);
    assert_eq!(state.scroll_offset, 3);
    state.enable_auto_scroll();
    assert!(apply_chat_event(&mut state, ChatEvent::Error("x".to_string()), 80));
    assert_eq!(state.scroll_offset, 5);
}

#[test]
fn keys_move_the_view_and_stop_the_following() {
    let mut state = AppState::new();
    state.add_message(MessageRole::User, "a\nb\nc".to_string());
    let outcome = apply_key_event(press(KeyCode::Char('j')), &mut state, 80).expect("lines are counted");
    assert_eq!(outcome.scroll, Some(ScrollAction::Down));
    assert_eq!(state.scroll_offset, 1);
    assert!(!state.auto_scroll_enabled);
    apply_key_event(press(KeyCode::Char('G')), &mut state, 80).expect("lines are counted");
    assert_eq!(state.scroll_offset, 2);
    assert!(state.auto_scroll_enabled);
    apply_key_event(press(KeyCode::Char('g')), &mut state, 80).expect("lines are counted");
    assert_eq!(state.scroll_offset, 0);
    assert!(!state.auto_scroll_enabled);
    apply_key_event(press(KeyCode::Char('i')), &mut state, 80).expect("lines are counted");
    for c in "hi".chars() {
        apply_key_event(press(KeyCode::Char(c)), &mut state, 80).expect("lines are counted");
    }
    assert_eq!(state.scroll_offset, 0);
    let sent = apply_key_event(press(KeyCode::Enter), &mut state, 80).expect("lines are counted");
    assert_eq!(sent.send, Some("hi".to_string()));
    assert_eq!(state.messages.len(), 2);
    assert_eq!(state.scroll_offset, 3);
    assert!(state.auto_scroll_enabled);
    let quit = apply_key_event(press(KeyCode::Char('q')), &mut state, 80).expect("lines are counted");
    assert!(quit.should_quit);
}

fn marks(state: &AppState) -> Vec<bool> {
    state.messages.iter().map(|m| m.is_streaming).collect()
}

#[test]
fn only_the_reply_that_is_written_streams() {
    let mut state = AppState::new();
    state.add_message(MessageRole::User, "q".to_string());
    handle_chat_event(&mut state, ChatEvent::StreamingStart(id()));
    handle_chat_event(&mut state, ChatEvent::StreamingChunk(id(), "a".to_string()));
    assert_eq!(marks(&state), vec![false, true]);
    handle_chat_event(&mut state, ChatEvent::StreamingComplete(id()));
    handle_chat_event(&mut state, ChatEvent::ModelChanged("gpt-5".to_string()));
    handle_chat_event(&mut state, ChatEvent::StreamingStart(id()));
    assert_eq!(marks(&state), vec![false, false, false, true]);
}

#[test]
fn a_second_start_finishes_the_first_reply() {
    let mut state = AppState::new();
    handle_chat_event(&mut state, ChatEvent::StreamingStart(id()));
    handle_chat_event(&mut state, ChatEvent::StreamingChunk(id(), "one".to_string()));
    handle_chat_event(&mut state, ChatEvent::StreamingStart(id()));
    assert_eq!(marks(&state), vec![false, true]);
    handle_chat_event(&mut state, ChatEvent::StreamingChunk(id(), "two".to_string()));
    assert_eq!(state.messages[0].content, "one");
    assert_eq!(state.messages[1].content, "two");
    handle_chat_event(&mut state, ChatEvent::StreamingStart(id()));
    handle_chat_event(&mut state, ChatEvent::StreamingStart(id()));
    assert_eq!(marks(&state), vec![false, false, false, true]);
}

#[test]
fn a_failure_finishes_the_reply_that_was_written() {
    let mut state = AppState::new();
    handle_chat_event(&mut state, ChatEvent::StreamingStart(id()));
    handle_chat_event(&mut state, ChatEvent::StreamingChunk(id(), "Hi".to_string()));
    handle_chat_event(&mut state, ChatEvent::Error("reset".to_string()));
    assert_eq!(marks(&state), vec![false, false]);
    assert_eq!(state.messages[0].content, "Hi");
    assert_eq!(state.messages[1].content, "Error: reset");
    handle_chat_event(&mut state, ChatEvent::StreamingChunk(id(), "late".to_string()));
    assert_eq!(state.messages[0].content, "Hi");
    assert_eq!(state.messages[1].content, "Error: reset");
    handle_chat_event(&mut state, ChatEvent::StreamingStart(id()));
    assert_eq!(marks(&state), vec![false, false, true]);
    handle_chat_event(&mut state, ChatEvent::StreamingChunk(id(), "again".to_string()));
    handle_chat_event(&mut state, ChatEvent::StreamingComplete(id()));
    assert_eq!(marks(&state), vec![false, false, false]);
    assert_eq!(state.messages[2].content, "again");
}

#[test]
fn a_line_sent_while_a_reply_is_written_leaves_one_mark() {
    let mut state = AppState::new();
    handle_chat_event(&mut state, ChatEvent::StreamingStart(id()));
    state.input_mode = InputMode::Insert;
    typed(&mut state, "more");
    handle_key_event(press(KeyCode::Enter), &mut state);
    assert_eq!(marks(&state), vec![true, false]);
    handle_chat_event(&mut state, ChatEvent::ModelChanged("gpt-5".to_string()));
    assert_eq!(marks(&state), vec![true, false, false]);
    handle_chat_event(&mut state, ChatEvent::StreamingStart(id()));
    assert_eq!(marks(&state), vec![false, false, false, true]);
}

#[test]
fn keys_that_type_nothing_take_any_cursor() {
    let mut state = AppState::new();
    state.current_input = "日".to_string();
    state.cursor_position = 1;
    handle_key_event(press(KeyCode::Char('i')), &mut state);
    assert_eq!(state.input_mode, InputMode::Insert);
    handle_key_event(press(KeyCode::Right), &mut state);
    assert_eq!(state.cursor_position, 3);
    state.cursor_position = 2;
    handle_key_event(press(KeyCode::Left), &mut state);
    assert_eq!(state.cursor_position, 0);
    state.cursor_position = 1;
    handle_key_event(press(KeyCode::Backspace), &mut state);
    assert_eq!(state.current_input, "");
    assert_eq!(state.cursor_position, 0);
}
