use voicevox_chat::screen::{
    input_title, model_lines, model_select_areas, render_message_lines, selected_line,
    settings_areas, settings_lines,
};
use voicevox_chat::state::{AppState, InputMode, MessageRole};
use voicevox_chat::text::{calculate_multiline_cursor_position, Rect};

fn rect(x: u16, y: u16, width: u16, height: u16) -> Rect {
    Rect { x, y, width, height }
}

#[test]
fn transcript_lines_carry_the_role_before_the_first_line() {
    let mut state = AppState::new();
    state.add_message(MessageRole::User, "hello world".to_string());
    state.add_message(MessageRole::Assistant, "ab\n\ncd".to_string());
    state.add_message(MessageRole::System, String::new());
    let lines = render_message_lines(&state.messages, 14);
    let texts: Vec<&str> = lines.iter().map(|l| l.text.as_str()).collect();
    assert_eq!(
        texts,
        vec![
            "   You: hello ",
            "        world",
            "    AI: ab",
            "        ",
            "        cd",
            "System: ",
        ]
    );
    let roles: Vec<MessageRole> = lines.iter().map(|l| l.role).collect();
    assert_eq!(
        roles,
        vec![
            MessageRole::User,
            MessageRole::User,
            MessageRole::Assistant,
            MessageRole::Assistant,
            MessageRole::Assistant,
            MessageRole::System,
        ]
    );
    for width in 0..30 {
        assert_eq!(render_message_lines(&state.messages, width).len(), state.get_total_lines(width));
    }
}

#[test]
fn the_marked_line_is_inside_the_transcript() {
    assert_eq!(selected_line(0, 0), None);
    assert_eq!(selected_line(5, 0), None);
    assert_eq!(selected_line(0, 3), Some(0));
    assert_eq!(selected_line(2, 3), Some(2));
    assert_eq!(selected_line(3, 3), Some(2));
    assert_eq!(selected_line(usize::MAX, 1), Some(0));
}

#[test]
fn titles_name_the_mode_and_its_keys() {
    assert_eq!(
        input_title(InputMode::Normal),
        "-- NORMAL -- (i:Insert m:Model s:Settings q:Quit j/k:Scroll g/G:Top/Bottom)"
    );
    assert_eq!(
        input_title(InputMode::Insert),
        "-- INSERT -- (Esc:Normal Enter:Send /model:ModelSelect Ctrl+N:NewLine)"
    );
    assert_eq!(
        input_title(InputMode::ModelSelect),
        "-- MODEL SELECT -- (j/k:Navigate Enter:Select Esc:Cancel)"
    );
    assert_eq!(input_title(InputMode::Settings), "-- SETTINGS -- (j/k:Scroll Esc:Back q:Quit)");
}

#[test]
fn the_current_model_is_marked() {
    let state = AppState::new();
    assert_eq!(
        model_lines(&state.available_models, "gpt-5-mini"),
        vec!["  gpt-5", "● gpt-5-mini", "  gpt-5-nano"]
    );
    assert_eq!(
        model_lines(&state.available_models, "other"),
        vec!["  gpt-5", "  gpt-5-mini", "  gpt-5-nano"]
    );
    assert!(model_lines(&Vec::new(), "gpt-5").is_empty());
}

#[test]
fn settings_are_filled_up_with_dots() {
    let settings = vec![
        ("System Prompt".to_string(), "Using default [default]".to_string()),
        ("A label of more than thirty characters".to_string(), "v".to_string()),
        ("日本".to_string(), String::new()),
        ("1234567890".repeat(3), "x".to_string()),
    ];
    let thirty = format!("{} x", "1234567890".repeat(3));
    assert_eq!(
        settings_lines(&settings),
        vec![
            "System Prompt................. Using default [default]",
            "A label of more than thirty characters v",
            "日本............................ ",
            thirty.as_str(),
        ]
    );
}

#[test]
fn windows_lie_in_the_middle_of_the_screen() {
    let (window, inner) = model_select_areas(rect(0, 0, 80, 24));
    assert_eq!(window, rect(20, 6, 40, 12));
    assert_eq!(inner, rect(21, 7, 38, 10));
    let (window, inner) = model_select_areas(rect(5, 5, 4, 5));
    assert_eq!(window, rect(1, 1, 2, 2));
    assert_eq!(inner, rect(2, 2, 0, 0));
    let (window, inner) = settings_areas(rect(0, 0, 80, 24));
    assert_eq!(window, rect(10, 3, 60, 18));
    assert_eq!(inner, rect(11, 4, 58, 16));
    let (window, inner) = settings_areas(rect(9, 9, 3, 21845));
    assert_eq!(window, rect(0, 2730, 2, 16383));
    assert_eq!(inner, rect(1, 2731, 0, 16381));
}

#[test]
fn the_cursor_is_shown_behind_the_text_before_it() {
    let area = rect(2, 10, 80, 5);
    assert_eq!(calculate_multiline_cursor_position("", 0, area), (3, 11));
    assert_eq!(calculate_multiline_cursor_position("hello", 0, area), (3, 11));
    assert_eq!(calculate_multiline_cursor_position("hello", 3, area), (6, 11));
    assert_eq!(calculate_multiline_cursor_position("hello", 5, area), (8, 11));
    assert_eq!(calculate_multiline_cursor_position("hello", 9, area), (8, 11));
    assert_eq!(calculate_multiline_cursor_position("a日本b", 4, area), (6, 11));
    assert_eq!(calculate_multiline_cursor_position("a日本b", 7, area), (8, 11));
    assert_eq!(calculate_multiline_cursor_position("ab\ncd\n", 2, area), (5, 11));
    assert_eq!(calculate_multiline_cursor_position("ab\ncd\n", 3, area), (3, 12));
    assert_eq!(calculate_multiline_cursor_position("ab\ncd\n", 5, area), (5, 12));
    assert_eq!(calculate_multiline_cursor_position("ab\ncd\n", 6, area), (3, 13));
    assert_eq!(calculate_multiline_cursor_position("ab\n日", 99, area), (5, 12));
}
