use voicevox_chat::history::{ChatCompletion, Message};

fn turns(history: &ChatCompletion) -> Vec<(String, String)> {
    history.messages().into_iter().map(|m: Message| (m.role, m.content)).collect()
}

fn turn(role: &str, content: &str) -> (String, String) {
    (role.to_string(), content.to_string())
}

#[test]
fn new_history_is_empty() {
    let history = ChatCompletion::new("k1".to_string(), None);
    assert!(history.messages().is_empty());
    assert_eq!(history.current_api_key(), "k1");
    assert_eq!(history.current_model(), "gpt-5-nano");
    let named = ChatCompletion::new("k1".to_string(), Some("gpt-5".to_string()));
    assert_eq!(named.current_model(), "gpt-5");
}

#[test]
fn messages_are_the_system_prompts_and_then_the_turns() {
    let mut history = ChatCompletion::new("k".to_string(), None);
    history.push_user_message("hi");
    history.push_system_message("be kind");
    history.push_assistant_message("hello");
    history.push_system_message("be brief");
    assert_eq!(
        turns(&history),
        vec![
            turn("system", "be kind"),
            turn("system", "be brief"),
            turn("user", "hi"),
            turn("assistant", "hello"),
        ]
    );
}

#[test]
fn window_lets_the_oldest_turn_go() {
    let mut history = ChatCompletion::new("k".to_string(), None);
    history.log_size(2);
    history.push_system_message("s");
    history.push_user_message("1");
    assert_eq!(turns(&history), vec![turn("system", "s"), turn("user", "1")]);
    history.push_assistant_message("2");
    assert_eq!(
        turns(&history),
        vec![turn("system", "s"), turn("user", "1"), turn("assistant", "2")]
    );
    history.push_user_message("3");
    assert_eq!(
        turns(&history),
        vec![turn("system", "s"), turn("assistant", "2"), turn("user", "3")]
    );
    history.push_assistant_message("4");
    assert_eq!(
        turns(&history),
        vec![turn("system", "s"), turn("user", "3"), turn("assistant", "4")]
    );
    history.push_system_message("t");
    history.push_user_message("5");
    assert_eq!(
        turns(&history),
        vec![turn("system", "s"), turn("system", "t"), turn("assistant", "4"), turn("user", "5")]
    );
}

#[test]
fn window_of_size_one_keeps_the_latest_turn() {
    let mut history = ChatCompletion::new("k".to_string(), None);
    history.log_size(1);
    history.push_user_message("1");
    assert_eq!(turns(&history), vec![turn("user", "1")]);
    history.push_assistant_message("2");
    assert_eq!(turns(&history), vec![turn("assistant", "2")]);
}

#[test]
fn window_of_size_zero_keeps_no_turn() {
    let mut history = ChatCompletion::new("k".to_string(), None);
    history.push_user_message("0");
    history.log_size(0);
    assert!(turns(&history).is_empty());
    history.push_system_message("s");
    history.push_user_message("1");
    assert_eq!(turns(&history), vec![turn("system", "s")]);
    history.push_assistant_message("2");
    assert_eq!(turns(&history), vec![turn("system", "s")]);
}

#[test]
fn window_holds_thirty_turns_at_first() {
    let mut history = ChatCompletion::new("k".to_string(), None);
    for i in 0..30 {
        history.push_user_message(&format!("{}", i));
    }
    let all = turns(&history);
    assert_eq!(all.len(), 30);
    assert_eq!(all[0], turn("user", "0"));
    for i in 30..40 {
        history.push_user_message(&format!("{}", i));
        assert_eq!(turns(&history).len(), 30);
    }
    let all = turns(&history);
    assert_eq!(all[0], turn("user", "10"));
    assert_eq!(all[29], turn("user", "39"));
}

#[test]
fn a_smaller_window_lets_the_oldest_turns_go_at_once() {
    let mut history = ChatCompletion::new("k".to_string(), None);
    for i in 0..5 {
        history.push_user_message(&format!("{}", i));
    }
    history.log_size(2);
    assert_eq!(turns(&history), vec![turn("user", "3"), turn("user", "4")]);
    history.push_user_message("5");
    assert_eq!(turns(&history), vec![turn("user", "4"), turn("user", "5")]);
    history.log_size(7);
    assert_eq!(turns(&history), vec![turn("user", "4"), turn("user", "5")]);
    history.push_user_message("6");
    assert_eq!(
        turns(&history),
        vec![turn("user", "4"), turn("user", "5"), turn("user", "6")]
    );
}

#[test]
fn key_and_model_can_be_set() {
    let mut history = ChatCompletion::new("k".to_string(), None);
    history.api_key("other").model("gpt-5-mini").log_size(1);
    assert_eq!(history.current_api_key(), "other");
    assert_eq!(history.current_model(), "gpt-5-mini");
    assert!(history.messages().is_empty());
    history.push_user_message("1");
    history.push_user_message("2");
    history.push_user_message("3");
    assert_eq!(turns(&history), vec![turn("user", "3")]);
}
