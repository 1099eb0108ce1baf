use voicevox_chat::events::ChatEvent;
use voicevox_chat::state::{AppState, MessageRole};
use voicevox_chat::voice::{
    audio_query_url, decimal_text, handle_voice_event, synthesis_url, Speakers,
};

#[test]
fn speakers_have_their_numbers() {
    assert_eq!(u32::from(Speakers::Metan), 2);
    assert_eq!(u32::from(Speakers::Zundamon), 3);
    let id: u32 = Speakers::Zundamon.into();
    assert_eq!(id, 3);
}

#[test]
fn numbers_are_written_in_decimal() {
    assert_eq!(decimal_text(0), "0");
    assert_eq!(decimal_text(7), "7");
    assert_eq!(decimal_text(10), "10");
    assert_eq!(decimal_text(1234567890), "1234567890");
    assert_eq!(decimal_text(4294967295), "4294967295");
    assert_eq!(decimal_text(100200), "100200");
}

#[test]
fn addresses_of_the_speech_engine() {
    assert_eq!(audio_query_url("http://localhost:50021"), "http://localhost:50021/audio_query");
    assert_eq!(
        synthesis_url("http://localhost:50021", Speakers::Zundamon),
        "http://localhost:50021/synthesis?speaker=3"
    );
    assert_eq!(synthesis_url("", Speakers::Metan), "/synthesis?speaker=2");
}

#[test]
fn a_completed_reply_of_the_assistant_is_spoken() {
    let mut state = AppState::new();
    let done = ChatEvent::StreamingComplete("id".to_string());
    assert_eq!(handle_voice_event(&done, &state), None);
    state.start_streaming_message(MessageRole::Assistant, "こんにちは".to_string());
    assert_eq!(handle_voice_event(&done, &state), Some("こんにちは".to_string()));
    assert_eq!(handle_voice_event(&ChatEvent::StreamingStart("id".to_string()), &state), None);
    assert_eq!(
        handle_voice_event(&ChatEvent::StreamingChunk("id".to_string(), "x".to_string()), &state),
        None
    );
    assert_eq!(handle_voice_event(&ChatEvent::Error("x".to_string()), &state), None);
    assert_eq!(handle_voice_event(&ChatEvent::ModelChanged("x".to_string()), &state), None);
    state.add_message(MessageRole::System, "Error: x".to_string());
    assert_eq!(handle_voice_event(&done, &state), None);
    state.add_message(MessageRole::User, "hi".to_string());
    assert_eq!(handle_voice_event(&done, &state), None);
}
