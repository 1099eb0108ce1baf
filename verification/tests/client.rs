use voicevox_chat::client::{completion_text, ReplyError, StreamingReply};
use voicevox_chat::json::{delta_content, parse_document};

fn record(content: &str) -> String {
    format!("data: {{\"choices\":[{{\"delta\":{{\"content\":\"{}\"}}}}]}}\n", content)
}

fn reply_of(body: &str) -> Result<String, ReplyError> {
    let doc = parse_document(body).expect("the body is JSON");
    completion_text(&doc).map(|text| text.to_string())
}

#[test]
fn streaming_reply_adds_up_the_fragments() {
    let mut reply = StreamingReply::new();
    assert_eq!(reply.text(), "");
    let first = reply.accept(record("Hi").as_bytes());
    assert_eq!(first.fragments, vec!["Hi".to_string()]);
    assert_eq!(reply.text(), "Hi");
    let line = record(" there, 世界");
    let (head, tail) = line.as_bytes().split_at(line.len() - 9);
    assert!(reply.accept(head).fragments.is_empty());
    assert_eq!(reply.text(), "Hi");
    let second = reply.accept(tail);
    assert_eq!(second.fragments, vec![" there, 世界".to_string()]);
    assert_eq!(reply.text(), "Hi there, 世界");
    let last = reply.accept(b"data: {oops\ndata: [DONE]\ndata: lost");
    assert!(last.fragments.is_empty());
    assert_eq!(last.malformed, vec!["{oops".to_string()]);
    assert!(last.done);
    assert_eq!(reply.finish(), "Hi there, 世界");
}

#[test]
fn parse_document_reads_json_only() {
    assert!(parse_document("{\"a\": [1, 2.5, \"x\", null, true]}").is_some());
    assert!(parse_document("  17 ").is_some());
    assert!(parse_document("").is_none());
    assert!(parse_document("{\"a\": }").is_none());
    assert!(parse_document("{} {}").is_none());
}

#[test]
fn delta_content_follows_the_path() {
    let doc = parse_document("{\"choices\":[{\"delta\":{\"content\":\"\"}}]}").unwrap();
    assert_eq!(delta_content(&doc), Some(""));
    let doc = parse_document("{\"choices\":[{\"delta\":{\"content\":\"é\"},\"index\":0}],\"id\":\"x\"}").unwrap();
    assert_eq!(delta_content(&doc), Some("é"));
    let doc = parse_document("{\"choices\":[{\"message\":{\"content\":\"x\"}}]}").unwrap();
    assert_eq!(delta_content(&doc), None);
    let doc = parse_document("{\"delta\":{\"content\":\"x\"}}").unwrap();
    assert_eq!(delta_content(&doc), None);
    let doc = parse_document("{\"choices\":[[{\"delta\":{\"content\":\"x\"}}]]}").unwrap();
    assert_eq!(delta_content(&doc), None);
}

#[test]
fn completion_text_is_the_first_choice() {
    let body = "{\"choices\":[{\"message\":{\"role\":\"assistant\",\"content\":\"Hello!\"}},{\"message\":{\"content\":\"second\"}}]}";
    assert_eq!(reply_of(body), Ok("Hello!".to_string()));
    assert_eq!(reply_of("{\"choices\":[{\"message\":{\"content\":\"\"}}]}"), Ok(String::new()));
}

#[test]
fn completion_text_needs_an_array_of_choices() {
    assert_eq!(reply_of("{}"), Err(ReplyError::ChoicesNotArray));
    assert_eq!(reply_of("{\"choices\":{}}"), Err(ReplyError::ChoicesNotArray));
    assert_eq!(reply_of("{\"choices\":null}"), Err(ReplyError::ChoicesNotArray));
    assert_eq!(reply_of("[{\"message\":{\"content\":\"x\"}}]"), Err(ReplyError::ChoicesNotArray));
    assert_eq!(reply_of("\"choices\""), Err(ReplyError::ChoicesNotArray));
}

#[test]
fn completion_text_needs_a_choice() {
    assert_eq!(reply_of("{\"choices\":[]}"), Err(ReplyError::NoChoice));
}

#[test]
fn completion_text_needs_a_string() {
    assert_eq!(reply_of("{\"choices\":[{}]}"), Err(ReplyError::ContentNotString));
    assert_eq!(reply_of("{\"choices\":[{\"message\":{}}]}"), Err(ReplyError::ContentNotString));
    assert_eq!(reply_of("{\"choices\":[{\"message\":{\"content\":null}}]}"), Err(ReplyError::ContentNotString));
    assert_eq!(reply_of("{\"choices\":[{\"message\":{\"content\":[\"x\"]}}]}"), Err(ReplyError::ContentNotString));
    assert_eq!(reply_of("{\"choices\":[{\"message\":\"x\"}]}"), Err(ReplyError::ContentNotString));
    assert_eq!(reply_of("{\"choices\":[7]}"), Err(ReplyError::ContentNotString));
    assert_eq!(reply_of("{\"choices\":[{\"delta\":{\"content\":\"x\"}}]}"), Err(ReplyError::ContentNotString));
}

#[test]
fn streaming_reply_is_the_same_for_every_cut() {
    let stream = format!("{}: note\n{}{}data: [DONE]\n", record("こん"), record("にちは"), record("!"));
    let bytes = stream.as_bytes();
    let mut whole = StreamingReply::new();
    let expected = whole.accept(bytes);
    assert!(expected.done);
    assert_eq!(whole.text(), "こんにちは!");
    for cut in 0..=bytes.len() {
        let mut reply = StreamingReply::new();
        let first = reply.accept(&bytes[..cut]);
        let second = reply.accept(&bytes[cut..]);
        let mut fragments = first.fragments;
        fragments.extend(second.fragments);
        assert_eq!(fragments, expected.fragments);
        assert_eq!(first.done || second.done, expected.done);
        assert_eq!(reply.text(), whole.text());
        assert_eq!(reply.pending_bytes(), whole.pending_bytes());
        assert_eq!(reply.pending_chars(), whole.pending_chars());
    }
}

#[test]
fn lines_behind_the_end_are_read_by_the_next_call() {
    let head = format!("{}data: [DONE]\n", record("a"));
    let tail = record("b");
    let stream = format!("{}{}", head, tail);
    let mut whole = StreamingReply::new();
    let out = whole.accept(stream.as_bytes());
    assert_eq!(out.fragments, vec!["a".to_string()]);
    assert_eq!(whole.text(), "a");
    assert_eq!(whole.pending_chars(), tail.chars().count());
    let mut cut = StreamingReply::new();
    assert!(cut.accept(head.as_bytes()).done);
    let second = cut.accept(tail.as_bytes());
    assert_eq!(second.fragments, vec!["b".to_string()]);
    assert_eq!(cut.text(), "ab");
    assert_eq!(whole.accept(b"").fragments, vec!["b".to_string()]);
    assert_eq!(whole.text(), "ab");
}
