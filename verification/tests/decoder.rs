use voicevox_chat::decoder::{frame_line, yield_document, yield_payload, FragmentDecoder, Frame, Yield};
use voicevox_chat::utf8::decode_prefix;

fn record(content: &str) -> String {
    format!("data: {{\"choices\":[{{\"delta\":{{\"content\":\"{}\"}}}}]}}\n", content)
}

fn frame(line: &str) -> Frame {
    let chars: Vec<char> = line.chars().collect();
    frame_line(&chars, 0, chars.len())
}

#[test]
fn fresh_decoder_holds_nothing() {
    let decoder = FragmentDecoder::new();
    assert_eq!(decoder.pending_bytes(), 0);
    assert_eq!(decoder.pending_chars(), 0);
}

#[test]
fn decode_prefix_takes_all_of_well_formed_bytes() {
    let (text, taken) = decode_prefix("héllo 日本".as_bytes());
    assert_eq!(text, "héllo 日本");
    assert_eq!(taken, "héllo 日本".len());
}

#[test]
fn decode_prefix_stops_before_an_incomplete_character() {
    let bytes = "a日".as_bytes();
    let (text, taken) = decode_prefix(&bytes[..2]);
    assert_eq!(text, "a");
    assert_eq!(taken, 1);
    let (text, taken) = decode_prefix(&bytes[..3]);
    assert_eq!(text, "a");
    assert_eq!(taken, 1);
    let (text, taken) = decode_prefix(&bytes[1..3]);
    assert_eq!(text, "");
    assert_eq!(taken, 0);
}

#[test]
fn decode_prefix_stops_before_a_byte_that_is_no_utf8() {
    let (text, taken) = decode_prefix(&[b'o', b'k', 0xff, b'x']);
    assert_eq!(text, "ok");
    assert_eq!(taken, 2);
    let (text, taken) = decode_prefix(&[]);
    assert_eq!(text, "");
    assert_eq!(taken, 0);
}

#[test]
fn frames_are_told_by_the_prefix() {
    assert!(matches!(frame("data: [DONE]"), Frame::Done));
    assert!(matches!(frame("  data: [DONE] \r"), Frame::Done));
    assert!(matches!(frame("data: [DONE]x"), Frame::Payload(ref data) if data == "[DONE]x"));
    assert!(matches!(frame("data: {\"a\":1}"), Frame::Payload(ref data) if data == "{\"a\":1}"));
    assert!(matches!(frame("data: "), Frame::Other));
    assert!(matches!(frame("data:  x"), Frame::Payload(ref data) if data == " x"));
    assert!(matches!(frame("data:{}"), Frame::Other));
    assert!(matches!(frame("event: ping"), Frame::Other));
    assert!(matches!(frame(": comment"), Frame::Other));
    assert!(matches!(frame(""), Frame::Other));
    assert!(matches!(frame("   "), Frame::Other));
    assert!(matches!(frame("Data: [DONE]"), Frame::Other));
}

#[test]
fn frames_are_trimmed_of_unicode_white_space() {
    assert!(matches!(frame("\u{3000}data: [DONE]\u{a0}"), Frame::Done));
    assert!(matches!(frame("\u{2003}data: x\u{85}\t"), Frame::Payload(ref data) if data == "x"));
    assert!(matches!(frame("\u{200b}data: [DONE]"), Frame::Other));
}

#[test]
fn payload_yields_the_delta_content() {
    let payload = "{\"choices\":[{\"delta\":{\"content\":\"Hi\"}}]}";
    assert!(matches!(yield_payload(payload), Yield::Fragment(ref text) if text == "Hi"));
    let second = "{\"choices\":[{\"delta\":{\"content\":\"a\"}},{\"delta\":{\"content\":\"b\"}}]}";
    assert!(matches!(yield_payload(second), Yield::Fragment(ref text) if text == "a"));
    let escaped = "{\"choices\":[{\"delta\":{\"content\":\"line\\nbreak \\u65e5\"}}]}";
    assert!(matches!(yield_payload(escaped), Yield::Fragment(ref text) if text == "line\nbreak 日"));
}

#[test]
fn payload_without_text_yields_nothing() {
    assert!(matches!(yield_payload("{\"choices\":[{\"delta\":{\"content\":\"\"}}]}"), Yield::Nothing));
    assert!(matches!(yield_payload("{\"choices\":[{\"delta\":{}}]}"), Yield::Nothing));
    assert!(matches!(yield_payload("{\"choices\":[{\"delta\":{\"content\":null}}]}"), Yield::Nothing));
    assert!(matches!(yield_payload("{\"choices\":[{\"delta\":{\"content\":7}}]}"), Yield::Nothing));
    assert!(matches!(yield_payload("{\"choices\":[{\"delta\":\"x\"}]}"), Yield::Nothing));
    assert!(matches!(yield_payload("{\"choices\":[{\"delta\":[\"content\"]}]}"), Yield::Nothing));
    assert!(matches!(yield_payload("{\"choices\":[]}"), Yield::Nothing));
    assert!(matches!(yield_payload("{\"choices\":{\"delta\":{\"content\":\"x\"}}}"), Yield::Nothing));
    assert!(matches!(yield_payload("{}"), Yield::Nothing));
    assert!(matches!(yield_payload("[1,2]"), Yield::Nothing));
    assert!(matches!(yield_payload("\"text\""), Yield::Nothing));
}

#[test]
fn payload_that_is_no_json_is_malformed() {
    assert!(matches!(yield_payload("{\"choices\":"), Yield::Malformed));
    assert!(matches!(yield_payload("not json"), Yield::Malformed));
    assert!(matches!(yield_payload(""), Yield::Malformed));
    assert!(matches!(yield_payload("{} trailing"), Yield::Malformed));
}

#[test]
fn document_yields_the_delta_content() {
    let doc: serde_json::Value =
        serde_json::from_str("{\"choices\":[{\"delta\":{\"content\":\"Hi\"}}]}").unwrap();
    assert!(matches!(yield_document(&doc), Yield::Fragment(ref text) if text == "Hi"));
    let empty: serde_json::Value =
        serde_json::from_str("{\"choices\":[{\"delta\":{\"role\":\"assistant\"}}]}").unwrap();
    assert!(matches!(yield_document(&empty), Yield::Nothing));
}

#[test]
fn feed_gives_the_fragments_of_complete_lines() {
    let mut decoder = FragmentDecoder::new();
    let stream = format!("{}{}", record("Hi"), record(" there"));
    let out = decoder.feed(stream.as_bytes());
    assert_eq!(out.fragments, vec!["Hi".to_string(), " there".to_string()]);
    assert!(out.malformed.is_empty());
    assert!(!out.done);
    assert_eq!(decoder.pending_bytes(), 0);
    assert_eq!(decoder.pending_chars(), 0);
}

#[test]
fn feed_waits_for_the_end_of_a_line() {
    let mut decoder = FragmentDecoder::new();
    let line = record("Hello");
    let (head, tail) = line.as_bytes().split_at(20);
    let first = decoder.feed(head);
    assert!(first.fragments.is_empty());
    assert!(!first.done);
    assert_eq!(decoder.pending_chars(), 20);
    let second = decoder.feed(tail);
    assert_eq!(second.fragments, vec!["Hello".to_string()]);
    assert_eq!(decoder.pending_chars(), 0);
}

#[test]
fn feed_puts_a_split_character_together() {
    let line = record("日本語");
    let bytes = line.as_bytes();
    let cut = line.find('本').unwrap() + 1;
    let mut decoder = FragmentDecoder::new();
    let first = decoder.feed(&bytes[..cut]);
    assert!(first.fragments.is_empty());
    assert_eq!(decoder.pending_bytes(), 1);
    let second = decoder.feed(&bytes[cut..]);
    assert_eq!(second.fragments, vec!["日本語".to_string()]);
    assert_eq!(decoder.pending_bytes(), 0);
}

#[test]
fn feed_gives_the_same_for_every_cut_of_a_stream() {
    let stream = format!("{}\n: note\n{}{}", record("こん"), record("にちは"), record("!"));
    let bytes = stream.as_bytes();
    let mut whole = FragmentDecoder::new();
    let expected = whole.feed(bytes);
    assert_eq!(
        expected.fragments,
        vec!["こん".to_string(), "にちは".to_string(), "!".to_string()]
    );
    for cut in 0..=bytes.len() {
        let mut decoder = FragmentDecoder::new();
        let mut fragments = decoder.feed(&bytes[..cut]).fragments;
        fragments.extend(decoder.feed(&bytes[cut..]).fragments);
        assert_eq!(fragments, expected.fragments);
        assert_eq!(decoder.pending_bytes(), 0);
        assert_eq!(decoder.pending_chars(), 0);
    }
}

#[test]
fn feed_gives_the_same_byte_by_byte() {
    let stream = format!("{}{}data: [DONE]\n", record("日本"), record("語"));
    let mut decoder = FragmentDecoder::new();
    let mut fragments: Vec<String> = Vec::new();
    let mut done = false;
    for byte in stream.as_bytes() {
        let out = decoder.feed(&[*byte]);
        fragments.extend(out.fragments);
        done = done || out.done;
    }
    assert_eq!(fragments, vec!["日本".to_string(), "語".to_string()]);
    assert!(done);
}

#[test]
fn feed_stops_at_the_line_that_ends_the_stream() {
    let mut decoder = FragmentDecoder::new();
    let stream = format!("{}data: [DONE]\n{}", record("a"), record("b"));
    let out = decoder.feed(stream.as_bytes());
    assert_eq!(out.fragments, vec!["a".to_string()]);
    assert!(out.done);
    assert_eq!(decoder.pending_chars(), record("b").chars().count());
    let next = decoder.feed(b"");
    assert_eq!(next.fragments, vec!["b".to_string()]);
    assert!(!next.done);
    assert_eq!(decoder.pending_chars(), 0);
}

#[test]
fn feed_skips_a_malformed_line_and_goes_on() {
    let mut decoder = FragmentDecoder::new();
    let stream = format!("{}data: {{broken\n{}", record("a"), record("b"));
    let out = decoder.feed(stream.as_bytes());
    assert_eq!(out.fragments, vec!["a".to_string(), "b".to_string()]);
    assert_eq!(out.malformed, vec!["{broken".to_string()]);
    assert!(!out.done);
}

#[test]
fn feed_ignores_lines_that_carry_no_data() {
    let mut decoder = FragmentDecoder::new();
    let out = decoder.feed(b"\nevent: x\n: keep-alive\ndata:{}\n\r\n");
    assert!(out.fragments.is_empty());
    assert!(out.malformed.is_empty());
    assert!(!out.done);
    assert_eq!(decoder.pending_chars(), 0);
}

#[test]
fn feed_leaves_an_incomplete_last_line_alone() {
    let mut decoder = FragmentDecoder::new();
    let out = decoder.feed(b"data: {\"choices\":[{\"delta\":{\"content\":\"x\"}}]}");
    assert!(out.fragments.is_empty());
    assert!(out.malformed.is_empty());
    assert_eq!(decoder.pending_chars(), 45);
    assert_eq!(decoder.pending_bytes(), 0);
}

#[test]
fn feed_keeps_bytes_that_are_no_utf8() {
    let mut decoder = FragmentDecoder::new();
    let out = decoder.feed(&[b'a', b'\n', 0xff, b'b', b'\n']);
    assert!(out.fragments.is_empty());
    assert_eq!(decoder.pending_chars(), 0);
    assert_eq!(decoder.pending_bytes(), 3);
    let next = decoder.feed(b"data: [DONE]\n");
    assert!(!next.done);
    assert_eq!(decoder.pending_bytes(), 16);
}

#[test]
fn feed_takes_carriage_returns_as_white_space() {
    let mut decoder = FragmentDecoder::new();
    let stream = record("a").replace('\n', "\r\n") + "data: [DONE]\r\n";
    let out = decoder.feed(stream.as_bytes());
    assert_eq!(out.fragments, vec!["a".to_string()]);
    assert!(out.done);
}

#[test]
fn feed_gives_the_same_for_every_cut_of_any_bytes() {
    let mut bytes = record("a").into_bytes();
    bytes.extend_from_slice(&[0xe6, 0x97, b'\n']);
    bytes.extend_from_slice(record("b").as_bytes());
    let mut whole = FragmentDecoder::new();
    let expected = whole.feed(&bytes);
    assert_eq!(expected.fragments, vec!["a".to_string()]);
    for cut in 0..=bytes.len() {
        let mut decoder = FragmentDecoder::new();
        let mut fragments = decoder.feed(&bytes[..cut]).fragments;
        fragments.extend(decoder.feed(&bytes[cut..]).fragments);
        assert_eq!(fragments, expected.fragments);
        assert_eq!(decoder.pending_bytes(), whole.pending_bytes());
        assert_eq!(decoder.pending_chars(), whole.pending_chars());
    }
}
