use voicevox_chat::text::{
    calculate_display_width, calculate_input_height, calculate_paragraph_lines,
    calculate_wrapped_lines, wrap_paragraph, wrap_text,
};

fn strings(lines: &[&str]) -> Vec<String> {
    lines.iter().map(|line| line.to_string()).collect()
}

#[test]
fn display_width_counts_ascii_as_one_column() {
    assert_eq!(calculate_display_width(""), 0);
    assert_eq!(calculate_display_width("abc"), 3);
    assert_eq!(calculate_display_width("hello world"), 11);
}

#[test]
fn display_width_counts_other_characters_as_two_columns() {
    assert_eq!(calculate_display_width("日本"), 4);
    assert_eq!(calculate_display_width("aé"), 3);
    assert_eq!(calculate_display_width("こんにちは!"), 11);
    assert_eq!(calculate_display_width("\u{7f}\u{80}"), 3);
}

#[test]
fn wrap_paragraph_breaks_at_the_width() {
    assert_eq!(wrap_paragraph("abcdef", 3), strings(&["abc", "def"]));
    assert_eq!(wrap_paragraph("abcdefg", 3), strings(&["abc", "def", "g"]));
    assert_eq!(wrap_paragraph("abc", 3), strings(&["abc"]));
    assert_eq!(wrap_paragraph("abc", 10), strings(&["abc"]));
}

#[test]
fn wrap_paragraph_of_nothing_is_one_empty_line() {
    assert_eq!(wrap_paragraph("", 5), strings(&[""]));
    assert_eq!(wrap_paragraph("", 0), strings(&[""]));
}

#[test]
fn wrap_paragraph_at_width_zero_keeps_the_paragraph() {
    assert_eq!(wrap_paragraph("abc def", 0), strings(&["abc def"]));
}

#[test]
fn wrap_paragraph_counts_wide_characters_twice() {
    assert_eq!(wrap_paragraph("日本語", 4), strings(&["日本", "語"]));
    assert_eq!(wrap_paragraph("日本語", 5), strings(&["日本", "語"]));
    assert_eq!(wrap_paragraph("a日b本", 3), strings(&["a日", "b本"]));
}

#[test]
fn wrap_paragraph_gives_a_too_wide_character_its_own_line() {
    assert_eq!(wrap_paragraph("日本", 1), strings(&["日", "本"]));
    assert_eq!(wrap_paragraph("a日b", 1), strings(&["a", "日", "b"]));
}

#[test]
fn wrap_paragraph_does_not_part_at_line_feeds() {
    assert_eq!(wrap_paragraph("a\nb", 10), strings(&["a\nb"]));
}

#[test]
fn wrap_text_keeps_empty_paragraph_and_exact_width() {
    assert_eq!(wrap_text("ab\n\ncdefghij", 10), strings(&["ab", "", "cdefghij"]));
}

#[test]
fn wrap_text_wraps_each_paragraph() {
    assert_eq!(wrap_text("abcdef\nxy", 4), strings(&["abcd", "ef", "xy"]));
    assert_eq!(wrap_text("a\n", 4), strings(&["a", ""]));
    assert_eq!(wrap_text("\n", 4), strings(&["", ""]));
    assert_eq!(wrap_text("", 4), strings(&[""]));
    assert_eq!(wrap_text("abc\ndef", 0), strings(&["abc", "def"]));
}

#[test]
fn wrapped_lines_put_together_are_the_text() {
    let text = "The quick brown fox\n\njumps over 日本語のテキスト\nend";
    for width in 1..12 {
        let mut rebuilt: Vec<String> = Vec::new();
        for paragraph in text.split('\n') {
            rebuilt.push(wrap_paragraph(paragraph, width).concat());
        }
        assert_eq!(rebuilt.join("\n"), text);
        let mut lines: Vec<String> = Vec::new();
        for paragraph in text.split('\n') {
            lines.extend(wrap_paragraph(paragraph, width));
        }
        assert_eq!(wrap_text(text, width), lines);
    }
}

#[test]
fn wrapping_again_at_the_same_width_changes_nothing() {
    let text = "The quick brown fox jumps over 日本語のテキスト";
    for width in 0..12 {
        for line in wrap_paragraph(text, width) {
            assert_eq!(wrap_paragraph(&line, width), vec![line.clone()]);
            assert_eq!(wrap_text(&line, width), vec![line.clone()]);
        }
    }
}

#[test]
fn wrapped_lines_fit_the_width_or_hold_one_character() {
    let text = "ab日本cdefg語hi";
    for width in 1..8 {
        for line in wrap_paragraph(text, width) {
            assert!(calculate_display_width(&line) <= width || line.chars().count() == 1);
            assert!(!line.is_empty());
        }
    }
}

#[test]
fn paragraph_lines_are_counted_as_they_are_wrapped() {
    assert_eq!(calculate_paragraph_lines("", 5), 1);
    assert_eq!(calculate_paragraph_lines("abc", 0), 1);
    assert_eq!(calculate_paragraph_lines("abcdefg", 3), 3);
    assert_eq!(calculate_paragraph_lines("日本語", 4), 2);
    assert_eq!(calculate_paragraph_lines("日本", 1), 2);
}

#[test]
fn text_lines_are_counted_as_they_are_wrapped() {
    assert_eq!(calculate_wrapped_lines("", 5), 1);
    assert_eq!(calculate_wrapped_lines("ab\n\ncdefghij", 10), 3);
    assert_eq!(calculate_wrapped_lines("abcdef\nxy", 4), 3);
    assert_eq!(calculate_wrapped_lines("a\n", 4), 2);
    for width in 0..9 {
        let text = "one two three\n\n日本語 four";
        assert_eq!(calculate_wrapped_lines(text, width), wrap_text(text, width).len());
    }
}

#[test]
fn input_height_has_three_rows_at_least() {
    assert_eq!(calculate_input_height("", 80), 3);
    assert_eq!(calculate_input_height("hello", 80), 3);
}

#[test]
fn input_height_grows_with_the_lines() {
    assert_eq!(calculate_input_height("a\nb", 80), 4);
    assert_eq!(calculate_input_height("a\nb\nc", 80), 5);
    assert_eq!(calculate_input_height("abcdefgh", 6), 4);
    assert_eq!(calculate_input_height("abcdefgh", 5), 5);
}

#[test]
fn input_height_has_ten_rows_at_most() {
    assert_eq!(calculate_input_height("1\n2\n3\n4\n5\n6\n7", 80), 9);
    assert_eq!(calculate_input_height("1\n2\n3\n4\n5\n6\n7\n8", 80), 10);
    assert_eq!(calculate_input_height("1\n2\n3\n4\n5\n6\n7\n8\n9\n10\n11\n12", 80), 10);
}

#[test]
fn input_height_leaves_the_border_columns_out() {
    assert_eq!(calculate_input_height("abcdef", 2), 3);
    assert_eq!(calculate_input_height("abcdef", 0), 3);
    assert_eq!(calculate_input_height("abcdef", 3), 8);
    assert_eq!(calculate_input_height("abcdef", 4), 5);
}
