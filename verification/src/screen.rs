//! What the screens show: the lines of the transcript, the titles and
//! lists, and the places of the windows. Drawing them is left to the
//! terminal.

use vstd::prelude::*;
use vstd::string::StringExecFns;
use crate::state::{
    role_prefix, spaces, text_width, total_lines, widest_role_name, ChatMessage, InputMode,
    MessageRole, MessageView, message_views, setting_views,
};
use crate::strings::{chars_of, lemma_views_push, views_of};
use crate::text::{wrap_text, wrapped_text, Rect};

verus! {

/// One line of the transcript as it is shown.
#[derive(Debug, Clone)]
pub struct ScreenLine {
    pub text: String,
    /// Whose message the line belongs to.
    pub role: MessageRole,
}

/// One line of the transcript as it is shown, as text.
pub struct ScreenLineView {
    pub text: Seq<char>,
    pub role: MessageRole,
}

impl View for ScreenLine {
    type V = ScreenLineView;

    open spec fn view(&self) -> ScreenLineView {
        ScreenLineView { text: self.text@, role: self.role }
    }
}

/// The views of the lines of `lines`, in order.
pub open spec fn line_views(lines: Seq<ScreenLine>) -> Seq<ScreenLineView> {
    lines.map_values(|l: ScreenLine| l@)
}

/// The lines of one message: its text wrapped, with the role before the
/// first line and as many spaces before the others.
pub open spec fn message_lines(message: MessageView, width: int) -> Seq<ScreenLineView> {
    let lines = wrapped_text(message.content, width);
    Seq::new(
        lines.len(),
        |i: int|
            ScreenLineView {
                text: if i == 0 {
                    role_prefix(message.role, widest_role_name()) + lines[i]
                } else {
                    spaces(widest_role_name() + 2) + lines[i]
                },
                role: message.role,
            },
    )
}

/// The lines of the transcript in a view of `display_width` columns.
pub open spec fn transcript_lines(messages: Seq<MessageView>, display_width: int) -> Seq<
    ScreenLineView,
>
    decreases messages.len(),
{
    if messages.len() == 0 {
        Seq::empty()
    } else {
        transcript_lines(messages.drop_last(), display_width) + message_lines(
            messages.last(),
            text_width(display_width),
        )
    }
}

/// The transcript is shown in as many lines as are counted for scrolling.
pub proof fn lemma_lines_shown_are_lines_counted(messages: Seq<MessageView>, display_width: int)
    ensures
        transcript_lines(messages, display_width).len() == total_lines(messages, display_width),
    decreases messages.len(),
{
    if messages.len() > 0 {
        lemma_lines_shown_are_lines_counted(messages.drop_last(), display_width);
    }
}

/// The line that is marked in a transcript of `total` lines: the one at
/// the scroll offset, or the last if the offset is beyond it.
pub open spec fn marked_line(scroll_offset: int, total: int) -> Option<int> {
    if total > 0 {
        Some(
            if scroll_offset < total - 1 {
                scroll_offset
            } else {
                total - 1
            },
        )
    } else {
        None
    }
}

/// The line to mark in a transcript of `total` lines.
pub fn selected_line(scroll_offset: usize, total: usize) -> (line: Option<usize>)
    ensures
        match line {
            Some(at) => marked_line(scroll_offset as int, total as int) == Some(at as int),
            None => marked_line(scroll_offset as int, total as int) is None,
        },
{
    if total > 0 {
        if scroll_offset < total - 1 {
            Some(scroll_offset)
        } else {
            Some(total - 1)
        }
    } else {
        None
    }
}

fn indent(width: usize) -> (text: String)
    ensures
        text@ == spaces(width as int),
{
    let mut text = String::new();
    let mut i: usize = 0;
    assert(text@ =~= spaces(0));
    while i < width
        invariant
            i <= width,
            text@ == spaces(i as int),
        decreases width - i,
    {
        text.push(' ');
        i = i + 1;
        assert(text@ =~= spaces(i as int));
    }
    text
}

/// The lines of the transcript in a view of `display_width` columns.
pub fn render_message_lines(messages: &Vec<ChatMessage>, display_width: usize) -> (lines: Vec<
    ScreenLine,
>)
    ensures
        line_views(lines@) == transcript_lines(message_views(messages@), display_width as int),
{
    let width: usize = if display_width > 8 {
        display_width - 8
    } else {
        0
    };
    let mut lines: Vec<ScreenLine> = Vec::new();
    let mut m: usize = 0;
    let ghost all = message_views(messages@);
    assert(all.take(0) =~= Seq::<MessageView>::empty());
    assert(line_views(lines@) =~= Seq::<ScreenLineView>::empty());
    while m < messages.len()
        invariant
            m <= messages@.len(),
            all == message_views(messages@),
            width == text_width(display_width as int),
            line_views(lines@) == transcript_lines(all.take(m as int), display_width as int),
        decreases messages@.len() - m,
    {
        let message = &messages[m];
        let wrapped = wrap_text(message.content.as_str(), width);
        let ghost before = line_views(lines@);
        let ghost expected = message_lines(message@, width as int);
        let mut i: usize = 0;
        assert(expected.take(0) =~= Seq::<ScreenLineView>::empty());
        assert(before + expected.take(0) =~= before);
        while i < wrapped.len()
            invariant
                i <= wrapped@.len(),
                views_of(wrapped@) == wrapped_text(message@.content, width as int),
                expected == message_lines(message@, width as int),
                line_views(lines@) == before + expected.take(i as int),
            decreases wrapped@.len() - i,
        {
            let mut text = if i == 0 {
                message.role.formatted_prefix(6)
            } else {
                indent(8)
            };
            text.append(wrapped[i].as_str());
            let line = ScreenLine { text, role: message.role };
            proof {
                assert(views_of(wrapped@)[i as int] == wrapped@[i as int]@);
                assert(line@ == expected[i as int]);
                assert(line_views(lines@.push(line)) =~= line_views(lines@).push(line@));
                assert(before + expected.take(i + 1) =~= (before + expected.take(i as int)).push(
                    expected[i as int],
                ));
            }
            lines.push(line);
            i = i + 1;
        }
        proof {
            assert(expected.take(expected.len() as int) =~= expected);
            assert(all.take(m + 1).drop_last() =~= all.take(m as int));
            assert(all.take(m + 1).last() == message@);
        }
        m = m + 1;
    }
    assert(all.take(all.len() as int) =~= all);
    lines
}

/// The name of a mode and the keys that it knows, as the input area's
/// title shows them.
pub open spec fn mode_title(mode: InputMode) -> Seq<char> {
    match mode {
        InputMode::Normal => "-- NORMAL --"@ + " ("@
            + "i:Insert m:Model s:Settings q:Quit j/k:Scroll g/G:Top/Bottom"@ + ")"@,
        InputMode::Insert => "-- INSERT --"@ + " ("@
            + "Esc:Normal Enter:Send /model:ModelSelect Ctrl+N:NewLine"@ + ")"@,
        InputMode::ModelSelect => "-- MODEL SELECT --"@ + " ("@
            + "j/k:Navigate Enter:Select Esc:Cancel"@ + ")"@,
        InputMode::Settings => "-- SETTINGS --"@ + " ("@ + "j/k:Scroll Esc:Back q:Quit"@ + ")"@,
    }
}

/// The title of the input area in `mode`.
pub fn input_title(mode: InputMode) -> (title: String)
    ensures
        title@ == mode_title(mode),
{
    let (mode_text, help_text) = match mode {
        InputMode::Normal => (
            "-- NORMAL --",
            "i:Insert m:Model s:Settings q:Quit j/k:Scroll g/G:Top/Bottom",
        ),
        InputMode::Insert => (
            "-- INSERT --",
            "Esc:Normal Enter:Send /model:ModelSelect Ctrl+N:NewLine",
        ),
        InputMode::ModelSelect => ("-- MODEL SELECT --", "j/k:Navigate Enter:Select Esc:Cancel"),
        InputMode::Settings => ("-- SETTINGS --", "j/k:Scroll Esc:Back q:Quit"),
    };
    let mut title = String::from_str(mode_text);
    title.append(" (");
    title.append(help_text);
    title.append(")");
    title
}

/// The entry of a model in the list of models: marked if it is the
/// current model.
pub open spec fn model_entry(model: Seq<char>, current: Seq<char>) -> Seq<char> {
    if model == current {
        "\u{25cf} "@ + model
    } else {
        "  "@ + model
    }
}

/// The entries of the list of models.
pub fn model_lines(available_models: &Vec<String>, current_model: &str) -> (lines: Vec<String>)
    ensures
        views_of(lines@) == views_of(available_models@).map_values(
            |model: Seq<char>| model_entry(model, current_model@),
        ),
{
    let current = String::from_str(current_model);
    let mut lines: Vec<String> = Vec::new();
    let mut i: usize = 0;
    let ghost expected = views_of(available_models@).map_values(
        |model: Seq<char>| model_entry(model, current_model@),
    );
    assert(views_of(lines@) =~= expected.take(0));
    while i < available_models.len()
        invariant
            i <= available_models@.len(),
            current@ == current_model@,
            expected == views_of(available_models@).map_values(
                |model: Seq<char>| model_entry(model, current_model@),
            ),
            views_of(lines@) == expected.take(i as int),
        decreases available_models@.len() - i,
    {
        let mut line = if available_models[i] == current {
            String::from_str("\u{25cf} ")
        } else {
            String::from_str("  ")
        };
        line.append(available_models[i].as_str());
        proof {
            lemma_views_push(lines@, line);
            assert(expected.take(i + 1) =~= expected.take(i as int).push(expected[i as int]));
        }
        lines.push(line);
        i = i + 1;
    }
    assert(expected.take(expected.len() as int) =~= expected);
    lines
}

/// `n` dots.
pub open spec fn dots(n: int) -> Seq<char> {
    Seq::new(
        if n > 0 {
            n as nat
        } else {
            0
        },
        |i: int| '.',
    )
}

/// The entry of a setting in the settings screen: the label, filled up
/// with dots to thirty characters, a space, and the value.
pub open spec fn setting_entry(setting: (Seq<char>, Seq<char>)) -> Seq<char> {
    setting.0 + dots(30 - setting.0.len()) + seq![' '] + setting.1
}

/// The entries of the settings screen, in the order of the settings.
pub fn settings_lines(settings: &Vec<(String, String)>) -> (lines: Vec<String>)
    ensures
        views_of(lines@) == setting_views(settings@).map_values(
            |setting: (Seq<char>, Seq<char>)| setting_entry(setting),
        ),
{
    let mut lines: Vec<String> = Vec::new();
    let mut i: usize = 0;
    let ghost expected = setting_views(settings@).map_values(
        |setting: (Seq<char>, Seq<char>)| setting_entry(setting),
    );
    assert(views_of(lines@) =~= expected.take(0));
    while i < settings.len()
        invariant
            i <= settings@.len(),
            expected == setting_views(settings@).map_values(
                |setting: (Seq<char>, Seq<char>)| setting_entry(setting),
            ),
            views_of(lines@) == expected.take(i as int),
        decreases settings@.len() - i,
    {
        let label = chars_of(settings[i].0.as_str());
        let mut line = String::from_str(settings[i].0.as_str());
        let mut filled: usize = label.len();
        assert(line@ =~= settings@[i as int].0@ + dots(0));
        while filled < 30
            invariant
                label@.len() <= filled,
                filled <= 30 || filled == label@.len(),
                label@ == settings@[i as int].0@,
                line@ == label@ + dots(filled - label@.len()),
            decreases 30 - filled,
        {
            line.push('.');
            filled = filled + 1;
            assert(line@ =~= label@ + dots(filled - label@.len()));
        }
        assert(dots(filled - label@.len()) =~= dots(30 - label@.len()));
        line.push(' ');
        line.append(settings[i].1.as_str());
        proof {
            assert(line@ =~= expected[i as int]);
            lemma_views_push(lines@, line);
            assert(expected.take(i + 1) =~= expected.take(i as int).push(expected[i as int]));
        }
        lines.push(line);
        i = i + 1;
    }
    assert(expected.take(expected.len() as int) =~= expected);
    lines
}

/// The window of the list of models on a screen of the size of `area`:
/// the middle half of the screen each way.
pub open spec fn model_window(area: Rect) -> Rect {
    Rect {
        x: (area.width / 4) as u16,
        y: (area.height / 4) as u16,
        width: (area.width / 2) as u16,
        height: (area.height / 2) as u16,
    }
}

/// The window of the settings on a screen of the size of `area`: three
/// quarters of the screen each way.
pub open spec fn settings_window(area: Rect) -> Rect {
    Rect {
        x: (area.width / 8) as u16,
        y: (area.height / 8) as u16,
        width: (area.width * 3 / 4) as u16,
        height: (area.height * 3 / 4) as u16,
    }
}

/// What is left of a window inside its border.
pub open spec fn inside(window: Rect) -> Rect {
    Rect {
        x: (window.x + 1) as u16,
        y: (window.y + 1) as u16,
        width: (window.width - 2) as u16,
        height: (window.height - 2) as u16,
    }
}

/// The window of the list of models and what is inside its border, on a
/// screen that is four cells wide and high at least.
pub fn model_select_areas(area: Rect) -> (areas: (Rect, Rect))
    requires
        area.width >= 4,
        area.height >= 4,
    ensures
        areas.0 == model_window(area),
        areas.1 == inside(model_window(area)),
{
    let window = Rect {
        x: area.width / 4,
        y: area.height / 4,
        width: area.width / 2,
        height: area.height / 2,
    };
    let inner = Rect {
        x: window.x + 1,
        y: window.y + 1,
        width: window.width - 2,
        height: window.height - 2,
    };
    (window, inner)
}

/// The window of the settings and what is inside its border, on a screen
/// that is three cells wide and high at least, and whose width and height
/// can be tripled.
pub fn settings_areas(area: Rect) -> (areas: (Rect, Rect))
    requires
        3 <= area.width,
        3 <= area.height,
        area.width * 3 <= u16::MAX,
        area.height * 3 <= u16::MAX,
    ensures
        areas.0 == settings_window(area),
        areas.1 == inside(settings_window(area)),
{
    let window = Rect {
        x: area.width / 8,
        y: area.height / 8,
        width: area.width * 3 / 4,
        height: area.height * 3 / 4,
    };
    let inner = Rect {
        x: window.x + 1,
        y: window.y + 1,
        width: window.width - 2,
        height: window.height - 2,
    };
    (window, inner)
}

} // verus!
