//! What happens to the view when the worker reports something or a key is
//! pressed.

use vstd::prelude::*;
use vstd::string::StringExecFns;
use crate::lines::{starts_with, trim, trim_bounds};
use crate::state::{
    all_finished, at_most_one_streams, lemma_finished_already, none_streams, only_last_streams,
    position_of, scrolled_down, scrolled_to_bottom, total_lines, AppState, AppStateView, Content,
    ErrorMessage, InputMode, MessageId, MessageRole, MessageView,
};
use crate::strings::{char_len, chars_of};
use crate::cursor::{chars_before, lemma_offsets_grow, offset_left, offset_of, offset_right};

verus! {

/// A move of the view over the transcript.
#[derive(Debug, Clone, Copy, PartialEq, Eq, Structural)]
pub enum ScrollAction {
    Up,
    Down,
    ToTop,
    ToBottom,
}

/// What the worker reports while it gets a reply.
#[derive(Debug, Clone)]
pub enum ChatEvent {
    /// A reply has begun, under this identifier.
    StreamingStart(MessageId),
    /// The reply under this identifier goes on with this text.
    StreamingChunk(MessageId, Content),
    /// The reply under this identifier is complete.
    StreamingComplete(MessageId),
    /// The request failed, for this reason.
    Error(ErrorMessage),
    /// The model was changed to the one of this name.
    ModelChanged(String),
}

/// A report of the worker, as texts.
pub enum ChatEventView {
    StreamingStart(Seq<char>),
    StreamingChunk(Seq<char>, Seq<char>),
    StreamingComplete(Seq<char>),
    Error(Seq<char>),
    ModelChanged(Seq<char>),
}

impl View for ChatEvent {
    type V = ChatEventView;

    open spec fn view(&self) -> ChatEventView {
        match self {
            ChatEvent::StreamingStart(id) => ChatEventView::StreamingStart(id@),
            ChatEvent::StreamingChunk(id, text) => ChatEventView::StreamingChunk(id@, text@),
            ChatEvent::StreamingComplete(id) => ChatEventView::StreamingComplete(id@),
            ChatEvent::Error(reason) => ChatEventView::Error(reason@),
            ChatEvent::ModelChanged(model) => ChatEventView::ModelChanged(model@),
        }
    }
}

/// The transcript with one more message, which is finished.
pub open spec fn with_message(
    state: AppStateView,
    id: Seq<char>,
    role: MessageRole,
    content: Seq<char>,
) -> AppStateView {
    AppStateView {
        messages: state.messages.push(MessageView { id, role, content, is_streaming: false }),
        ..state
    }
}

/// The state with `model` as the current model, and with the selection on
/// the first entry that names it, if there is one.
pub open spec fn with_model(state: AppStateView, model: Seq<char>) -> AppStateView {
    AppStateView {
        current_model: model,
        model_select_index: if position_of(state.available_models, model)
            < state.available_models.len() {
            position_of(state.available_models, model)
        } else {
            state.model_select_index
        },
        ..state
    }
}

/// The last message, changed by `change`, if it is still being written.
pub open spec fn with_streaming_last(
    state: AppStateView,
    change: spec_fn(MessageView) -> MessageView,
) -> AppStateView {
    if state.messages.len() > 0 && state.messages.last().is_streaming {
        AppStateView {
            messages: state.messages.update(
                state.messages.len() - 1,
                change(state.messages.last()),
            ),
            ..state
        }
    } else {
        state
    }
}

/// The state in which no message is being written any more.
pub open spec fn with_all_finished(state: AppStateView) -> AppStateView {
    AppStateView { messages: all_finished(state.messages), ..state }
}

/// The state after an event of the worker. A message that the event adds
/// gets the identifier `fresh`.
///
/// A reply that starts, and a failure, finish what was still being written:
/// the new reply is then the one message that is being written, and after
/// a failure none is. Chunks and the completion reach the last message, if
/// it is being written.
pub open spec fn state_after_event(
    state: AppStateView,
    event: ChatEventView,
    fresh: Seq<char>,
) -> AppStateView {
    match event {
        ChatEventView::StreamingStart(_) => AppStateView {
            messages: all_finished(state.messages).push(
                MessageView {
                    id: fresh,
                    role: MessageRole::Assistant,
                    content: Seq::empty(),
                    is_streaming: true,
                },
            ),
            ..state
        },
        ChatEventView::StreamingChunk(_, text) => with_streaming_last(
            state,
            |m: MessageView| MessageView { content: m.content + text, ..m },
        ),
        ChatEventView::StreamingComplete(_) => with_streaming_last(
            state,
            |m: MessageView| MessageView { is_streaming: false, ..m },
        ),
        ChatEventView::Error(reason) => with_message(
            with_all_finished(state),
            fresh,
            MessageRole::System,
            "Error: "@ + reason,
        ),
        ChatEventView::ModelChanged(model) => with_message(
            with_model(state, model),
            fresh,
            MessageRole::System,
            "Model changed to: "@ + model,
        ),
    }
}

/// The identifier of the last message, or the empty text if there is no
/// message.
pub open spec fn last_id(state: AppStateView) -> Seq<char> {
    if state.messages.len() > 0 {
        state.messages.last().id
    } else {
        Seq::empty()
    }
}

/// Applies an event of the worker to the view. The reply that is being
/// written is the last message: the identifier in the event is not looked
/// at.
pub fn handle_chat_event(app_state: &mut AppState, event: ChatEvent)
    ensures
        final(app_state)@ == state_after_event(old(app_state)@, event@, last_id(final(app_state)@)),
        at_most_one_streams(old(app_state)@.messages) ==> at_most_one_streams(
            final(app_state)@.messages,
        ),
        event is StreamingStart ==> only_last_streams(final(app_state)@.messages),
        event is Error ==> none_streams(final(app_state)@.messages),
{
    proof {
        lemma_one_reply_is_written(old(app_state)@, event@, last_id(final(app_state)@));
    }
    match event {
        ChatEvent::StreamingStart(_message_id) => {
            let _actual_id = app_state.start_streaming_message(
                MessageRole::Assistant,
                String::new(),
            );
        },
        ChatEvent::StreamingChunk(_message_id, content) => {
            let count = app_state.messages.len();
            if count > 0 && app_state.messages[count - 1].is_streaming {
                app_state.messages[count - 1].content.append(content.as_str());
                assert(final(app_state)@.messages =~= old(app_state)@.messages.update(
                    count - 1,
                    MessageView {
                        content: old(app_state)@.messages.last().content + content@,
                        ..old(app_state)@.messages.last()
                    },
                ));
            }
        },
        ChatEvent::StreamingComplete(_message_id) => {
            let count = app_state.messages.len();
            if count > 0 && app_state.messages[count - 1].is_streaming {
                app_state.messages[count - 1].is_streaming = false;
                assert(final(app_state)@.messages =~= old(app_state)@.messages.update(
                    count - 1,
                    MessageView { is_streaming: false, ..old(app_state)@.messages.last() },
                ));
            }
        },
        ChatEvent::Error(error_msg) => {
            let mut text = String::from_str("Error: ");
            text.append(error_msg.as_str());
            app_state.finish_streaming();
            app_state.add_message(MessageRole::System, text);
        },
        ChatEvent::ModelChanged(model) => {
            let mut text = String::from_str("Model changed to: ");
            text.append(model.as_str());
            app_state.set_current_model(model);
            app_state.add_message(MessageRole::System, text);
        },
    }
}

/// The state after the chunks `texts` of the reply `id`, one after the
/// other.
pub open spec fn state_after_chunks(
    state: AppStateView,
    id: Seq<char>,
    texts: Seq<Seq<char>>,
) -> AppStateView
    decreases texts.len(),
{
    if texts.len() == 0 {
        state
    } else {
        state_after_chunks(
            state_after_event(state, ChatEventView::StreamingChunk(id, texts[0]), Seq::empty()),
            id,
            texts.drop_first(),
        )
    }
}

proof fn lemma_chunks_extend_last(state: AppStateView, id: Seq<char>, texts: Seq<Seq<char>>)
    requires
        state.messages.len() > 0,
        state.messages.last().is_streaming,
    ensures
        state_after_chunks(state, id, texts) == (AppStateView {
            messages: state.messages.update(
                state.messages.len() - 1,
                MessageView {
                    content: state.messages.last().content + texts.flatten(),
                    ..state.messages.last()
                },
            ),
            ..state
        }),
    decreases texts.len(),
{
    let last = state.messages.last();
    if texts.len() == 0 {
        assert(last.content + texts.flatten() =~= last.content);
        assert(state.messages.update(state.messages.len() - 1, last) =~= state.messages);
    } else {
        let next = state_after_event(
            state,
            ChatEventView::StreamingChunk(id, texts[0]),
            Seq::empty(),
        );
        lemma_chunks_extend_last(next, id, texts.drop_first());
        assert((last.content + texts[0]) + texts.drop_first().flatten() =~= last.content
            + texts.flatten());
        assert(next.messages.update(
            next.messages.len() - 1,
            MessageView {
                content: next.messages.last().content + texts.drop_first().flatten(),
                ..next.messages.last()
            },
        ) =~= state.messages.update(
            state.messages.len() - 1,
            MessageView { content: last.content + texts.flatten(), ..last },
        ));
    }
}

/// A reply that starts, goes on with any number of chunks and completes
/// adds exactly one message to the transcript: an assistant's message that
/// holds the chunks' texts in their order and is no longer being written.
/// Nothing else of the state changes, but that a message that was still
/// being written before is finished too.
pub proof fn lemma_streamed_reply_is_one_message(
    state: AppStateView,
    id: Seq<char>,
    fresh: Seq<char>,
    texts: Seq<Seq<char>>,
)
    ensures
        state_after_event(
            state_after_chunks(
                state_after_event(state, ChatEventView::StreamingStart(id), fresh),
                id,
                texts,
            ),
            ChatEventView::StreamingComplete(id),
            Seq::empty(),
        ) == with_message(
            with_all_finished(state),
            fresh,
            MessageRole::Assistant,
            texts.flatten(),
        ),
        none_streams(state.messages) ==> with_all_finished(state) == state,
{
    if none_streams(state.messages) {
        lemma_finished_already(state.messages);
    }
    let started = state_after_event(state, ChatEventView::StreamingStart(id), fresh);
    lemma_chunks_extend_last(started, id, texts);
    let streamed = state_after_chunks(started, id, texts);
    let done = state_after_event(streamed, ChatEventView::StreamingComplete(id), Seq::empty());
    assert(Seq::<char>::empty() + texts.flatten() =~= texts.flatten());
    assert(done.messages =~= with_message(
        with_all_finished(state),
        fresh,
        MessageRole::Assistant,
        texts.flatten(),
    ).messages);
}

/// A key of the keyboard.
#[derive(Debug, Clone, Copy, PartialEq, Eq, Structural)]
pub enum KeyCode {
    Char(char),
    Enter,
    Esc,
    Backspace,
    Left,
    Right,
    Up,
    Down,
    /// Any other key.
    Other,
}

/// What the terminal reports of a key.
#[derive(Debug, Clone, Copy, PartialEq, Eq, Structural)]
pub struct KeyEvent {
    pub code: KeyCode,
    /// The control key was held.
    pub control: bool,
    /// The key went down. Keys that repeat or are let go change nothing.
    pub pressed: bool,
}

/// What a key asks of the program, beyond the change of the state.
pub struct KeyOutcome {
    /// The program shall end.
    pub should_quit: bool,
    /// The view shall move over the transcript.
    pub scroll: Option<ScrollAction>,
    /// This text shall go to the worker.
    pub send: Option<String>,
}

/// What a key asks of the program, as texts.
pub struct KeyOutcomeView {
    pub should_quit: bool,
    pub scroll: Option<ScrollAction>,
    pub send: Option<Seq<char>>,
}

impl View for KeyOutcome {
    type V = KeyOutcomeView;

    open spec fn view(&self) -> KeyOutcomeView {
        KeyOutcomeView {
            should_quit: self.should_quit,
            scroll: self.scroll,
            send: match self.send {
                Some(text) => Some(text@),
                None => None,
            },
        }
    }
}

/// A key that asks for nothing.
pub open spec fn nothing() -> KeyOutcomeView {
    KeyOutcomeView { should_quit: false, scroll: None, send: None }
}

/// A key that asks for a move of the view.
pub open spec fn scrolling(action: ScrollAction) -> KeyOutcomeView {
    KeyOutcomeView { should_quit: false, scroll: Some(action), send: None }
}

/// The state in another mode.
pub open spec fn in_mode(state: AppStateView, mode: InputMode) -> AppStateView {
    AppStateView { input_mode: mode, ..state }
}

/// The state with an empty input line.
pub open spec fn with_input_cleared(state: AppStateView) -> AppStateView {
    AppStateView { current_input: Seq::empty(), cursor_position: 0, ..state }
}

/// The state with `ch` put in where the cursor stands.
pub open spec fn with_char_inserted(state: AppStateView, ch: char) -> AppStateView {
    AppStateView {
        current_input: state.current_input.insert(
            chars_before(state.current_input, state.cursor_position),
            ch,
        ),
        cursor_position: state.cursor_position + char_len(ch),
        ..state
    }
}

/// The state without the character before the cursor.
pub open spec fn with_char_removed(state: AppStateView) -> AppStateView {
    let n = chars_before(state.current_input, state.cursor_position);
    if n > 0 {
        AppStateView {
            current_input: state.current_input.remove(n - 1),
            cursor_position: offset_of(state.current_input, n - 1),
            ..state
        }
    } else {
        state
    }
}

/// What a key does in normal mode.
pub open spec fn normal_key(state: AppStateView, code: KeyCode) -> (AppStateView, KeyOutcomeView) {
    match code {
        KeyCode::Char(c) => if c == 'q' {
            (
                AppStateView { should_quit: true, ..state },
                KeyOutcomeView { should_quit: true, scroll: None, send: None },
            )
        } else if c == 'k' {
            (state, scrolling(ScrollAction::Up))
        } else if c == 'j' {
            (state, scrolling(ScrollAction::Down))
        } else if c == 'g' {
            (state, scrolling(ScrollAction::ToTop))
        } else if c == 'G' {
            (state, scrolling(ScrollAction::ToBottom))
        } else if c == 'i' {
            (in_mode(state, InputMode::Insert), nothing())
        } else if c == 'm' {
            (in_mode(state, InputMode::ModelSelect), nothing())
        } else if c == 's' {
            (in_mode(state, InputMode::Settings), nothing())
        } else {
            (state, nothing())
        },
        KeyCode::Up => (state, scrolling(ScrollAction::Up)),
        KeyCode::Down => (state, scrolling(ScrollAction::Down)),
        _ => (state, nothing()),
    }
}

/// What the enter key does in insert mode: nothing on a line of white
/// space; on the two commands a change of mode; on any other line the
/// line goes to the transcript and to the worker, and the view to the end.
pub open spec fn entered(state: AppStateView, fresh: Seq<char>) -> (AppStateView, KeyOutcomeView) {
    let line = trim(state.current_input);
    if line.len() == 0 {
        (state, nothing())
    } else if line == "/model"@ {
        (with_input_cleared(in_mode(state, InputMode::ModelSelect)), nothing())
    } else if line == "/settings"@ {
        (with_input_cleared(in_mode(state, InputMode::Settings)), nothing())
    } else {
        (
            AppStateView {
                auto_scroll_enabled: true,
                input_mode: InputMode::Normal,
                ..with_input_cleared(
                    with_message(state, fresh, MessageRole::User, state.current_input),
                )
            },
            KeyOutcomeView {
                should_quit: false,
                scroll: Some(ScrollAction::ToBottom),
                send: Some(state.current_input),
            },
        )
    }
}

/// What a key does in insert mode. A message that it adds gets the
/// identifier `fresh`.
pub open spec fn insert_key(state: AppStateView, key: KeyEvent, fresh: Seq<char>) -> (
    AppStateView,
    KeyOutcomeView,
) {
    match key.code {
        KeyCode::Esc => (in_mode(state, InputMode::Normal), nothing()),
        KeyCode::Enter => entered(state, fresh),
        KeyCode::Char(c) => if c == 'n' && key.control {
            (with_char_inserted(state, '\n'), nothing())
        } else {
            (with_char_inserted(state, c), nothing())
        },
        KeyCode::Backspace => (with_char_removed(state), nothing()),
        KeyCode::Left => (
            AppStateView {
                cursor_position: offset_left(state.current_input, state.cursor_position),
                ..state
            },
            nothing(),
        ),
        KeyCode::Right => (
            AppStateView {
                cursor_position: offset_right(state.current_input, state.cursor_position),
                ..state
            },
            nothing(),
        ),
        _ => (state, nothing()),
    }
}

/// The state with the selection in the list of models one entry up.
pub open spec fn with_model_selection_up(state: AppStateView) -> AppStateView {
    AppStateView {
        model_select_index: if state.model_select_index > 0 {
            state.model_select_index - 1
        } else {
            0
        },
        ..state
    }
}

/// The state with the selection in the list of models one entry down.
pub open spec fn with_model_selection_down(state: AppStateView) -> AppStateView {
    AppStateView {
        model_select_index: if state.model_select_index + 1 < state.available_models.len() {
            state.model_select_index + 1
        } else {
            state.model_select_index
        },
        ..state
    }
}

/// The state after a key in the list of models. A message that the key
/// adds gets the identifier `fresh`.
pub open spec fn model_select_key(
    state: AppStateView,
    code: KeyCode,
    fresh: Seq<char>,
) -> AppStateView {
    match code {
        KeyCode::Esc => in_mode(state, InputMode::Normal),
        KeyCode::Up => with_model_selection_up(state),
        KeyCode::Down => with_model_selection_down(state),
        KeyCode::Char(c) => if c == 'k' {
            with_model_selection_up(state)
        } else if c == 'j' {
            with_model_selection_down(state)
        } else {
            state
        },
        KeyCode::Enter => if state.model_select_index < state.available_models.len() {
            let model = state.available_models[state.model_select_index];
            in_mode(
                with_message(
                    with_model(state, model),
                    fresh,
                    MessageRole::System,
                    "Model changed to: "@ + model,
                ),
                InputMode::Normal,
            )
        } else {
            state
        },
        _ => state,
    }
}

/// The state with the selection in the settings one entry up.
pub open spec fn with_settings_selection_up(state: AppStateView) -> AppStateView {
    AppStateView {
        settings_scroll_index: if state.settings_scroll_index > 0 {
            state.settings_scroll_index - 1
        } else {
            0
        },
        ..state
    }
}

/// The state with the selection in the settings one entry down.
pub open spec fn with_settings_selection_down(state: AppStateView) -> AppStateView {
    AppStateView {
        settings_scroll_index: if state.settings_scroll_index + 1 < state.current_settings.len() {
            state.settings_scroll_index + 1
        } else {
            state.settings_scroll_index
        },
        ..state
    }
}

/// The state after a key in the settings.
pub open spec fn settings_key(state: AppStateView, code: KeyCode) -> AppStateView {
    match code {
        KeyCode::Esc => in_mode(state, InputMode::Normal),
        KeyCode::Up => with_settings_selection_up(state),
        KeyCode::Down => with_settings_selection_down(state),
        KeyCode::Char(c) => if c == 'q' {
            in_mode(state, InputMode::Normal)
        } else if c == 'k' {
            with_settings_selection_up(state)
        } else if c == 'j' {
            with_settings_selection_down(state)
        } else {
            state
        },
        _ => state,
    }
}

/// What a key does, by the mode that the state is in. A message that the
/// key adds gets the identifier `fresh`.
pub open spec fn key_result(state: AppStateView, key: KeyEvent, fresh: Seq<char>) -> (
    AppStateView,
    KeyOutcomeView,
) {
    if !key.pressed {
        (state, nothing())
    } else {
        match state.input_mode {
            InputMode::Normal => normal_key(state, key.code),
            InputMode::Insert => insert_key(state, key, fresh),
            InputMode::ModelSelect => (model_select_key(state, key.code, fresh), nothing()),
            InputMode::Settings => (settings_key(state, key.code), nothing()),
        }
    }
}

fn no_outcome() -> (outcome: KeyOutcome)
    ensures
        outcome@ == nothing(),
{
    KeyOutcome { should_quit: false, scroll: None, send: None }
}

fn scroll_outcome(action: ScrollAction) -> (outcome: KeyOutcome)
    ensures
        outcome@ == scrolling(action),
{
    KeyOutcome { should_quit: false, scroll: Some(action), send: None }
}

/// Handles a key in normal mode.
pub fn handle_normal_mode(key: KeyEvent, state: &mut AppState) -> (outcome: KeyOutcome)
    ensures
        (final(state)@, outcome@) == normal_key(old(state)@, key.code),
{
    match key.code {
        KeyCode::Char(c) => {
            if c == 'q' {
                state.should_quit = true;
                KeyOutcome { should_quit: true, scroll: None, send: None }
            } else if c == 'k' {
                scroll_outcome(ScrollAction::Up)
            } else if c == 'j' {
                scroll_outcome(ScrollAction::Down)
            } else if c == 'g' {
                scroll_outcome(ScrollAction::ToTop)
            } else if c == 'G' {
                scroll_outcome(ScrollAction::ToBottom)
            } else if c == 'i' {
                state.input_mode = InputMode::Insert;
                no_outcome()
            } else if c == 'm' {
                state.input_mode = InputMode::ModelSelect;
                no_outcome()
            } else if c == 's' {
                state.input_mode = InputMode::Settings;
                no_outcome()
            } else {
                no_outcome()
            }
        },
        KeyCode::Up => scroll_outcome(ScrollAction::Up),
        KeyCode::Down => scroll_outcome(ScrollAction::Down),
        _ => no_outcome(),
    }
}

/// Whether `text[from..to]` is the text `other`.
fn range_is(text: &[char], from: usize, to: usize, other: &str) -> (same: bool)
    requires
        from <= to <= text@.len(),
    ensures
        same == (text@.subrange(from as int, to as int) == other@),
{
    let wanted = chars_of(other);
    let ghost range = text@.subrange(from as int, to as int);
    if to - from != wanted.len() {
        return false;
    }
    let same = starts_with(text, from, to, wanted.as_slice());
    assert(range.take(wanted@.len() as int) =~= range);
    same
}

/// Handles the enter key in insert mode.
fn handle_enter(state: &mut AppState) -> (outcome: KeyOutcome)
    ensures
        (final(state)@, outcome@) == entered(old(state)@, last_id(final(state)@)),
        old(state).cursor_is_valid() ==> final(state).cursor_is_valid(),
{
    let chars = chars_of(state.current_input.as_str());
    assert(chars@.subrange(0, chars@.len() as int) =~= chars@);
    let (start, end) = trim_bounds(chars.as_slice(), 0, chars.len());
    if start == end {
        return no_outcome();
    }
    proof {
        lemma_offsets_grow(Seq::<char>::empty(), 0, 0);
    }
    if range_is(chars.as_slice(), start, end, "/model") {
        state.input_mode = InputMode::ModelSelect;
        state.clear_input();
        return no_outcome();
    }
    if range_is(chars.as_slice(), start, end, "/settings") {
        state.input_mode = InputMode::Settings;
        state.clear_input();
        return no_outcome();
    }
    let text = state.current_input.clone();
    let _user_id = state.add_message(MessageRole::User, state.current_input.clone());
    state.enable_auto_scroll();
    state.clear_input();
    state.input_mode = InputMode::Normal;
    KeyOutcome { should_quit: false, scroll: Some(ScrollAction::ToBottom), send: Some(text) }
}

/// The key puts a character into the input line, for which the cursor has
/// to stand between characters.
pub open spec fn types_a_character(state: AppStateView, key: KeyEvent) -> bool {
    key.pressed && state.input_mode == InputMode::Insert && key.code is Char
}

/// Handles a key in insert mode.
pub fn handle_insert_mode(key: KeyEvent, state: &mut AppState) -> (outcome: KeyOutcome)
    requires
        key.code is Char ==> old(state).cursor_is_valid(),
    ensures
        (final(state)@, outcome@) == insert_key(old(state)@, key, last_id(final(state)@)),
        old(state).cursor_is_valid() ==> final(state).cursor_is_valid(),
{
    match key.code {
        KeyCode::Esc => {
            state.input_mode = InputMode::Normal;
            no_outcome()
        },
        KeyCode::Enter => handle_enter(state),
        KeyCode::Char(c) => {
            if c == 'n' && key.control {
                state.insert_char_at_cursor('\n');
            } else {
                state.insert_char_at_cursor(c);
            }
            no_outcome()
        },
        KeyCode::Backspace => {
            state.backspace_at_cursor();
            no_outcome()
        },
        KeyCode::Left => {
            state.move_cursor_left();
            no_outcome()
        },
        KeyCode::Right => {
            state.move_cursor_right();
            no_outcome()
        },
        _ => no_outcome(),
    }
}

/// Handles a key in the list of models. Says whether the program shall
/// end, which it never shall.
pub fn handle_model_select_mode(key: KeyEvent, state: &mut AppState) -> (should_quit: bool)
    ensures
        final(state)@ == model_select_key(old(state)@, key.code, last_id(final(state)@)),
        !should_quit,
{
    match key.code {
        KeyCode::Esc => {
            state.input_mode = InputMode::Normal;
        },
        KeyCode::Up => {
            state.move_model_selection_up();
        },
        KeyCode::Down => {
            state.move_model_selection_down();
        },
        KeyCode::Char(c) => {
            if c == 'k' {
                state.move_model_selection_up();
            } else if c == 'j' {
                state.move_model_selection_down();
            }
        },
        KeyCode::Enter => {
            if state.model_select_index < state.available_models.len() {
                let selected = state.available_models[state.model_select_index].clone();
                let mut text = String::from_str("Model changed to: ");
                text.append(selected.as_str());
                state.set_current_model(selected);
                state.add_message(MessageRole::System, text);
                state.input_mode = InputMode::Normal;
            }
        },
        _ => {},
    }
    false
}

/// Handles a key in the settings. Says whether the program shall end,
/// which it never shall.
pub fn handle_settings_mode(key: KeyEvent, state: &mut AppState) -> (should_quit: bool)
    ensures
        final(state)@ == settings_key(old(state)@, key.code),
        !should_quit,
{
    let max_items = state.current_settings.len();
    match key.code {
        KeyCode::Esc => {
            state.input_mode = InputMode::Normal;
        },
        KeyCode::Up => {
            state.move_settings_selection_up();
        },
        KeyCode::Down => {
            state.move_settings_selection_down(max_items);
        },
        KeyCode::Char(c) => {
            if c == 'q' {
                state.input_mode = InputMode::Normal;
            } else if c == 'k' {
                state.move_settings_selection_up();
            } else if c == 'j' {
                state.move_settings_selection_down(max_items);
            }
        },
        _ => {},
    }
    false
}

/// Handles a key by the mode that the state is in. Only a key that goes
/// down does anything.
pub fn handle_key_event(key: KeyEvent, state: &mut AppState) -> (outcome: KeyOutcome)
    requires
        types_a_character(old(state)@, key) ==> old(state).cursor_is_valid(),
    ensures
        (final(state)@, outcome@) == key_result(old(state)@, key, last_id(final(state)@)),
        old(state).cursor_is_valid() ==> final(state).cursor_is_valid(),
        at_most_one_streams(old(state)@.messages) ==> at_most_one_streams(final(state)@.messages),
{
    proof {
        lemma_keys_mark_no_message(old(state)@, key, last_id(final(state)@));
    }
    if !key.pressed {
        return no_outcome();
    }
    match state.input_mode {
        InputMode::Normal => handle_normal_mode(key, state),
        InputMode::Insert => handle_insert_mode(key, state),
        InputMode::ModelSelect => {
            let should_quit = handle_model_select_mode(key, state);
            KeyOutcome { should_quit, scroll: None, send: None }
        },
        InputMode::Settings => {
            let should_quit = handle_settings_mode(key, state);
            KeyOutcome { should_quit, scroll: None, send: None }
        },
    }
}

/// The state after a move of the view in a view of `display_width`
/// columns. A move by hand stops the view from following the transcript;
/// a jump to the end lets it follow again.
pub open spec fn state_after_scroll(
    state: AppStateView,
    action: ScrollAction,
    display_width: int,
) -> AppStateView {
    let lines = total_lines(state.messages, display_width);
    match action {
        ScrollAction::Up => AppStateView {
            auto_scroll_enabled: false,
            scroll_offset: if state.scroll_offset > 0 {
                state.scroll_offset - 1
            } else {
                0
            },
            ..state
        },
        ScrollAction::Down => AppStateView {
            auto_scroll_enabled: false,
            scroll_offset: scrolled_down(state.scroll_offset, lines),
            ..state
        },
        ScrollAction::ToTop => AppStateView {
            auto_scroll_enabled: false,
            scroll_offset: 0,
            ..state
        },
        ScrollAction::ToBottom => AppStateView {
            auto_scroll_enabled: true,
            scroll_offset: scrolled_to_bottom(state.scroll_offset, lines),
            ..state
        },
    }
}

/// Moves the view over the transcript as a key asked.
pub fn handle_scroll_action(state: &mut AppState, action: ScrollAction, display_width: usize)
    requires
        total_lines(old(state)@.messages, display_width as int) <= usize::MAX,
    ensures
        final(state)@ == state_after_scroll(old(state)@, action, display_width as int),
{
    match action {
        ScrollAction::Up => {
            state.disable_auto_scroll();
            state.scroll_up(display_width);
        },
        ScrollAction::Down => {
            state.disable_auto_scroll();
            state.scroll_down(display_width);
        },
        ScrollAction::ToTop => {
            state.disable_auto_scroll();
            state.scroll_to_top(display_width);
        },
        ScrollAction::ToBottom => {
            state.enable_auto_scroll();
            state.scroll_to_bottom(display_width);
        },
    }
}

/// The state with the view at the end of the transcript, if the view is
/// set to follow it.
pub open spec fn following(state: AppStateView, display_width: int) -> AppStateView {
    AppStateView {
        scroll_offset: if state.auto_scroll_enabled {
            scrolled_to_bottom(state.scroll_offset, total_lines(state.messages, display_width))
        } else {
            state.scroll_offset
        },
        ..state
    }
}

/// Applies an event of the worker to the view and lets the view follow
/// the transcript. Says whether the lines of the transcript could be
/// counted: if their number cannot be held, the view stays where it was.
pub fn apply_chat_event(
    app_state: &mut AppState,
    event: ChatEvent,
    display_width: usize,
) -> (counted: bool)
    ensures
        ({
            let applied = state_after_event(old(app_state)@, event@, last_id(final(app_state)@));
            &&& counted == (total_lines(applied.messages, display_width as int) <= usize::MAX)
            &&& final(app_state)@ == if counted {
                following(applied, display_width as int)
            } else {
                applied
            }
        }),
        at_most_one_streams(old(app_state)@.messages) ==> at_most_one_streams(
            final(app_state)@.messages,
        ),
{
    handle_chat_event(app_state, event);
    match app_state.checked_total_lines(display_width) {
        Some(_) => {
            app_state.auto_scroll_to_bottom(display_width);
            true
        },
        None => false,
    }
}

/// Handles a key and moves the view as the key asks. Gives what else the
/// key asks for, or nothing if the lines of the transcript could not be
/// counted for a move of the view: the view then stays where it was.
pub fn apply_key_event(key: KeyEvent, state: &mut AppState, display_width: usize) -> (outcome:
    Option<KeyOutcome>)
    requires
        types_a_character(old(state)@, key) ==> old(state).cursor_is_valid(),
    ensures
        old(state).cursor_is_valid() ==> final(state).cursor_is_valid(),
        at_most_one_streams(old(state)@.messages) ==> at_most_one_streams(final(state)@.messages),
        ({
            let handled = key_result(old(state)@, key, last_id(final(state)@));
            match handled.1.scroll {
                Some(action) => if total_lines(handled.0.messages, display_width as int)
                    <= usize::MAX {
                    &&& outcome matches Some(asked)
                    &&& asked@ == handled.1
                    &&& final(state)@ == state_after_scroll(handled.0, action, display_width as int)
                } else {
                    outcome is None && final(state)@ == handled.0
                },
                None => {
                    &&& outcome matches Some(asked)
                    &&& asked@ == handled.1
                    &&& final(state)@ == handled.0
                },
            }
        }),
{
    let outcome = handle_key_event(key, state);
    match outcome.scroll {
        Some(action) => match state.checked_total_lines(display_width) {
            Some(_) => {
                handle_scroll_action(state, action, display_width);
                Some(outcome)
            },
            None => None,
        },
        None => Some(outcome),
    }
}

/// At most one reply is being written at any time, and it is the one that
/// started last. An event keeps it so: if at most one message was being
/// written before, at most one is afterwards. A start leaves the new
/// message as the only one that is being written, whatever was before; a
/// failure leaves none; no other event marks a message that was not marked.
pub proof fn lemma_one_reply_is_written(state: AppStateView, event: ChatEventView, fresh: Seq<char>)
    ensures
        at_most_one_streams(state.messages) ==> at_most_one_streams(
            state_after_event(state, event, fresh).messages,
        ),
        event is StreamingStart ==> only_last_streams(
            state_after_event(state, event, fresh).messages,
        ),
        event is Error ==> none_streams(state_after_event(state, event, fresh).messages),
        event !is StreamingStart ==> forall|i: int|
            0 <= i < state_after_event(state, event, fresh).messages.len() && (
            #[trigger] state_after_event(state, event, fresh).messages[i]).is_streaming ==> i
                < state.messages.len() && state.messages[i].is_streaming,
{
    let after = state_after_event(state, event, fresh).messages;
    match event {
        ChatEventView::StreamingStart(_) => {
            assert(after.drop_last() =~= all_finished(state.messages));
        },
        _ => {},
    }
    if at_most_one_streams(state.messages) {
        assert forall|i: int, j: int|
            0 <= i < after.len() && 0 <= j < after.len() && (#[trigger] after[i]).is_streaming && (
            #[trigger] after[j]).is_streaming implies i == j by {
            match event {
                ChatEventView::StreamingStart(_) => {
                    if i < after.len() - 1 {
                        assert(after.drop_last()[i].is_streaming);
                    }
                    if j < after.len() - 1 {
                        assert(after.drop_last()[j].is_streaming);
                    }
                },
                _ => {
                    assert(state.messages[i].is_streaming);
                    assert(state.messages[j].is_streaming);
                },
            }
        }
    }
}

/// A key marks no message: if at most one message was being written
/// before it, at most one is afterwards.
pub proof fn lemma_keys_mark_no_message(state: AppStateView, key: KeyEvent, fresh: Seq<char>)
    ensures
        at_most_one_streams(state.messages) ==> at_most_one_streams(
            key_result(state, key, fresh).0.messages,
        ),
{
    let after = key_result(state, key, fresh).0.messages;
    if at_most_one_streams(state.messages) {
        assert forall|i: int, j: int|
            0 <= i < after.len() && 0 <= j < after.len() && (#[trigger] after[i]).is_streaming && (
            #[trigger] after[j]).is_streaming implies i == j by {
            assert(i < state.messages.len() && state.messages[i].is_streaming);
            assert(j < state.messages.len() && state.messages[j].is_streaming);
        }
    }
}

} // verus!
