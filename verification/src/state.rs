//! The state of the chat view: the transcript, the input line with its
//! cursor, the scroll position and the active mode.

use vstd::prelude::*;
use vstd::string::StringExecFns;
use crate::cursor::{
    chars_before, is_boundary, lemma_byte_len_insert, lemma_chars_before_end,
    lemma_chars_before_offset, lemma_offset_remove, lemma_offsets_grow,
    lemma_steps_stop_on_boundaries, locate, offset_left, offset_of, offset_right,
};
use crate::ids::fresh_id;
use crate::strings::{char_len, chars_of, string_of, utf8_len, views_of};
use crate::text::{count_lines, wrapped_text};
use crate::theme::{preset_theme, ChatTheme, ThemePreset};

verus! {

/// The identifier of a message.
pub type MessageId = String;

/// The text of a message.
pub type Content = String;

/// The reason of a failure.
pub type ErrorMessage = String;

/// What the keys do at the moment.
#[derive(Debug, Clone, Copy, PartialEq, Eq, Structural)]
pub enum InputMode {
    Normal,
    Insert,
    ModelSelect,
    Settings,
}

/// Who a message is from.
#[derive(Debug, Clone, Copy, PartialEq, Eq, Structural)]
pub enum MessageRole {
    User,
    Assistant,
    System,
}

/// The name under which a role is shown.
pub open spec fn role_name(role: MessageRole) -> Seq<char> {
    match role {
        MessageRole::User => seq!['Y', 'o', 'u'],
        MessageRole::Assistant => seq!['A', 'I'],
        MessageRole::System => seq!['S', 'y', 's', 't', 'e', 'm'],
    }
}

/// `n` spaces.
pub open spec fn spaces(n: int) -> Seq<char> {
    Seq::new(
        if n > 0 {
            n as nat
        } else {
            0
        },
        |i: int| ' ',
    )
}

/// What stands before a message of `role`: the role's name, moved to the
/// right end of a field of `width` characters, then a colon and a space.
pub open spec fn role_prefix(role: MessageRole, width: int) -> Seq<char> {
    spaces(width - role_name(role).len()) + role_name(role) + seq![':', ' ']
}

impl MessageRole {
    /// The name under which the role is shown.
    pub fn display_name(&self) -> (name: &'static str)
        ensures
            name@ == role_name(*self),
    {
        proof {
            reveal_strlit("You");
            reveal_strlit("AI");
            reveal_strlit("System");
        }
        match self {
            MessageRole::User => {
                assert("You"@ =~= role_name(*self));
                "You"
            },
            MessageRole::Assistant => {
                assert("AI"@ =~= role_name(*self));
                "AI"
            },
            MessageRole::System => {
                assert("System"@ =~= role_name(*self));
                "System"
            },
        }
    }

    /// What stands before a message of this role in the transcript.
    pub fn formatted_prefix(&self, max_width: usize) -> (prefix: String)
        ensures
            prefix@ == role_prefix(*self, max_width as int),
    {
        let name = chars_of(self.display_name());
        let mut prefix = String::new();
        let pad: usize = if max_width > name.len() {
            max_width - name.len()
        } else {
            0
        };
        let mut i: usize = 0;
        while i < pad
            invariant
                i <= pad,
                prefix@ == spaces(i as int),
            decreases pad - i,
        {
            prefix.push(' ');
            i = i + 1;
            assert(prefix@ =~= spaces(i as int));
        }
        assert(prefix@ =~= spaces(max_width - name@.len()));
        prefix.append(string_of(name.as_slice()).as_str());
        prefix.push(':');
        prefix.push(' ');
        assert(prefix@ =~= role_prefix(*self, max_width as int));
        prefix
    }
}

/// One message of the transcript.
#[derive(Debug, Clone)]
pub struct ChatMessage {
    pub id: MessageId,
    pub role: MessageRole,
    pub content: Content,
    pub is_streaming: bool,
}

/// One message of the transcript, as texts.
pub struct MessageView {
    pub id: Seq<char>,
    pub role: MessageRole,
    pub content: Seq<char>,
    pub is_streaming: bool,
}

impl View for ChatMessage {
    type V = MessageView;

    open spec fn view(&self) -> MessageView {
        MessageView {
            id: self.id@,
            role: self.role,
            content: self.content@,
            is_streaming: self.is_streaming,
        }
    }
}

impl ChatMessage {
    /// A finished message, under a fresh identifier.
    pub fn new(role: MessageRole, content: Content) -> (message: ChatMessage)
        ensures
            message@ == (MessageView {
                id: message.id@,
                role,
                content: content@,
                is_streaming: false,
            }),
    {
        ChatMessage { id: fresh_id(), role, content, is_streaming: false }
    }

    /// A message that is still being written, under a fresh identifier.
    pub fn new_streaming(role: MessageRole, initial_content: Content) -> (message: ChatMessage)
        ensures
            message@ == (MessageView {
                id: message.id@,
                role,
                content: initial_content@,
                is_streaming: true,
            }),
    {
        ChatMessage { id: fresh_id(), role, content: initial_content, is_streaming: true }
    }
}

/// The state that the chat screen is drawn from.
#[derive(Debug, Clone)]
pub struct AppState {
    pub messages: Vec<ChatMessage>,
    pub current_input: String,
    pub cursor_position: usize,
    pub should_quit: bool,
    pub scroll_offset: usize,
    pub input_mode: InputMode,
    pub theme: ChatTheme,
    pub auto_scroll_enabled: bool,
    pub current_model: String,
    pub available_models: Vec<String>,
    pub model_select_index: usize,
    pub current_settings: Vec<(String, String)>,
    pub settings_scroll_index: usize,
}

/// The state that the chat screen is drawn from, as texts and numbers.
pub struct AppStateView {
    pub messages: Seq<MessageView>,
    pub current_input: Seq<char>,
    pub cursor_position: int,
    pub should_quit: bool,
    pub scroll_offset: int,
    pub input_mode: InputMode,
    pub theme: ChatTheme,
    pub auto_scroll_enabled: bool,
    pub current_model: Seq<char>,
    pub available_models: Seq<Seq<char>>,
    pub model_select_index: int,
    pub current_settings: Seq<(Seq<char>, Seq<char>)>,
    pub settings_scroll_index: int,
}

/// The views of the messages of `messages`, in order.
pub open spec fn message_views(messages: Seq<ChatMessage>) -> Seq<MessageView> {
    messages.map_values(|m: ChatMessage| m@)
}

/// The views of the pairs of `settings`, in order.
pub open spec fn setting_views(settings: Seq<(String, String)>) -> Seq<(Seq<char>, Seq<char>)> {
    settings.map_values(|p: (String, String)| (p.0@, p.1@))
}

impl View for AppState {
    type V = AppStateView;

    open spec fn view(&self) -> AppStateView {
        AppStateView {
            messages: message_views(self.messages@),
            current_input: self.current_input@,
            cursor_position: self.cursor_position as int,
            should_quit: self.should_quit,
            scroll_offset: self.scroll_offset as int,
            input_mode: self.input_mode,
            theme: self.theme,
            auto_scroll_enabled: self.auto_scroll_enabled,
            current_model: self.current_model@,
            available_models: views_of(self.available_models@),
            model_select_index: self.model_select_index as int,
            current_settings: setting_views(self.current_settings@),
            settings_scroll_index: self.settings_scroll_index as int,
        }
    }
}

impl Default for AppState {
    fn default() -> (state: AppState)
        ensures
            state@ == initial_state(),
            state.cursor_is_valid(),
    {
        AppState::new()
    }
}

/// The model that is chosen at the start.
pub open spec fn default_model() -> Seq<char> {
    seq!['g', 'p', 't', '-', '5', '-', 'n', 'a', 'n', 'o']
}

/// The models that can be chosen, in the order in which they are listed.
pub open spec fn known_models() -> Seq<Seq<char>> {
    seq![
        seq!['g', 'p', 't', '-', '5'],
        seq!['g', 'p', 't', '-', '5', '-', 'm', 'i', 'n', 'i'],
        seq!['g', 'p', 't', '-', '5', '-', 'n', 'a', 'n', 'o'],
    ]
}

/// The state at the start of the program.
pub open spec fn initial_state() -> AppStateView {
    AppStateView {
        messages: Seq::empty(),
        current_input: Seq::empty(),
        cursor_position: 0,
        should_quit: false,
        scroll_offset: 0,
        input_mode: InputMode::Normal,
        theme: preset_theme(ThemePreset::Default),
        auto_scroll_enabled: true,
        current_model: default_model(),
        available_models: known_models(),
        model_select_index: 2,
        current_settings: Seq::empty(),
        settings_scroll_index: 0,
    }
}

/// Index of the first text of `texts` that equals `text`, or the number of
/// texts if none does.
pub open spec fn position_of(texts: Seq<Seq<char>>, text: Seq<char>) -> int
    decreases texts.len(),
{
    if texts.len() == 0 || texts[0] == text {
        0
    } else {
        1 + position_of(texts.drop_first(), text)
    }
}

proof fn lemma_position_of(texts: Seq<Seq<char>>, text: Seq<char>, n: int)
    requires
        0 <= n <= texts.len(),
        forall|i: int| 0 <= i < n ==> #[trigger] texts[i] != text,
        n < texts.len() ==> texts[n] == text,
    ensures
        position_of(texts, text) == n,
    decreases n,
{
    if n > 0 {
        let rest = texts.drop_first();
        assert forall|i: int| 0 <= i < n - 1 implies #[trigger] rest[i] != text by {
            assert(rest[i] == texts[i + 1]);
        }
        lemma_position_of(rest, text, n - 1);
    }
}

impl AppState {
    /// The state at the start of the program.
    pub fn new() -> (state: AppState)
        ensures
            state@ == initial_state(),
            state.cursor_is_valid(),
    {
        proof {
            reveal_strlit("gpt-5");
            reveal_strlit("gpt-5-mini");
            reveal_strlit("gpt-5-nano");
        }
        let mut available_models: Vec<String> = Vec::new();
        available_models.push(String::from_str("gpt-5"));
        available_models.push(String::from_str("gpt-5-mini"));
        available_models.push(String::from_str("gpt-5-nano"));
        let state = AppState {
            messages: Vec::new(),
            current_input: String::new(),
            cursor_position: 0,
            should_quit: false,
            scroll_offset: 0,
            input_mode: InputMode::Normal,
            theme: ChatTheme::from_preset(ThemePreset::Default),
            auto_scroll_enabled: true,
            current_model: String::from_str("gpt-5-nano"),
            available_models,
            model_select_index: 2,
            current_settings: Vec::new(),
            settings_scroll_index: 0,
        };
        proof {
            lemma_offsets_grow(state@.current_input, 0, 0);
        }
        assert(state@.messages =~= Seq::<MessageView>::empty());
        assert(state@.current_settings =~= Seq::<(Seq<char>, Seq<char>)>::empty());
        assert(state@.current_model =~= default_model());
        assert(state@.available_models =~= known_models()) by {
            assert(state@.available_models[0] =~= known_models()[0]);
            assert(state@.available_models[1] =~= known_models()[1]);
            assert(state@.available_models[2] =~= known_models()[2]);
        }
        state
    }

    /// Makes `model` the current model. If it is one of the models on
    /// offer, the selection moves to the first entry that names it.
    pub fn set_current_model(&mut self, model: String)
        ensures
            final(self)@ == (AppStateView {
                current_model: model@,
                model_select_index: if position_of(old(self)@.available_models, model@) < old(
                    self,
                )@.available_models.len() {
                    position_of(old(self)@.available_models, model@)
                } else {
                    old(self)@.model_select_index
                },
                ..old(self)@
            }),
    {
        let mut i: usize = 0;
        while i < self.available_models.len() && self.available_models[i] != model
            invariant
                i <= self.available_models@.len(),
                *self == *old(self),
                forall|j: int|
                    0 <= j < i ==> #[trigger] views_of(self.available_models@)[j] != model@,
            decreases self.available_models@.len() - i,
        {
            i = i + 1;
        }
        proof {
            lemma_position_of(views_of(self.available_models@), model@, i as int);
        }
        if i < self.available_models.len() {
            self.model_select_index = i;
        }
        self.current_model = model;
    }

    /// Moves the selection in the list of models up by one entry, unless it
    /// is at the first.
    pub fn move_model_selection_up(&mut self)
        ensures
            final(self)@ == (AppStateView {
                model_select_index: if old(self)@.model_select_index > 0 {
                    old(self)@.model_select_index - 1
                } else {
                    0
                },
                ..old(self)@
            }),
    {
        if self.model_select_index > 0 {
            self.model_select_index = self.model_select_index - 1;
        }
    }

    /// Moves the selection in the list of models down by one entry, unless
    /// it is at the last or beyond.
    pub fn move_model_selection_down(&mut self)
        ensures
            final(self)@ == (AppStateView {
                model_select_index: if old(self)@.model_select_index + 1 < old(
                    self,
                )@.available_models.len() {
                    old(self)@.model_select_index + 1
                } else {
                    old(self)@.model_select_index
                },
                ..old(self)@
            }),
    {
        let count = self.available_models.len();
        if count > 0 && self.model_select_index < count - 1 {
            self.model_select_index = self.model_select_index + 1;
        }
    }

    /// The model under the selection, if the selection is on an entry.
    pub fn get_selected_model(&self) -> (model: Option<&String>)
        ensures
            match model {
                Some(name) => self@.model_select_index < self@.available_models.len()
                    && name@ == self@.available_models[self@.model_select_index],
                None => self@.model_select_index >= self@.available_models.len(),
            },
    {
        if self.model_select_index < self.available_models.len() {
            Some(&self.available_models[self.model_select_index])
        } else {
            None
        }
    }

    /// Replaces the settings that the settings screen lists.
    pub fn update_settings(&mut self, settings: Vec<(String, String)>)
        ensures
            final(self)@ == (AppStateView {
                current_settings: setting_views(settings@),
                ..old(self)@
            }),
    {
        self.current_settings = settings;
    }

    /// Moves the selection in the settings up by one entry, unless it is at
    /// the first.
    pub fn move_settings_selection_up(&mut self)
        ensures
            final(self)@ == (AppStateView {
                settings_scroll_index: if old(self)@.settings_scroll_index > 0 {
                    old(self)@.settings_scroll_index - 1
                } else {
                    0
                },
                ..old(self)@
            }),
    {
        if self.settings_scroll_index > 0 {
            self.settings_scroll_index = self.settings_scroll_index - 1;
        }
    }

    /// Moves the selection in the settings down by one entry, unless it is
    /// at the last of `max_items` entries or beyond.
    pub fn move_settings_selection_down(&mut self, max_items: usize)
        ensures
            final(self)@ == (AppStateView {
                settings_scroll_index: if old(self)@.settings_scroll_index + 1 < max_items {
                    old(self)@.settings_scroll_index + 1
                } else {
                    old(self)@.settings_scroll_index
                },
                ..old(self)@
            }),
    {
        if max_items > 0 && self.settings_scroll_index < max_items - 1 {
            self.settings_scroll_index = self.settings_scroll_index + 1;
        }
    }

    /// Appends a finished message and returns its identifier.
    pub fn add_message(&mut self, role: MessageRole, content: Content) -> (id: MessageId)
        ensures
            final(self)@ == (AppStateView {
                messages: old(self)@.messages.push(
                    MessageView { id: id@, role, content: content@, is_streaming: false },
                ),
                ..old(self)@
            }),
    {
        let message = ChatMessage::new(role, content);
        let id = message.id.clone();
        proof {
            lemma_messages_push(self.messages@, message);
        }
        self.messages.push(message);
        id
    }

    /// Marks every message as finished.
    pub fn finish_streaming(&mut self)
        ensures
            final(self)@ == (AppStateView {
                messages: all_finished(old(self)@.messages),
                ..old(self)@
            }),
            none_streams(final(self)@.messages),
    {
        let mut i: usize = 0;
        while i < self.messages.len()
            invariant
                i <= self.messages@.len(),
                self.messages@.len() == old(self).messages@.len(),
                *self == (AppState { messages: self.messages, ..*old(self) }),
                forall|j: int|
                    0 <= j < i ==> (#[trigger] self.messages@[j])@ == finished(
                        old(self).messages@[j]@,
                    ),
                forall|j: int|
                    i <= j < self.messages@.len() ==> #[trigger] self.messages@[j] == old(
                        self,
                    ).messages@[j],
            decreases self.messages@.len() - i,
        {
            self.messages[i].is_streaming = false;
            i = i + 1;
        }
        assert(self@.messages =~= all_finished(old(self)@.messages));
    }

    /// Appends a message that is still being written and returns its
    /// identifier. What was being written before is finished first: only
    /// the new message is being written afterwards.
    pub fn start_streaming_message(&mut self, role: MessageRole, initial_content: Content) -> (id:
        MessageId)
        ensures
            final(self)@ == (AppStateView {
                messages: all_finished(old(self)@.messages).push(
                    MessageView { id: id@, role, content: initial_content@, is_streaming: true },
                ),
                ..old(self)@
            }),
            only_last_streams(final(self)@.messages),
    {
        self.finish_streaming();
        let message = ChatMessage::new_streaming(role, initial_content);
        let id = message.id.clone();
        proof {
            lemma_messages_push(self.messages@, message);
        }
        self.messages.push(message);
        id
    }

    /// Appends the message that greets the user at the start.
    pub fn add_start_message(&mut self) -> (id: MessageId)
        ensures
            final(self)@ == (AppStateView {
                messages: old(self)@.messages.push(
                    MessageView {
                        id: id@,
                        role: MessageRole::System,
                        content: "Chat Terminal Started. Type 'i' to enter insert mode and start chatting!"@,
                        is_streaming: false,
                    },
                ),
                ..old(self)@
            }),
    {
        self.add_message(
            MessageRole::System,
            String::from_str(
                "Chat Terminal Started. Type 'i' to enter insert mode and start chatting!",
            ),
        )
    }

    /// Stops the view from following the transcript's end.
    pub fn disable_auto_scroll(&mut self)
        ensures
            final(self)@ == (AppStateView { auto_scroll_enabled: false, ..old(self)@ }),
    {
        self.auto_scroll_enabled = false;
    }

    /// Lets the view follow the transcript's end again.
    pub fn enable_auto_scroll(&mut self)
        ensures
            final(self)@ == (AppStateView { auto_scroll_enabled: true, ..old(self)@ }),
    {
        self.auto_scroll_enabled = true;
    }

    /// Empties the input line and puts the cursor at its start.
    pub fn clear_input(&mut self)
        ensures
            final(self)@ == (AppStateView {
                current_input: Seq::empty(),
                cursor_position: 0,
                ..old(self)@
            }),
            final(self).cursor_is_valid(),
    {
        self.current_input = String::new();
        self.cursor_position = 0;
        proof {
            lemma_offsets_grow(self@.current_input, 0, 0);
        }
    }
}

/// A message, marked as finished.
pub open spec fn finished(message: MessageView) -> MessageView {
    MessageView { is_streaming: false, ..message }
}

/// The messages of `messages`, each marked as finished.
pub open spec fn all_finished(messages: Seq<MessageView>) -> Seq<MessageView> {
    messages.map_values(|m: MessageView| finished(m))
}

/// No message is being written.
pub open spec fn none_streams(messages: Seq<MessageView>) -> bool {
    forall|i: int| 0 <= i < messages.len() ==> !(#[trigger] messages[i]).is_streaming
}

/// At most one message is being written.
pub open spec fn at_most_one_streams(messages: Seq<MessageView>) -> bool {
    forall|i: int, j: int|
        0 <= i < messages.len() && 0 <= j < messages.len() && (#[trigger] messages[i]).is_streaming
            && (#[trigger] messages[j]).is_streaming ==> i == j
}

/// The last message is being written, and no other.
pub open spec fn only_last_streams(messages: Seq<MessageView>) -> bool {
    &&& messages.len() > 0
    &&& messages.last().is_streaming
    &&& none_streams(messages.drop_last())
}

/// Where no message is being written, marking all as finished changes
/// nothing.
pub proof fn lemma_finished_already(messages: Seq<MessageView>)
    requires
        none_streams(messages),
    ensures
        all_finished(messages) == messages,
{
    assert(all_finished(messages) =~= messages);
}

/// Index of the first message with identifier `id`, or the number of
/// messages if there is none.
pub open spec fn message_position(messages: Seq<MessageView>, id: Seq<char>) -> int
    decreases messages.len(),
{
    if messages.len() == 0 || messages[0].id == id {
        0
    } else {
        1 + message_position(messages.drop_first(), id)
    }
}

proof fn lemma_message_position(messages: Seq<MessageView>, id: Seq<char>, n: int)
    requires
        0 <= n <= messages.len(),
        forall|i: int| 0 <= i < n ==> (#[trigger] messages[i]).id != id,
        n < messages.len() ==> messages[n].id == id,
    ensures
        message_position(messages, id) == n,
    decreases n,
{
    if n > 0 {
        let rest = messages.drop_first();
        assert forall|i: int| 0 <= i < n - 1 implies (#[trigger] rest[i]).id != id by {
            assert(rest[i] == messages[i + 1]);
        }
        lemma_message_position(rest, id, n - 1);
    }
}

/// The widest of the names under which roles are shown, in characters.
pub open spec fn widest_role_name() -> int {
    6
}

/// Columns left for the text of a message in a view of `display_width`
/// columns, once the prefix and its two characters are taken off.
pub open spec fn text_width(display_width: int) -> int {
    if display_width > widest_role_name() + 2 {
        display_width - (widest_role_name() + 2)
    } else {
        0
    }
}

/// Number of lines that the transcript takes in a view of `display_width`
/// columns.
pub open spec fn total_lines(messages: Seq<MessageView>, display_width: int) -> int
    decreases messages.len(),
{
    if messages.len() == 0 {
        0
    } else {
        total_lines(messages.drop_last(), display_width) + wrapped_text(
            messages.last().content,
            text_width(display_width),
        ).len()
    }
}

/// The first messages of a transcript take no more lines than all of it.
pub proof fn lemma_total_lines_grow(messages: Seq<MessageView>, display_width: int, n: int)
    requires
        0 <= n <= messages.len(),
    ensures
        0 <= total_lines(messages.take(n), display_width) <= total_lines(messages, display_width),
    decreases messages.len() - n,
{
    if n == messages.len() {
        assert(messages.take(n) =~= messages);
        lemma_total_lines_nonnegative(messages, display_width);
    } else {
        lemma_total_lines_grow(messages, display_width, n + 1);
        assert(messages.take(n + 1).drop_last() =~= messages.take(n));
        lemma_total_lines_nonnegative(messages.take(n), display_width);
    }
}

proof fn lemma_total_lines_nonnegative(messages: Seq<MessageView>, display_width: int)
    ensures
        0 <= total_lines(messages, display_width),
    decreases messages.len(),
{
    if messages.len() > 0 {
        lemma_total_lines_nonnegative(messages.drop_last(), display_width);
    }
}

/// Where the view stands after a step down: one line further, unless it
/// is at the last line or beyond.
pub open spec fn scrolled_down(offset: int, lines: int) -> int {
    if offset + 1 < lines {
        offset + 1
    } else {
        offset
    }
}

/// Where the view stands after a jump to the end: at the last line, or
/// where it was if there is no line.
pub open spec fn scrolled_to_bottom(offset: int, lines: int) -> int {
    if lines > 0 {
        lines - 1
    } else {
        offset
    }
}

impl AppState {
    /// The first message with the identifier `id`, to be changed in place.
    pub fn find_message_mut(&mut self, id: &MessageId) -> (found: Option<&mut ChatMessage>)
        ensures
            ({
                let at = message_position(old(self)@.messages, id@);
                match found {
                    Some(message) => {
                        &&& at < old(self).messages@.len()
                        &&& *message == old(self).messages@[at]
                        &&& *final(self) == (AppState {
                            messages: final(self).messages,
                            ..*old(self)
                        })
                        &&& final(self).messages@ == old(self).messages@.update(at, *final(message))
                    },
                    None => at == old(self).messages@.len() && *final(self) == *old(self),
                }
            }),
    {
        let at = self.message_index(id);
        if at < self.messages.len() {
            Some(&mut self.messages[at])
        } else {
            None
        }
    }

    /// Index of the first message with the identifier `id`, or the number
    /// of messages if there is none.
    pub fn message_index(&self, id: &MessageId) -> (at: usize)
        ensures
            at == message_position(self@.messages, id@),
            at <= self.messages@.len(),
    {
        let mut at: usize = 0;
        while at < self.messages.len() && self.messages[at].id != *id
            invariant
                at <= self.messages@.len(),
                forall|j: int| 0 <= j < at ==> (#[trigger] self@.messages[j]).id != id@,
            decreases self.messages@.len() - at,
        {
            at = at + 1;
        }
        proof {
            lemma_message_position(self@.messages, id@, at as int);
        }
        at
    }

    /// Appends `content` to the first message with the identifier
    /// `message_id`. Says whether there is such a message.
    pub fn append_to_message(&mut self, message_id: &MessageId, content: &Content) -> (found: bool)
        ensures
            ({
                let at = message_position(old(self)@.messages, message_id@);
                let before = old(self)@.messages;
                &&& found == (at < before.len())
                &&& found ==> final(self)@ == (AppStateView {
                    messages: before.update(
                        at,
                        MessageView { content: before[at].content + content@, ..before[at] },
                    ),
                    ..old(self)@
                })
                &&& !found ==> final(self)@ == old(self)@
            }),
    {
        let at = self.message_index(message_id);
        if at < self.messages.len() {
            self.messages[at].content.append(content.as_str());
            assert(final(self)@.messages =~= old(self)@.messages.update(
                at as int,
                MessageView {
                    content: old(self)@.messages[at as int].content + content@,
                    ..old(self)@.messages[at as int]
                },
            ));
            true
        } else {
            false
        }
    }

    /// Marks the first message with the identifier `message_id` as
    /// finished. Says whether there is such a message.
    pub fn finish_streaming_message(&mut self, message_id: &MessageId) -> (found: bool)
        ensures
            ({
                let at = message_position(old(self)@.messages, message_id@);
                let before = old(self)@.messages;
                &&& found == (at < before.len())
                &&& found ==> final(self)@ == (AppStateView {
                    messages: before.update(at, MessageView { is_streaming: false, ..before[at] }),
                    ..old(self)@
                })
                &&& !found ==> final(self)@ == old(self)@
            }),
    {
        let at = self.message_index(message_id);
        if at < self.messages.len() {
            self.messages[at].is_streaming = false;
            assert(final(self)@.messages =~= old(self)@.messages.update(
                at as int,
                MessageView { is_streaming: false, ..old(self)@.messages[at as int] },
            ));
            true
        } else {
            false
        }
    }

    /// The widest of the names under which roles are shown, in characters.
    pub fn max_prefix_width(&self) -> (width: usize)
        ensures
            width == widest_role_name(),
            forall|role: MessageRole| role_name(role).len() <= width,
            exists|role: MessageRole| role_name(role).len() == width,
    {
        assert(role_name(MessageRole::System).len() == 6);
        let mut width: usize = 0;
        let user = chars_of(MessageRole::User.display_name()).len();
        let assistant = chars_of(MessageRole::Assistant.display_name()).len();
        let system = chars_of(MessageRole::System.display_name()).len();
        if user > width {
            width = user;
        }
        if assistant > width {
            width = assistant;
        }
        if system > width {
            width = system;
        }
        width
    }

    /// Number of lines that the transcript takes in a view of
    /// `display_width` columns, if that number can be held.
    pub fn checked_total_lines(&self, display_width: usize) -> (lines: Option<usize>)
        ensures
            match lines {
                Some(n) => n == total_lines(self@.messages, display_width as int),
                None => total_lines(self@.messages, display_width as int) > usize::MAX,
            },
    {
        let prefix = self.max_prefix_width();
        let width: usize = if display_width > prefix + 2 {
            display_width - (prefix + 2)
        } else {
            0
        };
        let mut lines: usize = 0;
        let mut i: usize = 0;
        assert(self@.messages.take(0) =~= Seq::<MessageView>::empty());
        while i < self.messages.len()
            invariant
                i <= self.messages@.len(),
                width == text_width(display_width as int),
                lines == total_lines(self@.messages.take(i as int), display_width as int),
            decreases self.messages@.len() - i,
        {
            proof {
                assert(self@.messages.take(i + 1).drop_last() =~= self@.messages.take(i as int));
                lemma_total_lines_grow(self@.messages, display_width as int, i + 1);
            }
            let chars = chars_of(self.messages[i].content.as_str());
            match count_lines(chars.as_slice(), width, usize::MAX - lines) {
                Some(more) => {
                    lines = lines + more;
                },
                None => {
                    return None;
                },
            }
            i = i + 1;
        }
        assert(self@.messages.take(self@.messages.len() as int) =~= self@.messages);
        Some(lines)
    }

    /// Number of lines that the transcript takes in a view of
    /// `display_width` columns.
    pub fn get_total_lines(&self, display_width: usize) -> (lines: usize)
        requires
            total_lines(self@.messages, display_width as int) <= usize::MAX,
        ensures
            lines == total_lines(self@.messages, display_width as int),
    {
        match self.checked_total_lines(display_width) {
            Some(lines) => lines,
            // The number can be held: this arm is never taken.
            None => usize::MAX,
        }
    }

    /// Follows the transcript to its last line, if the view is set to
    /// follow it.
    pub fn auto_scroll_to_bottom(&mut self, display_width: usize)
        requires
            total_lines(old(self)@.messages, display_width as int) <= usize::MAX,
        ensures
            final(self)@ == (AppStateView {
                scroll_offset: if old(self)@.auto_scroll_enabled {
                    scrolled_to_bottom(
                        old(self)@.scroll_offset,
                        total_lines(old(self)@.messages, display_width as int),
                    )
                } else {
                    old(self)@.scroll_offset
                },
                ..old(self)@
            }),
    {
        if self.auto_scroll_enabled {
            let lines = self.get_total_lines(display_width);
            if lines > 0 {
                self.scroll_offset = lines - 1;
            }
        }
    }

    /// Moves the view up by one line, unless it is at the first.
    pub fn scroll_up(&mut self, _display_width: usize)
        ensures
            final(self)@ == (AppStateView {
                scroll_offset: if old(self)@.scroll_offset > 0 {
                    old(self)@.scroll_offset - 1
                } else {
                    0
                },
                ..old(self)@
            }),
    {
        if self.scroll_offset > 0 {
            self.scroll_offset = self.scroll_offset - 1;
        }
    }

    /// Moves the view down by one line, unless it is at the last line of
    /// the transcript or beyond.
    pub fn scroll_down(&mut self, display_width: usize)
        requires
            total_lines(old(self)@.messages, display_width as int) <= usize::MAX,
        ensures
            final(self)@ == (AppStateView {
                scroll_offset: scrolled_down(
                    old(self)@.scroll_offset,
                    total_lines(old(self)@.messages, display_width as int),
                ),
                ..old(self)@
            }),
    {
        let lines = self.get_total_lines(display_width);
        if lines > 0 && self.scroll_offset < lines - 1 {
            self.scroll_offset = self.scroll_offset + 1;
        }
    }

    /// Moves the view to the first line.
    pub fn scroll_to_top(&mut self, _display_width: usize)
        ensures
            final(self)@ == (AppStateView { scroll_offset: 0, ..old(self)@ }),
    {
        self.scroll_offset = 0;
    }

    /// Moves the view to the last line of the transcript, if it has one.
    pub fn scroll_to_bottom(&mut self, display_width: usize)
        requires
            total_lines(old(self)@.messages, display_width as int) <= usize::MAX,
        ensures
            final(self)@ == (AppStateView {
                scroll_offset: scrolled_to_bottom(
                    old(self)@.scroll_offset,
                    total_lines(old(self)@.messages, display_width as int),
                ),
                ..old(self)@
            }),
    {
        let lines = self.get_total_lines(display_width);
        if lines > 0 {
            self.scroll_offset = lines - 1;
        }
    }

    /// The messages from the one at the scroll offset on, `visible_height`
    /// of them at most.
    pub fn get_visible_messages(&self, visible_height: usize) -> (visible: Vec<&ChatMessage>)
        requires
            self.scroll_offset <= self.messages@.len(),
            self.scroll_offset + visible_height <= usize::MAX,
        ensures
            visible@.len() == if self.scroll_offset + visible_height < self.messages@.len() {
                visible_height as int
            } else {
                self.messages@.len() - self.scroll_offset
            },
            forall|i: int|
                0 <= i < visible@.len() ==> *(#[trigger] visible@[i]) == self.messages@[
                    self.scroll_offset + i
                ],
    {
        let start = self.scroll_offset;
        let end = if start + visible_height < self.messages.len() {
            start + visible_height
        } else {
            self.messages.len()
        };
        let mut visible: Vec<&ChatMessage> = Vec::new();
        let mut i: usize = start;
        while i < end
            invariant
                start <= i <= end <= self.messages@.len(),
                visible@.len() == i - start,
                forall|j: int|
                    0 <= j < visible@.len() ==> *(#[trigger] visible@[j]) == self.messages@[start
                        + j],
            decreases end - i,
        {
            visible.push(&self.messages[i]);
            i = i + 1;
        }
        visible
    }
}

impl AppState {
    /// The cursor stands between two characters of the input line, or at
    /// one of its ends.
    pub open spec fn cursor_is_valid(&self) -> bool {
        is_boundary(self@.current_input, self@.cursor_position)
    }

    /// Whether the cursor stands between two characters of the input line,
    /// or at one of its ends.
    pub fn has_valid_cursor(&self) -> (valid: bool)
        ensures
            valid == self.cursor_is_valid(),
    {
        let bytes = self.current_input.as_str().as_bytes().len();
        let chars = chars_of(self.current_input.as_str());
        let found = locate(chars.as_slice(), self.cursor_position);
        proof {
            if self.cursor_is_valid() {
                let k = choose|k: int|
                    0 <= k <= chars@.len() && offset_of(chars@, k) == self.cursor_position;
                lemma_chars_before_offset(chars@, k);
            }
        }
        found.next_start == self.cursor_position
    }

    /// Moves the cursor to the start of the character before it. At the
    /// start of the line it stays.
    pub fn move_cursor_left(&mut self)
        ensures
            final(self)@ == (AppStateView {
                cursor_position: offset_left(old(self)@.current_input, old(self)@.cursor_position),
                ..old(self)@
            }),
            old(self).cursor_is_valid() ==> final(self).cursor_is_valid(),
    {
        proof {
            lemma_steps_stop_on_boundaries(self@.current_input, self@.cursor_position);
        }
        if self.cursor_position > 0 {
            let bytes = self.current_input.as_str().as_bytes().len();
            let chars = chars_of(self.current_input.as_str());
            let found = locate(chars.as_slice(), self.cursor_position);
            if found.count > 0 {
                self.cursor_position = found.last_start;
            }
        }
    }

    /// Moves the cursor to the start of the character after the one it
    /// stands at, or to the end of the line if there is none.
    pub fn move_cursor_right(&mut self)
        ensures
            final(self)@ == (AppStateView {
                cursor_position: offset_right(old(self)@.current_input, old(self)@.cursor_position),
                ..old(self)@
            }),
            final(self).cursor_is_valid(),
    {
        proof {
            lemma_steps_stop_on_boundaries(self@.current_input, self@.cursor_position);
        }
        let bytes = self.current_input.as_str().as_bytes().len();
        if self.cursor_position >= bytes {
            proof {
                lemma_chars_before_end(self@.current_input, self@.cursor_position + 1);
                lemma_offsets_grow(self@.current_input, 0, self@.current_input.len() as int);
            }
            self.cursor_position = bytes;
        } else {
            let chars = chars_of(self.current_input.as_str());
            let found = locate(chars.as_slice(), self.cursor_position + 1);
            self.cursor_position = found.next_start;
        }
    }

    /// Puts `ch` into the input line where the cursor stands, and the
    /// cursor behind it.
    pub fn insert_char_at_cursor(&mut self, ch: char)
        requires
            old(self).cursor_is_valid(),
        ensures
            final(self)@ == (AppStateView {
                current_input: old(self)@.current_input.insert(
                    chars_before(old(self)@.current_input, old(self)@.cursor_position),
                    ch,
                ),
                cursor_position: old(self)@.cursor_position + char_len(ch),
                ..old(self)@
            }),
            final(self).cursor_is_valid(),
    {
        let ghost before = self@.current_input;
        let mut chars = chars_of(self.current_input.as_str());
        proof {
            let k = choose|k: int|
                0 <= k <= before.len() && offset_of(before, k) == self.cursor_position;
            lemma_chars_before_offset(before, k);
            lemma_byte_len_insert(before, k, ch);
            lemma_offsets_grow(before.insert(k, ch), k + 1, before.len() as int + 1);
        }
        let bytes = self.current_input.as_str().as_bytes().len();
        let found = locate(chars.as_slice(), self.cursor_position);
        chars.insert(found.count, ch);
        let text = string_of(chars.as_slice());
        let longer = text.as_str().as_bytes().len();
        self.current_input = text;
        self.cursor_position = self.cursor_position + utf8_len(ch);
    }

    /// Takes the character before the cursor out of the input line, and
    /// puts the cursor where it started. At the start of the line nothing
    /// changes.
    pub fn backspace_at_cursor(&mut self)
        ensures
            ({
                let before = old(self)@.current_input;
                let n = chars_before(before, old(self)@.cursor_position);
                if n > 0 {
                    final(self)@ == (AppStateView {
                        current_input: before.remove(n - 1),
                        cursor_position: offset_of(before, n - 1),
                        ..old(self)@
                    })
                } else {
                    final(self)@ == old(self)@
                }
            }),
            chars_before(old(self)@.current_input, old(self)@.cursor_position) > 0
                || old(self).cursor_is_valid() ==> final(self).cursor_is_valid(),
    {
        if self.cursor_position > 0 {
            let ghost before = self@.current_input;
            let bytes = self.current_input.as_str().as_bytes().len();
            let mut chars = chars_of(self.current_input.as_str());
            let found = locate(chars.as_slice(), self.cursor_position);
            if found.count > 0 {
                proof {
                    lemma_offset_remove(before, found.count - 1);
                }
                chars.remove(found.count - 1);
                self.current_input = string_of(chars.as_slice());
                self.cursor_position = found.last_start;
            }
        }
    }
}

/// Pushing a message pushes its view.
pub proof fn lemma_messages_push(messages: Seq<ChatMessage>, message: ChatMessage)
    ensures
        message_views(messages.push(message)) == message_views(messages).push(message@),
{
    assert(message_views(messages.push(message)) =~= message_views(messages).push(message@));
}

} // verus!
