//! The conversation as it is sent to the model: the system prompts, which
//! stay, and a window of the latest turns.

use vstd::prelude::*;
use vstd::string::StringExecFns;

verus! {

/// One turn of the conversation.
#[derive(Debug, Clone)]
pub struct Message {
    pub role: String,
    pub content: String,
}

/// One turn of the conversation, as texts.
pub struct TurnView {
    pub role: Seq<char>,
    pub content: Seq<char>,
}

impl View for Message {
    type V = TurnView;

    open spec fn view(&self) -> TurnView {
        TurnView { role: self.role@, content: self.content@ }
    }
}

/// The views of the turns of `turns`, in order.
pub open spec fn turn_views(turns: Seq<Message>) -> Seq<TurnView> {
    turns.map_values(|m: Message| m@)
}

/// The conversation with a model, and what a request to it needs.
pub struct ChatCompletion {
    api_key: String,
    model: String,
    log_size: u32,
    system_messages: Vec<Message>,
    chat_messages: Vec<Message>,
}

/// The conversation with a model, as texts.
pub struct ChatCompletionView {
    pub api_key: Seq<char>,
    pub model: Seq<char>,
    pub log_size: int,
    pub system_messages: Seq<TurnView>,
    pub chat_messages: Seq<TurnView>,
}

impl View for ChatCompletion {
    type V = ChatCompletionView;

    closed spec fn view(&self) -> ChatCompletionView {
        ChatCompletionView {
            api_key: self.api_key@,
            model: self.model@,
            log_size: self.log_size as int,
            system_messages: turn_views(self.system_messages@),
            chat_messages: turn_views(self.chat_messages@),
        }
    }
}

/// The last `count` turns of `turns`, or all of them if there are no more.
pub open spec fn last_turns(turns: Seq<TurnView>, count: int) -> Seq<TurnView> {
    if 0 <= count < turns.len() {
        turns.skip(turns.len() - count)
    } else {
        turns
    }
}

/// The window of turns after one more turn: the new turn is added, and the
/// oldest turns leave until no more than `log_size` are held. A window that
/// is full lets its oldest turn go for the new one. A window of size zero
/// holds no turn: what is added to it is not kept.
pub open spec fn window_after(window: Seq<TurnView>, log_size: int, turn: TurnView) -> Seq<
    TurnView,
> {
    last_turns(window.push(turn), log_size)
}

/// What is sent to the model: the system prompts, then the window.
pub open spec fn sent_messages(history: ChatCompletionView) -> Seq<TurnView> {
    history.system_messages + history.chat_messages
}

/// Pushing a turn pushes its view.
pub proof fn lemma_turns_push(turns: Seq<Message>, turn: Message)
    ensures
        turn_views(turns.push(turn)) == turn_views(turns).push(turn@),
{
    assert(turn_views(turns.push(turn)) =~= turn_views(turns).push(turn@));
}

fn copy_of(message: &Message) -> (copy: Message)
    ensures
        copy@ == message@,
{
    Message { role: message.role.clone(), content: message.content.clone() }
}

impl ChatCompletion {
    /// An empty conversation with the model that `env_model` names, or
    /// with `gpt-5-nano` if it names none, and a window of thirty turns.
    pub fn new(api_key: String, env_model: Option<String>) -> (history: ChatCompletion)
        ensures
            history@ == (ChatCompletionView {
                api_key: api_key@,
                model: match env_model {
                    Some(name) => name@,
                    None => "gpt-5-nano"@,
                },
                log_size: 30,
                system_messages: Seq::empty(),
                chat_messages: Seq::empty(),
            }),
    {
        let model = match env_model {
            Some(name) => name,
            None => String::from_str("gpt-5-nano"),
        };
        let history = ChatCompletion {
            api_key,
            model,
            log_size: 30,
            system_messages: Vec::new(),
            chat_messages: Vec::new(),
        };
        assert(history@.system_messages =~= Seq::<TurnView>::empty());
        assert(history@.chat_messages =~= Seq::<TurnView>::empty());
        history
    }

    /// Adds a system prompt. System prompts never leave the conversation.
    pub fn push_system_message(&mut self, prompt: &str)
        ensures
            final(self)@ == (ChatCompletionView {
                system_messages: old(self)@.system_messages.push(
                    TurnView { role: "system"@, content: prompt@ },
                ),
                ..old(self)@
            }),
    {
        let message = Message {
            role: String::from_str("system"),
            content: String::from_str(prompt),
        };
        proof {
            lemma_turns_push(self.system_messages@, message);
        }
        self.system_messages.push(message);
    }

    fn push_chat_message(&mut self, role: &str, input: &str)
        ensures
            final(self)@ == (ChatCompletionView {
                chat_messages: window_after(
                    old(self)@.chat_messages,
                    old(self)@.log_size,
                    TurnView { role: role@, content: input@ },
                ),
                ..old(self)@
            }),
            final(self)@.chat_messages.len() <= final(self)@.log_size,
    {
        let size = self.log_size as usize;
        let ghost before = turn_views(self.chat_messages@);
        let ghost turn = TurnView { role: role@, content: input@ };
        if size == 0 {
            self.chat_messages = Vec::new();
            assert(turn_views(self.chat_messages@) =~= window_after(before, 0, turn));
            return ;
        }
        let held = self.chat_messages.len();
        if held >= size {
            let kept = self.chat_messages.split_off(held - size + 1);
            self.chat_messages = kept;
            assert(turn_views(self.chat_messages@) =~= before.skip(held - size + 1));
        }
        let message = Message { role: String::from_str(role), content: String::from_str(input) };
        proof {
            lemma_turns_push(self.chat_messages@, message);
        }
        self.chat_messages.push(message);
        assert(turn_views(self.chat_messages@) =~= window_after(before, size as int, turn));
    }

    /// Adds a turn of the user to the window.
    pub fn push_user_message(&mut self, input: &str)
        ensures
            final(self)@ == (ChatCompletionView {
                chat_messages: window_after(
                    old(self)@.chat_messages,
                    old(self)@.log_size,
                    TurnView { role: "user"@, content: input@ },
                ),
                ..old(self)@
            }),
            final(self)@.chat_messages.len() <= final(self)@.log_size,
    {
        self.push_chat_message("user", input);
    }

    /// Adds a turn of the assistant to the window.
    pub fn push_assistant_message(&mut self, input: &str)
        ensures
            final(self)@ == (ChatCompletionView {
                chat_messages: window_after(
                    old(self)@.chat_messages,
                    old(self)@.log_size,
                    TurnView { role: "assistant"@, content: input@ },
                ),
                ..old(self)@
            }),
            final(self)@.chat_messages.len() <= final(self)@.log_size,
    {
        self.push_chat_message("assistant", input);
    }

    /// What is sent to the model: the system prompts, then the window.
    pub fn messages(&self) -> (all: Vec<Message>)
        ensures
            turn_views(all@) == sent_messages(self@),
    {
        let mut all: Vec<Message> = Vec::new();
        let mut i: usize = 0;
        while i < self.system_messages.len()
            invariant
                i <= self.system_messages@.len(),
                turn_views(all@) == turn_views(self.system_messages@).take(i as int),
            decreases self.system_messages@.len() - i,
        {
            let copy = copy_of(&self.system_messages[i]);
            proof {
                lemma_turns_push(all@, copy);
                let system = turn_views(self.system_messages@);
                assert(system.take(i + 1) =~= system.take(i as int).push(system[i as int]));
            }
            all.push(copy);
            i = i + 1;
        }
        assert(turn_views(self.system_messages@).take(i as int) =~= turn_views(
            self.system_messages@,
        ) + turn_views(self.chat_messages@).take(0));
        let mut j: usize = 0;
        while j < self.chat_messages.len()
            invariant
                j <= self.chat_messages@.len(),
                turn_views(all@) == turn_views(self.system_messages@) + turn_views(
                    self.chat_messages@,
                ).take(j as int),
            decreases self.chat_messages@.len() - j,
        {
            let copy = copy_of(&self.chat_messages[j]);
            proof {
                lemma_turns_push(all@, copy);
                let system = turn_views(self.system_messages@);
                let window = turn_views(self.chat_messages@);
                assert(system + window.take(j + 1) =~= (system + window.take(j as int)).push(
                    window[j as int],
                ));
            }
            all.push(copy);
            j = j + 1;
        }
        assert(turn_views(self.chat_messages@).take(j as int) =~= turn_views(self.chat_messages@));
        all
    }

    /// Sets the key that requests are sent under.
    pub fn api_key(&mut self, api_key: &str) -> (this: &mut Self)
        ensures
            this@ == (ChatCompletionView { api_key: api_key@, ..old(self)@ }),
            *final(self) == *final(this),
    {
        self.api_key = String::from_str(api_key);
        self
    }

    /// Sets the model that requests go to.
    pub fn model(&mut self, model_name: &str) -> (this: &mut Self)
        ensures
            this@ == (ChatCompletionView { model: model_name@, ..old(self)@ }),
            *final(self) == *final(this),
    {
        self.model = String::from_str(model_name);
        self
    }

    /// Sets the size of the window. If the window holds more turns than
    /// that, the oldest leave at once.
    pub fn log_size(&mut self, size: u32) -> (this: &mut Self)
        ensures
            this@ == (ChatCompletionView {
                log_size: size as int,
                chat_messages: last_turns(old(self)@.chat_messages, size as int),
                ..old(self)@
            }),
            this@.chat_messages.len() <= this@.log_size,
            *final(self) == *final(this),
    {
        let keep = size as usize;
        let held = self.chat_messages.len();
        if held > keep {
            let kept = self.chat_messages.split_off(held - keep);
            self.chat_messages = kept;
            assert(turn_views(self.chat_messages@) =~= old(self)@.chat_messages.skip(
                held - keep,
            ));
        }
        self.log_size = size;
        self
    }

    /// The key that requests are sent under.
    pub fn current_api_key(&self) -> (key: &str)
        ensures
            key@ == self@.api_key,
    {
        self.api_key.as_str()
    }

    /// The model that requests go to.
    pub fn current_model(&self) -> (name: &str)
        ensures
            name@ == self@.model,
    {
        self.model.as_str()
    }
}

/// The window never holds more turns than its size. Where it has a size,
/// the turn that was added is its last; and where it held no more than its
/// size before, at most the one oldest turn has left for it.
pub proof fn lemma_window_is_bounded(window: Seq<TurnView>, log_size: int, turn: TurnView)
    requires
        0 <= log_size,
    ensures
        window_after(window, log_size, turn).len() <= log_size,
        log_size > 0 ==> window_after(window, log_size, turn).last() == turn,
        window.len() < log_size ==> window_after(window, log_size, turn) == window.push(turn),
        window.len() == log_size > 0 ==> window_after(window, log_size, turn)
            == window.drop_first().push(turn),
        log_size == 0 ==> window_after(window, log_size, turn) == Seq::<TurnView>::empty(),
{
    let longer = window.push(turn);
    if window.len() == log_size && log_size > 0 {
        assert(longer.skip(1) =~= window.drop_first().push(turn));
    }
    if log_size == 0 {
        assert(longer.skip(longer.len() as int) =~= Seq::<TurnView>::empty());
    }
}

} // verus!
