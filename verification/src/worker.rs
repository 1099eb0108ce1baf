//! The decisions of the conversation worker. The worker's driver waits
//! for input and for the network; after each thing that happens it asks
//! the worker what to report and what to do next.

use vstd::prelude::*;
use vstd::string::StringExecFns;
use crate::events::{ChatEvent, ChatEventView};
use crate::history::{window_after, ChatCompletion, ChatCompletionView, TurnView};
use crate::ids::fresh_id;

verus! {

/// What a worker is made from.
#[derive(Debug, Clone)]
pub struct ChatWorkerConfig {
    /// The key that requests are sent under.
    pub api_key: String,
    /// The model that the program names. The worker does not read it: its
    /// requests go to the model that the environment names, or to
    /// `gpt-5-nano` (see `ChatWorker::new`).
    pub model: String,
    /// The system prompt, with which the worker's history starts.
    pub system_prompt: String,
}

/// The model that the configuration names if the environment names none.
/// No request carries it: the worker does not read the configuration's
/// model.
pub open spec fn fallback_model() -> Seq<char> {
    "gpt-4"@
}

/// The system prompt if the environment gives none.
pub open spec fn fallback_prompt() -> Seq<char> {
    "あなたはチャットAIです。ユーザーと楽しく会話をしてください。\n口語で話すときのように、一文を短く、会話形式での応答を心がけてください。"@
}

impl ChatWorkerConfig {
    /// What a worker is made from, given the key and what the environment
    /// says of the model and of the system prompt. Of these the worker
    /// reads the key and the system prompt.
    pub fn from_environment(
        api_key: String,
        model: Option<String>,
        system_prompt: Option<String>,
    ) -> (config: ChatWorkerConfig)
        ensures
            config.api_key@ == api_key@,
            config.model@ == match model {
                Some(name) => name@,
                None => fallback_model(),
            },
            config.system_prompt@ == match system_prompt {
                Some(prompt) => prompt@,
                None => fallback_prompt(),
            },
    {
        ChatWorkerConfig {
            api_key,
            model: match model {
                Some(name) => name,
                None => String::from_str("gpt-4"),
            },
            system_prompt: match system_prompt {
                Some(prompt) => prompt,
                None => String::from_str(
                    "あなたはチャットAIです。ユーザーと楽しく会話をしてください。\n口語で話すときのように、一文を短く、会話形式での応答を心がけてください。",
                ),
            },
        }
    }
}

/// Where the worker is in its cycle.
#[derive(Debug, Clone, Copy, PartialEq, Eq, Structural)]
pub enum WorkerPhase {
    /// It waits for the user's next text.
    Idle,
    /// It has asked for a reply, which has not ended.
    Streaming,
    /// It has ended.
    Stopped,
}

/// What happened.
#[derive(Debug, Clone)]
pub enum WorkerInput {
    /// The user sent this text.
    UserInput(String),
    /// No text of the user will come any more.
    InputClosed,
    /// The reply went on with this fragment.
    Fragment(String),
    /// The reply ended. This is all of its text.
    Completed(String),
    /// The request failed, for this reason.
    Failed(String),
    /// The last report could not be delivered, and none will be.
    DeliveryFailed,
}

/// What happened, as texts.
pub enum WorkerInputView {
    UserInput(Seq<char>),
    InputClosed,
    Fragment(Seq<char>),
    Completed(Seq<char>),
    Failed(Seq<char>),
    DeliveryFailed,
}

impl View for WorkerInput {
    type V = WorkerInputView;

    open spec fn view(&self) -> WorkerInputView {
        match self {
            WorkerInput::UserInput(text) => WorkerInputView::UserInput(text@),
            WorkerInput::InputClosed => WorkerInputView::InputClosed,
            WorkerInput::Fragment(text) => WorkerInputView::Fragment(text@),
            WorkerInput::Completed(text) => WorkerInputView::Completed(text@),
            WorkerInput::Failed(reason) => WorkerInputView::Failed(reason@),
            WorkerInput::DeliveryFailed => WorkerInputView::DeliveryFailed,
        }
    }
}

/// What the driver does next.
#[derive(Debug, Clone, Copy, PartialEq, Eq, Structural)]
pub enum WorkerCommand {
    /// Wait for the user's next text.
    AwaitInput,
    /// Send the conversation to the model and read the reply.
    StartRequest,
    /// Go on reading the reply.
    ContinueRequest,
    /// End.
    Stop,
}

/// The worker's answer to what happened.
pub struct WorkerStep {
    /// What to report to the view, before anything else is done.
    pub emit: Option<ChatEvent>,
    /// What to do then.
    pub command: WorkerCommand,
}

/// The worker's answer, as texts.
pub struct WorkerStepView {
    pub emit: Option<ChatEventView>,
    pub command: WorkerCommand,
}

impl View for WorkerStep {
    type V = WorkerStepView;

    open spec fn view(&self) -> WorkerStepView {
        WorkerStepView {
            emit: match self.emit {
                Some(event) => Some(event@),
                None => None,
            },
            command: self.command,
        }
    }
}

/// The worker: the conversation, and where it is in its cycle.
pub struct ChatWorker {
    chat_completion: ChatCompletion,
    phase: WorkerPhase,
    message_id: String,
}

/// The worker, as texts.
pub struct ChatWorkerView {
    pub history: ChatCompletionView,
    pub phase: WorkerPhase,
    /// The identifier of the reply that is being read, or was read last.
    pub message_id: Seq<char>,
}

impl View for ChatWorker {
    type V = ChatWorkerView;

    closed spec fn view(&self) -> ChatWorkerView {
        ChatWorkerView {
            history: self.chat_completion@,
            phase: self.phase,
            message_id: self.message_id@,
        }
    }
}

/// What a worker that is not in the middle of something else does next.
pub open spec fn resting_command(phase: WorkerPhase) -> WorkerCommand {
    match phase {
        WorkerPhase::Idle => WorkerCommand::AwaitInput,
        WorkerPhase::Streaming => WorkerCommand::ContinueRequest,
        WorkerPhase::Stopped => WorkerCommand::Stop,
    }
}

/// The history with one more turn in its window.
pub open spec fn with_turn(
    history: ChatCompletionView,
    role: Seq<char>,
    content: Seq<char>,
) -> ChatCompletionView {
    ChatCompletionView {
        chat_messages: window_after(
            history.chat_messages,
            history.log_size,
            TurnView { role, content },
        ),
        ..history
    }
}

/// The worker after `input`, and its answer. The reply that a text of the
/// user starts gets the identifier `fresh`.
///
/// A text of the user is taken when the worker is idle: it goes into the
/// history, and a request starts. While a reply is read, its fragments are
/// reported; when it ends, its text goes into the history; when it fails,
/// the failure is reported and the history stays as it is, with the user's
/// text. When no input will come, or a report cannot be delivered, the
/// worker ends. What does not fit the phase changes nothing.
pub open spec fn worker_after(
    worker: ChatWorkerView,
    input: WorkerInputView,
    fresh: Seq<char>,
) -> (ChatWorkerView, WorkerStepView) {
    let unchanged = (
        worker,
        WorkerStepView { emit: None, command: resting_command(worker.phase) },
    );
    let stopped = (
        ChatWorkerView { phase: WorkerPhase::Stopped, ..worker },
        WorkerStepView { emit: None, command: WorkerCommand::Stop },
    );
    match (worker.phase, input) {
        (WorkerPhase::Stopped, _) => unchanged,
        (_, WorkerInputView::InputClosed) => stopped,
        (_, WorkerInputView::DeliveryFailed) => stopped,
        (WorkerPhase::Idle, WorkerInputView::UserInput(text)) => (
            ChatWorkerView {
                history: with_turn(worker.history, "user"@, text),
                phase: WorkerPhase::Streaming,
                message_id: fresh,
            },
            WorkerStepView {
                emit: Some(ChatEventView::StreamingStart(fresh)),
                command: WorkerCommand::StartRequest,
            },
        ),
        (WorkerPhase::Streaming, WorkerInputView::Fragment(text)) => (
            worker,
            WorkerStepView {
                emit: Some(ChatEventView::StreamingChunk(worker.message_id, text)),
                command: WorkerCommand::ContinueRequest,
            },
        ),
        (WorkerPhase::Streaming, WorkerInputView::Completed(text)) => (
            ChatWorkerView {
                history: with_turn(worker.history, "assistant"@, text),
                phase: WorkerPhase::Idle,
                ..worker
            },
            WorkerStepView {
                emit: Some(ChatEventView::StreamingComplete(worker.message_id)),
                command: WorkerCommand::AwaitInput,
            },
        ),
        (WorkerPhase::Streaming, WorkerInputView::Failed(reason)) => (
            ChatWorkerView { phase: WorkerPhase::Idle, ..worker },
            WorkerStepView {
                emit: Some(ChatEventView::Error(reason)),
                command: WorkerCommand::AwaitInput,
            },
        ),
        _ => unchanged,
    }
}

impl ChatWorker {
    /// A worker that is idle, with the system prompt of `config` as its
    /// whole history and a window of thirty turns. Its requests go to the
    /// model that `env_model` names, or to `gpt-5-nano` if it names none;
    /// `config.model` is not read.
    pub fn new(config: ChatWorkerConfig, env_model: Option<String>) -> (worker: ChatWorker)
        ensures
            worker@.phase == WorkerPhase::Idle,
            worker@.history == (ChatCompletionView {
                api_key: config.api_key@,
                model: match env_model {
                    Some(name) => name@,
                    None => "gpt-5-nano"@,
                },
                log_size: 30,
                system_messages: seq![
                    TurnView { role: "system"@, content: config.system_prompt@ },
                ],
                chat_messages: Seq::empty(),
            }),
    {
        let mut chat_completion = ChatCompletion::new(config.api_key.clone(), env_model);
        chat_completion.push_system_message(config.system_prompt.as_str());
        let worker = ChatWorker {
            chat_completion,
            phase: WorkerPhase::Idle,
            message_id: String::new(),
        };
        assert(worker@.history.system_messages =~= seq![
            TurnView { role: "system"@, content: config.system_prompt@ },
        ]);
        worker
    }

    /// The conversation, as the next request sends it.
    pub fn chat_completion(&self) -> (history: &ChatCompletion)
        ensures
            history@ == self@.history,
    {
        &self.chat_completion
    }

    /// Where the worker is in its cycle.
    pub fn phase(&self) -> (phase: WorkerPhase)
        ensures
            phase == self@.phase,
    {
        self.phase
    }

    /// Tells the worker what happened, and asks what is to be done.
    pub fn step(&mut self, input: WorkerInput) -> (answer: WorkerStep)
        ensures
            (final(self)@, answer@) == worker_after(old(self)@, input@, final(self)@.message_id),
    {
        match self.phase {
            WorkerPhase::Stopped => {
                return WorkerStep { emit: None, command: WorkerCommand::Stop };
            },
            _ => {},
        }
        match input {
            WorkerInput::InputClosed | WorkerInput::DeliveryFailed => {
                self.phase = WorkerPhase::Stopped;
                WorkerStep { emit: None, command: WorkerCommand::Stop }
            },
            WorkerInput::UserInput(text) => {
                match self.phase {
                    WorkerPhase::Idle => {
                        self.chat_completion.push_user_message(text.as_str());
                        let id = fresh_id();
                        self.message_id = id.clone();
                        self.phase = WorkerPhase::Streaming;
                        WorkerStep {
                            emit: Some(ChatEvent::StreamingStart(id)),
                            command: WorkerCommand::StartRequest,
                        }
                    },
                    _ => WorkerStep { emit: None, command: WorkerCommand::ContinueRequest },
                }
            },
            WorkerInput::Fragment(text) => {
                match self.phase {
                    WorkerPhase::Streaming => WorkerStep {
                        emit: Some(ChatEvent::StreamingChunk(self.message_id.clone(), text)),
                        command: WorkerCommand::ContinueRequest,
                    },
                    _ => WorkerStep { emit: None, command: WorkerCommand::AwaitInput },
                }
            },
            WorkerInput::Completed(text) => {
                match self.phase {
                    WorkerPhase::Streaming => {
                        self.chat_completion.push_assistant_message(text.as_str());
                        self.phase = WorkerPhase::Idle;
                        WorkerStep {
                            emit: Some(ChatEvent::StreamingComplete(self.message_id.clone())),
                            command: WorkerCommand::AwaitInput,
                        }
                    },
                    _ => WorkerStep { emit: None, command: WorkerCommand::AwaitInput },
                }
            },
            WorkerInput::Failed(reason) => {
                match self.phase {
                    WorkerPhase::Streaming => {
                        self.phase = WorkerPhase::Idle;
                        WorkerStep {
                            emit: Some(ChatEvent::Error(reason)),
                            command: WorkerCommand::AwaitInput,
                        }
                    },
                    _ => WorkerStep { emit: None, command: WorkerCommand::AwaitInput },
                }
            },
        }
    }
}

/// The worker after the inputs of `inputs`, one after the other, and what
/// it reported on the way. The one reply that may start among them gets the
/// identifier `fresh`.
pub open spec fn worker_after_all(
    worker: ChatWorkerView,
    inputs: Seq<WorkerInputView>,
    fresh: Seq<char>,
) -> (ChatWorkerView, Seq<ChatEventView>)
    decreases inputs.len(),
{
    if inputs.len() == 0 {
        (worker, Seq::empty())
    } else {
        let (before, reported) = worker_after_all(worker, inputs.drop_last(), fresh);
        let (after, answer) = worker_after(before, inputs.last(), fresh);
        (
            after,
            match answer.emit {
                Some(event) => reported.push(event),
                None => reported,
            },
        )
    }
}

/// The fragments of `texts` as inputs of the worker.
pub open spec fn fragment_inputs(texts: Seq<Seq<char>>) -> Seq<WorkerInputView> {
    texts.map_values(|text: Seq<char>| WorkerInputView::Fragment(text))
}

/// The reports of the fragments of `texts` of the reply `id`.
pub open spec fn chunk_events(id: Seq<char>, texts: Seq<Seq<char>>) -> Seq<ChatEventView> {
    texts.map_values(|text: Seq<char>| ChatEventView::StreamingChunk(id, text))
}

proof fn lemma_fragments_are_reported(
    worker: ChatWorkerView,
    user_text: Seq<char>,
    texts: Seq<Seq<char>>,
    fresh: Seq<char>,
)
    requires
        worker.phase == WorkerPhase::Idle,
    ensures
        worker_after_all(
            worker,
            seq![WorkerInputView::UserInput(user_text)] + fragment_inputs(texts),
            fresh,
        ) == (
            ChatWorkerView {
                history: with_turn(worker.history, "user"@, user_text),
                phase: WorkerPhase::Streaming,
                message_id: fresh,
            },
            seq![ChatEventView::StreamingStart(fresh)] + chunk_events(fresh, texts),
        ),
    decreases texts.len(),
{
    let first = seq![WorkerInputView::UserInput(user_text)];
    let inputs = first + fragment_inputs(texts);
    let start = seq![ChatEventView::StreamingStart(fresh)];
    let result = worker_after_all(worker, inputs, fresh);
    if texts.len() == 0 {
        assert(inputs =~= first);
        assert(inputs.drop_last() =~= Seq::<WorkerInputView>::empty());
        assert(worker_after_all(worker, inputs.drop_last(), fresh) == (
            worker,
            Seq::<ChatEventView>::empty(),
        ));
        assert(inputs.last() == WorkerInputView::UserInput(user_text));
        assert(result.1 =~= start + chunk_events(fresh, texts));
    } else {
        lemma_fragments_are_reported(worker, user_text, texts.drop_last(), fresh);
        assert(inputs.drop_last() =~= first + fragment_inputs(texts.drop_last()));
        assert(inputs.last() == WorkerInputView::Fragment(texts.last()));
        assert(result.1 =~= start + chunk_events(fresh, texts));
    }
}

/// One cycle of an idle worker that ends well: the user's text, the
/// fragments of the reply, and its end. The worker reports the start, each
/// fragment in its order and the end, all under one identifier; the user's
/// text and the reply are added to the history; the worker is idle again.
pub proof fn lemma_cycle_that_completes(
    worker: ChatWorkerView,
    user_text: Seq<char>,
    texts: Seq<Seq<char>>,
    reply: Seq<char>,
    fresh: Seq<char>,
)
    requires
        worker.phase == WorkerPhase::Idle,
    ensures
        worker_after_all(
            worker,
            (seq![WorkerInputView::UserInput(user_text)] + fragment_inputs(texts)).push(
                WorkerInputView::Completed(reply),
            ),
            fresh,
        ) == (
            ChatWorkerView {
                history: with_turn(
                    with_turn(worker.history, "user"@, user_text),
                    "assistant"@,
                    reply,
                ),
                phase: WorkerPhase::Idle,
                message_id: fresh,
            },
            (seq![ChatEventView::StreamingStart(fresh)] + chunk_events(fresh, texts)).push(
                ChatEventView::StreamingComplete(fresh),
            ),
        ),
{
    lemma_fragments_are_reported(worker, user_text, texts, fresh);
    let before = seq![WorkerInputView::UserInput(user_text)] + fragment_inputs(texts);
    let inputs = before.push(WorkerInputView::Completed(reply));
    assert(inputs.drop_last() =~= before);
}

/// One cycle of an idle worker that fails: the user's text, the fragments
/// that still arrived, and the failure. The worker reports the start, the
/// fragments and the failure; of the cycle only the user's text is added to
/// the history; the worker is idle again.
pub proof fn lemma_cycle_that_fails(
    worker: ChatWorkerView,
    user_text: Seq<char>,
    texts: Seq<Seq<char>>,
    reason: Seq<char>,
    fresh: Seq<char>,
)
    requires
        worker.phase == WorkerPhase::Idle,
    ensures
        worker_after_all(
            worker,
            (seq![WorkerInputView::UserInput(user_text)] + fragment_inputs(texts)).push(
                WorkerInputView::Failed(reason),
            ),
            fresh,
        ) == (
            ChatWorkerView {
                history: with_turn(worker.history, "user"@, user_text),
                phase: WorkerPhase::Idle,
                message_id: fresh,
            },
            (seq![ChatEventView::StreamingStart(fresh)] + chunk_events(fresh, texts)).push(
                ChatEventView::Error(reason),
            ),
        ),
{
    lemma_fragments_are_reported(worker, user_text, texts, fresh);
    let before = seq![WorkerInputView::UserInput(user_text)] + fragment_inputs(texts);
    let inputs = before.push(WorkerInputView::Failed(reason));
    assert(inputs.drop_last() =~= before);
}

} // verus!
