//! The conversation loop: what a turn does with the events of a provider, and what
//! becomes of the tool calls in it. The loop itself is driven from outside; each
//! function here is one step of it.

use vstd::prelude::*;
use vstd::string::StringExecFns;
use crate::api::error::{ApiFailure, ApiFailureKind, FailureView};
use crate::api::stream::{ApiEvent, EventView};
use crate::api::types::{
    assistant_plain, block_views, blocks_of, message_views, text_option, user_text, BlockView,
    ContentBlock, Message, MessageView, Usage,
};
use crate::compact::{
    checked_estimate, estimate_tokens, is_measurable, lemma_measurable_prefix, measurable,
    snip_old_messages, snip_point, snipped, total_tokens,
};
use crate::checkpoint::{
    change_of, changes_diff, conflicts, difference, state_of, FileState, PendingCheckpoint,
    TurnCheckpoint, UndoStart,
};
use crate::config::{BindingView, HookTrigger, ModelBinding};
use crate::cost::CostTracker;
use crate::json::{json_views, Json, JsonView};
use crate::model::{built_in_metadata, known, ModelMetadata};
use crate::path_map::PathMap;
use crate::permissions::{CheckerView, PermissionChecker, PermissionResponse, ResponseView};
use crate::text;
use crate::text::{cut, decimal, joined, texts};

verus! {

/// A tool call that the assistant asks for.
pub struct ToolCall {
    pub id: String,
    pub name: String,
    pub input: Json,
}

/// A tool call as a mathematical object.
pub struct ToolCallView {
    pub id: Seq<char>,
    pub name: Seq<char>,
    pub input: JsonView,
}

impl View for ToolCall {
    type V = ToolCallView;

    open spec fn view(&self) -> ToolCallView {
        ToolCallView { id: self.id@, name: self.name@, input: self.input@ }
    }
}

/// The views of a list of tool calls.
pub open spec fn tool_call_views(calls: Seq<ToolCall>) -> Seq<ToolCallView> {
    Seq::new(calls.len(), |i: int| calls[i]@)
}

/// What a tool gave back.
pub struct ToolOutput {
    pub content: String,
    pub is_error: bool,
}

/// What a tool gave back, as a mathematical object.
pub struct OutputView {
    pub content: Seq<char>,
    pub is_error: bool,
}

impl View for ToolOutput {
    type V = OutputView;

    open spec fn view(&self) -> OutputView {
        OutputView { content: self.content@, is_error: self.is_error }
    }
}

/// Events sent to the user interface during a turn.
pub enum StreamEvent {
    Text(String),
    /// The current provider attempt was rejected before any tools ran. Uncommitted text
    /// of that attempt is to be discarded.
    Retry(String),
    /// A status line; never part of the assistant's response.
    Notice(String),
    /// A steering message was delivered into the conversation.
    SteeringSent(String),
    ToolStart { name: String, summary: String },
    ToolResult { is_error: bool },
    /// A permission prompt, with a preview of the change where there is one.
    PermissionRequest { tool_name: String, summary: String, diff: Option<String>, input: Json },
    /// The turn was cancelled and ended cleanly.
    Interrupted,
    Error(String),
    Done,
}

/// Events sent to the user interface, as mathematical objects.
pub enum UiView {
    Text(Seq<char>),
    Retry(Seq<char>),
    Notice(Seq<char>),
    SteeringSent(Seq<char>),
    ToolStart { name: Seq<char>, summary: Seq<char> },
    ToolResult { is_error: bool },
    PermissionRequest {
        tool_name: Seq<char>,
        summary: Seq<char>,
        diff: Option<Seq<char>>,
        input: JsonView,
    },
    Interrupted,
    Error(Seq<char>),
    Done,
}

impl View for StreamEvent {
    type V = UiView;

    open spec fn view(&self) -> UiView {
        match self {
            StreamEvent::Text(s) => UiView::Text(s@),
            StreamEvent::Retry(s) => UiView::Retry(s@),
            StreamEvent::Notice(s) => UiView::Notice(s@),
            StreamEvent::SteeringSent(s) => UiView::SteeringSent(s@),
            StreamEvent::ToolStart { name, summary } => UiView::ToolStart {
                name: name@,
                summary: summary@,
            },
            StreamEvent::ToolResult { is_error } => UiView::ToolResult { is_error: *is_error },
            StreamEvent::PermissionRequest { tool_name, summary, diff, input } => {
                UiView::PermissionRequest {
                    tool_name: tool_name@,
                    summary: summary@,
                    diff: text_option(*diff),
                    input: input@,
                }
            },
            StreamEvent::Interrupted => UiView::Interrupted,
            StreamEvent::Error(s) => UiView::Error(s@),
            StreamEvent::Done => UiView::Done,
        }
    }
}

/// The views of a list of events.
pub open spec fn ui_views(events: Seq<StreamEvent>) -> Seq<UiView> {
    Seq::new(events.len(), |i: int| events[i]@)
}

fn one_event(event: StreamEvent) -> (r: Vec<StreamEvent>)
    ensures
        ui_views(r@) == seq![event@],
{
    let mut out: Vec<StreamEvent> = Vec::new();
    out.push(event);
    assert(ui_views(out@) =~= seq![event@]);
    out
}

fn no_events() -> (r: Vec<StreamEvent>)
    ensures
        ui_views(r@) == Seq::<UiView>::empty(),
{
    let out: Vec<StreamEvent> = Vec::new();
    assert(ui_views(out@) =~= Seq::empty());
    out
}

/// The content of the result of a tool that was cut off by cancellation.
pub const INTERRUPTED_BY_USER: &'static str = "Interrupted by user.";

/// The content of the result of a tool that was skipped because the user sent a message
/// before it ran.
pub const SKIPPED_FOR_STEERING: &'static str =
    "Skipped: superseded by a new user message before this tool ran.";

/// How often a turn compacts the conversation because it is too long.
pub const MAX_RECOVERY: u32 = 3;

/// How often a response with malformed tool arguments is asked for again.
pub const MAX_MALFORMED_TOOL_RETRIES: u32 = 1;

/// How far the output limit is raised.
pub const MAX_OUTPUT_TOKENS: u32 = 64000;

/// The state of a turn between two events.
pub struct Turn {
    recovery_attempts: u32,
    malformed_tool_retries: u32,
    retry_prompt: Option<String>,
    reasoning: Vec<ContentBlock>,
    text: String,
    tool_uses: Vec<ToolCall>,
}

/// The state of a turn as a mathematical object.
pub struct TurnView {
    pub recovery_attempts: u32,
    pub malformed_tool_retries: u32,
    /// What is added to the system prompt of the next request.
    pub retry_prompt: Option<Seq<char>>,
    /// The reasoning received in this response.
    pub reasoning: Seq<BlockView>,
    /// The text received in this response.
    pub text: Seq<char>,
    /// The tool calls received in this response.
    pub tool_uses: Seq<ToolCallView>,
}

impl View for Turn {
    type V = TurnView;

    closed spec fn view(&self) -> TurnView {
        TurnView {
            recovery_attempts: self.recovery_attempts,
            malformed_tool_retries: self.malformed_tool_retries,
            retry_prompt: text_option(self.retry_prompt),
            reasoning: block_views(self.reasoning@),
            text: self.text@,
            tool_uses: tool_call_views(self.tool_uses@),
        }
    }
}

impl TurnView {
    /// A turn at its beginning.
    pub open spec fn start() -> TurnView {
        TurnView {
            recovery_attempts: 0,
            malformed_tool_retries: 0,
            retry_prompt: None,
            reasoning: Seq::empty(),
            text: Seq::empty(),
            tool_uses: Seq::empty(),
        }
    }

    /// The turn when the next request is sent: nothing of its response has come yet.
    pub open spec fn awaiting(self) -> TurnView {
        TurnView {
            reasoning: Seq::empty(),
            text: Seq::empty(),
            tool_uses: Seq::empty(),
            ..self
        }
    }

    /// The blocks of the assistant message that the response makes.
    pub open spec fn blocks(self) -> Seq<BlockView> {
        let spoken = if self.text.len() > 0 {
            self.reasoning.push(BlockView::Text { text: self.text })
        } else {
            self.reasoning
        };
        spoken + use_blocks(self.tool_uses)
    }
}

/// Tool calls as blocks of the assistant message.
pub open spec fn use_blocks(calls: Seq<ToolCallView>) -> Seq<BlockView> {
    Seq::new(
        calls.len(),
        |i: int|
            BlockView::ToolUse { id: calls[i].id, name: calls[i].name, input: calls[i].input },
    )
}

/// Tool calls answered as interrupted.
pub open spec fn interrupted_blocks(calls: Seq<ToolCallView>) -> Seq<BlockView> {
    Seq::new(
        calls.len(),
        |i: int|
            BlockView::ToolResult {
                tool_use_id: calls[i].id,
                content: INTERRUPTED_BY_USER@,
                is_error: Some(true),
            },
    )
}

/// What is said to a model whose tool arguments were malformed.
pub open spec fn retry_prompt(error: Seq<char>) -> Seq<char> {
    "Your previous response was rejected before any tools executed because one or more tool calls contained invalid JSON arguments ("@
        + cut(error, 512)
        + "). Reissue the entire intended tool-call batch with valid JSON arguments. Do not assume any tool from the rejected response ran."@
}

/// What is said to a model whose tool arguments were malformed.
pub fn malformed_tool_retry_prompt(error: &str) -> (r: String)
    ensures
        r@ == retry_prompt(error@),
{
    let mut prompt =
        "Your previous response was rejected before any tools executed because one or more tool calls contained invalid JSON arguments (".to_owned();
    prompt.append(text::truncate_str(error, 512));
    prompt.append(
        "). Reissue the entire intended tool-call batch with valid JSON arguments. Do not assume any tool from the rejected response ran.",
    );
    prompt
}

/// What the loop does next.
pub enum TurnStep {
    /// Wait for the next event of the response.
    Listen,
    /// Send the next request.
    Request,
    /// Compact the conversation, then send the next request.
    CompactAndRequest,
    /// The response is complete.
    Complete,
    /// The turn is over.
    Stop,
    /// The turn has failed.
    Fail(ApiFailure),
}

/// What the loop does next, as a mathematical object.
pub enum StepView {
    Listen,
    Request,
    CompactAndRequest,
    Complete,
    Stop,
    Fail(FailureView),
}

impl View for TurnStep {
    type V = StepView;

    open spec fn view(&self) -> StepView {
        match self {
            TurnStep::Listen => StepView::Listen,
            TurnStep::Request => StepView::Request,
            TurnStep::CompactAndRequest => StepView::CompactAndRequest,
            TurnStep::Complete => StepView::Complete,
            TurnStep::Stop => StepView::Stop,
            TurnStep::Fail(failure) => StepView::Fail(failure@),
        }
    }
}

/// What a step of a turn leads to.
pub struct Outcome {
    pub turn: TurnView,
    pub max_tokens: u32,
    pub events: Seq<UiView>,
    pub step: StepView,
}

/// The output limit after it was raised.
pub open spec fn raised(max_tokens: u32) -> u32 {
    if 2 * max_tokens < MAX_OUTPUT_TOKENS {
        (2 * max_tokens) as u32
    } else {
        MAX_OUTPUT_TOKENS
    }
}

/// What a failure that can be recovered from leads to; `None` for any other failure.
/// Malformed tool arguments can be recovered from only while `fresh`: no tool call of
/// the response has surfaced, so that none can run twice.
pub open spec fn recovery(
    turn: TurnView,
    max_tokens: u32,
    failure: FailureView,
    fresh: bool,
) -> Option<Outcome> {
    match failure.kind {
        ApiFailureKind::MalformedToolArguments => if fresh && turn.malformed_tool_retries
            < MAX_MALFORMED_TOOL_RETRIES {
            Some(
                Outcome {
                    turn: TurnView {
                        malformed_tool_retries: (turn.malformed_tool_retries + 1) as u32,
                        retry_prompt: Some(retry_prompt(failure.message)),
                        ..turn
                    },
                    max_tokens,
                    events: seq![
                        UiView::Retry(
                            "model returned malformed tool arguments; retrying once"@,
                        ),
                    ],
                    step: StepView::Request,
                },
            )
        } else {
            None
        },
        ApiFailureKind::OutputLimitExceeded => if max_tokens < MAX_OUTPUT_TOKENS {
            Some(
                Outcome {
                    turn,
                    max_tokens: raised(max_tokens),
                    events: Seq::empty(),
                    step: StepView::Request,
                },
            )
        } else {
            None
        },
        ApiFailureKind::ContextExceeded => if turn.recovery_attempts < MAX_RECOVERY {
            Some(
                Outcome {
                    turn: TurnView {
                        recovery_attempts: (turn.recovery_attempts + 1) as u32,
                        ..turn
                    },
                    max_tokens,
                    events: seq![UiView::Notice("compacting conversation..."@)],
                    step: StepView::CompactAndRequest,
                },
            )
        } else {
            None
        },
        ApiFailureKind::Other => None,
    }
}

/// What a request that failed before any response leads to.
pub open spec fn after_failed_request(
    turn: TurnView,
    max_tokens: u32,
    failure: FailureView,
    cancelled: bool,
) -> Outcome {
    if cancelled {
        Outcome { turn, max_tokens, events: seq![UiView::Interrupted], step: StepView::Stop }
    } else {
        match recovery(turn, max_tokens, failure, true) {
            Some(outcome) => outcome,
            None => Outcome {
                turn,
                max_tokens,
                events: seq![UiView::Error(failure.message)],
                step: StepView::Fail(failure),
            },
        }
    }
}

/// What an event of a response leads to.
pub open spec fn after_event(
    turn: TurnView,
    max_tokens: u32,
    event: EventView,
    summary: Seq<char>,
) -> Outcome {
    match event {
        EventView::Text(t) => Outcome {
            turn: TurnView { text: turn.text + t, ..turn },
            max_tokens,
            events: seq![UiView::Text(t)],
            step: StepView::Listen,
        },
        EventView::Reasoning { text, details } => Outcome {
            turn: TurnView {
                reasoning: turn.reasoning.push(BlockView::Reasoning { text, details }),
                ..turn
            },
            max_tokens,
            events: Seq::empty(),
            step: StepView::Listen,
        },
        EventView::ToolUse { id, name, input } => Outcome {
            turn: TurnView {
                tool_uses: turn.tool_uses.push(ToolCallView { id, name, input }),
                ..turn
            },
            max_tokens,
            events: seq![UiView::ToolStart { name, summary }],
            step: StepView::Listen,
        },
        EventView::Usage(_) => Outcome {
            turn,
            max_tokens,
            events: Seq::empty(),
            step: StepView::Listen,
        },
        EventView::Done => Outcome {
            turn,
            max_tokens,
            events: Seq::empty(),
            step: StepView::Complete,
        },
        EventView::Error(failure) => match recovery(
            turn,
            max_tokens,
            failure,
            turn.tool_uses.len() == 0,
        ) {
            Some(outcome) => outcome,
            None => Outcome {
                turn,
                max_tokens,
                events: seq![UiView::Error(failure.message)],
                step: StepView::Fail(
                    FailureView {
                        kind: failure.kind,
                        message: "API error: "@ + failure.message,
                    },
                ),
            },
        },
    }
}

/// What stands in for the checkpoint of a turn that has none.
pub const NO_CHECKPOINT: &'static str =
    "No turn checkpoint is available (checkpoints require a Git worktree).";

/// What the model is told when the last turn was undone.
pub const UNDO_NOTE: &'static str =
    "[Claux checkpoint] The user invoked /undo-turn. The previous turn's checkpointed filesystem changes were reverted. Re-read affected files before relying on the previous turn's results.";

/// The conversation and the settings of the loop.
pub struct Engine {
    permissions: PermissionChecker,
    messages: Vec<Message>,
    system_prompt: String,
    model: String,
    model_binding: Option<ModelBinding>,
    max_tokens: u32,
    context_window: usize,
    cost: CostTracker,
    pending_checkpoint: Option<PendingCheckpoint>,
    last_checkpoint: Option<TurnCheckpoint>,
}

/// A binding, where there is one.
pub open spec fn binding_option(binding: Option<ModelBinding>) -> Option<BindingView> {
    match binding {
        Some(b) => Some(b@),
        None => None,
    }
}

/// The conversation and the settings of the loop, as a mathematical object.
pub struct EngineView {
    pub permissions: CheckerView,
    pub messages: Seq<MessageView>,
    pub system_prompt: Seq<char>,
    pub model: Seq<char>,
    pub model_binding: Option<BindingView>,
    pub max_tokens: u32,
    pub context_window: usize,
    /// What the session used.
    pub cost: CostTracker,
    /// The checkpoint of the turn that runs.
    pub pending_checkpoint: Option<PendingCheckpoint>,
    /// The checkpoint of the last turn.
    pub last_checkpoint: Option<TurnCheckpoint>,
}

impl View for Engine {
    type V = EngineView;

    closed spec fn view(&self) -> EngineView {
        EngineView {
            permissions: self.permissions@,
            messages: message_views(self.messages@),
            system_prompt: self.system_prompt@,
            model: self.model@,
            model_binding: binding_option(self.model_binding),
            max_tokens: self.max_tokens,
            context_window: self.context_window,
            cost: self.cost,
            pending_checkpoint: self.pending_checkpoint,
            last_checkpoint: self.last_checkpoint,
        }
    }
}

/// Steering messages as messages of the conversation.
pub open spec fn steering_messages(steering: Seq<Seq<char>>) -> Seq<MessageView> {
    Seq::new(steering.len(), |i: int| user_text(steering[i]))
}

/// The events that report steering messages.
pub open spec fn steering_events(steering: Seq<Seq<char>>) -> Seq<UiView> {
    Seq::new(steering.len(), |i: int| UiView::SteeringSent(steering[i]))
}

/// As many events of an interrupted tool.
pub open spec fn interrupted_events(count: nat) -> Seq<UiView> {
    Seq::new(count, |i: int| UiView::ToolResult { is_error: true })
}

/// The conversation after a response, in which `interrupted` says that it was cut off.
pub open spec fn recorded(
    messages: Seq<MessageView>,
    turn: TurnView,
    interrupted: bool,
) -> Seq<MessageView> {
    let spoken = if turn.blocks().len() > 0 {
        messages.push(blocks_of("assistant"@, turn.blocks()))
    } else {
        messages
    };
    if interrupted && turn.tool_uses.len() > 0 {
        spoken.push(blocks_of("user"@, interrupted_blocks(turn.tool_uses)))
    } else {
        spoken
    }
}

/// The events that report the end of a response.
pub open spec fn end_events(turn: TurnView, interrupted: bool) -> Seq<UiView> {
    if interrupted {
        interrupted_events(turn.tool_uses.len()).push(UiView::Interrupted)
    } else if turn.tool_uses.len() == 0 {
        seq![UiView::Done]
    } else {
        Seq::empty()
    }
}

/// The turn after a complete response: its retries are over, and any correction was for
/// its request alone.
pub open spec fn settled(turn: TurnView) -> TurnView {
    TurnView { malformed_tool_retries: 0, retry_prompt: None, ..turn }
}

impl Turn {
    /// A turn at its beginning.
    pub fn new() -> (r: Turn)
        ensures
            r@ == TurnView::start(),
    {
        let r = Turn {
            recovery_attempts: 0,
            malformed_tool_retries: 0,
            retry_prompt: None,
            reasoning: Vec::new(),
            text: String::new(),
            tool_uses: Vec::new(),
        };
        assert(block_views(r.reasoning@) =~= Seq::empty());
        assert(tool_call_views(r.tool_uses@) =~= Seq::empty());
        r
    }

    /// The tool calls received in this response.
    pub fn tool_uses(&self) -> (r: &Vec<ToolCall>)
        ensures
            tool_call_views(r@) == self@.tool_uses,
    {
        &self.tool_uses
    }

    fn clear_response(&mut self)
        ensures
            final(self)@ == old(self)@.awaiting(),
    {
        self.reasoning = Vec::new();
        self.text = String::new();
        self.tool_uses = Vec::new();
        assert(block_views(self.reasoning@) =~= Seq::empty());
        assert(tool_call_views(self.tool_uses@) =~= Seq::empty());
    }

    fn assistant_blocks(&self) -> (r: Vec<ContentBlock>)
        ensures
            block_views(r@) == self@.blocks(),
    {
        let mut blocks = crate::api::types::duplicate_blocks(&self.reasoning);
        if !self.text.as_str().is_empty() {
            let ghost before = block_views(blocks@);
            blocks.push(ContentBlock::Text { text: self.text.clone() });
            assert(block_views(blocks@) =~= before.push(BlockView::Text { text: self.text@ }));
        }
        let ghost spoken = block_views(blocks@);
        let ghost calls = tool_call_views(self.tool_uses@);
        let mut i: usize = 0;
        assert(spoken + use_blocks(calls.take(0)) =~= spoken);
        while i < self.tool_uses.len()
            invariant
                i <= self.tool_uses@.len(),
                calls == tool_call_views(self.tool_uses@),
                block_views(blocks@) == spoken + use_blocks(calls.take(i as int)),
            decreases self.tool_uses.len() - i,
        {
            let ghost before = block_views(blocks@);
            let block = ContentBlock::ToolUse {
                id: self.tool_uses[i].id.clone(),
                name: self.tool_uses[i].name.clone(),
                input: self.tool_uses[i].input.duplicate(),
            };
            blocks.push(block);
            proof {
                assert(block_views(blocks@) =~= before.push(block@));
                assert(block@ == use_blocks(calls)[i as int]);
                assert(use_blocks(calls.take(i + 1)) =~= use_blocks(calls.take(i as int)).push(
                    block@,
                ));
            }
            i = i + 1;
            assert(block_views(blocks@) =~= spoken + use_blocks(calls.take(i as int)));
        }
        assert(calls.take(self.tool_uses@.len() as int) =~= calls);
        blocks
    }
}

impl Engine {
    /// An engine with an empty conversation.
    pub fn new(permissions: PermissionChecker, model: &str) -> (r: Engine)
        ensures
            r@ == (EngineView {
                permissions: permissions@,
                messages: Seq::empty(),
                system_prompt: Seq::empty(),
                model: model@,
                model_binding: None,
                max_tokens: 16384,
                context_window: known(model@).context_window,
                cost: CostTracker {
                    input_tokens: 0,
                    output_tokens: 0,
                    cache_read_tokens: 0,
                    cache_creation_tokens: 0,
                    reported: None,
                    pricing: known(model@).pricing,
                },
                pending_checkpoint: None,
                last_checkpoint: None,
            }),
    {
        let r = Engine {
            permissions,
            messages: Vec::new(),
            system_prompt: String::new(),
            model: model.to_owned(),
            model_binding: None,
            max_tokens: 16384,
            context_window: built_in_metadata(model).context_window,
            cost: CostTracker::new(model),
            pending_checkpoint: None,
            last_checkpoint: None,
        };
        assert(message_views(r.messages@) =~= Seq::empty());
        r
    }

    /// Sets the output limit, which is at least one token.
    pub fn set_max_tokens(&mut self, max_tokens: u32)
        ensures
            final(self)@ == (EngineView {
                max_tokens: if max_tokens == 0 {
                    1
                } else {
                    max_tokens
                },
                ..old(self)@
            }),
    {
        self.max_tokens = if max_tokens == 0 {
            1
        } else {
            max_tokens
        };
    }

    /// Sets what is known of the model: the size of its context window, and its prices
    /// where they are known.
    pub fn set_model_metadata(&mut self, metadata: ModelMetadata)
        ensures
            final(self)@ == (EngineView {
                context_window: metadata.context_window,
                cost: CostTracker {
                    pricing: match metadata.pricing {
                        Some(p) => Some(p),
                        None => old(self)@.cost.pricing,
                    },
                    ..old(self)@.cost
                },
                ..old(self)@
            }),
    {
        self.context_window = metadata.context_window;
        self.cost.set_pricing_override(metadata.pricing);
    }

    /// Sets the binding of the session to a model.
    pub fn set_model_binding(&mut self, binding: ModelBinding)
        ensures
            final(self)@ == (EngineView { model_binding: Some(binding@), ..old(self)@ }),
    {
        self.model_binding = Some(binding);
    }

    /// The binding of the session to a model.
    pub fn model_binding(&self) -> (r: Option<&ModelBinding>)
        ensures
            r is Some <==> self@.model_binding is Some,
            r matches Some(b) ==> Some(b@) == self@.model_binding,
    {
        self.model_binding.as_ref()
    }

    /// What the session used.
    pub fn cost(&self) -> (r: &CostTracker)
        ensures
            *r == self@.cost,
    {
        &self.cost
    }

    /// Adds what a request used, and the charge that the provider reported for it.
    pub fn add_usage(&mut self, usage: &Usage, charge: Option<u128>)
        requires
            old(self)@.cost.has_room(usage@, charge),
        ensures
            final(self)@ == (EngineView {
                cost: old(self)@.cost.after(usage@, charge),
                ..old(self)@
            }),
    {
        self.cost.add_usage(usage, charge);
    }

    /// Sets the system prompt.
    pub fn set_system_prompt(&mut self, prompt: String)
        ensures
            final(self)@ == (EngineView { system_prompt: prompt@, ..old(self)@ }),
    {
        self.system_prompt = prompt;
    }

    /// The system prompt.
    pub fn system_prompt(&self) -> (r: &str)
        ensures
            r@ == self@.system_prompt,
    {
        self.system_prompt.as_str()
    }

    /// The conversation.
    pub fn messages(&self) -> (r: &[Message])
        ensures
            message_views(r@) == self@.messages,
    {
        self.messages.as_slice()
    }

    /// The number of messages in the conversation.
    pub fn message_count(&self) -> (r: usize)
        ensures
            r == self@.messages.len(),
    {
        self.messages.len()
    }

    /// The model in use.
    pub fn model(&self) -> (r: &str)
        ensures
            r@ == self@.model,
    {
        self.model.as_str()
    }

    /// The output limit.
    pub fn max_tokens(&self) -> (r: u32)
        ensures
            r == self@.max_tokens,
    {
        self.max_tokens
    }

    /// The size of the model's context window.
    pub fn context_window(&self) -> (r: usize)
        ensures
            r == self@.context_window,
    {
        self.context_window
    }

    /// The permissions in force.
    pub fn permissions(&self) -> (r: &PermissionChecker)
        ensures
            r@ == self@.permissions,
    {
        &self.permissions
    }

    /// Takes up another conversation. What the user has allowed in the old one does not
    /// hold in it, and neither its usage nor its checkpoints are carried over.
    pub fn set_messages(&mut self, messages: Vec<Message>)
        ensures
            final(self)@ == (EngineView {
                messages: message_views(messages@),
                permissions: CheckerView {
                    mode: old(self)@.permissions.mode,
                    tools: Set::empty(),
                    commands: Set::empty(),
                },
                cost: CostTracker {
                    input_tokens: 0,
                    output_tokens: 0,
                    cache_read_tokens: 0,
                    cache_creation_tokens: 0,
                    reported: None,
                    pricing: old(self)@.cost.pricing,
                },
                pending_checkpoint: None,
                last_checkpoint: None,
                ..old(self)@
            }),
    {
        self.permissions.reset_session();
        self.cost.reset_usage();
        self.messages = messages;
        self.pending_checkpoint = None;
        self.last_checkpoint = None;
    }

    fn push_message(&mut self, message: Message)
        ensures
            final(self)@ == (EngineView {
                messages: old(self)@.messages.push(message@),
                ..old(self)@
            }),
    {
        self.messages.push(message);
        assert(message_views(self.messages@) =~= old(self)@.messages.push(message@));
    }

    /// A turn begins, with a checkpoint where one could be taken. The one of the last turn
    /// is given up.
    pub fn begin_checkpoint(&mut self, captured: Option<PendingCheckpoint>)
        ensures
            final(self)@ == (EngineView {
                pending_checkpoint: captured,
                last_checkpoint: None,
                ..old(self)@
            }),
    {
        self.last_checkpoint = None;
        self.pending_checkpoint = captured;
    }

    /// The checkpoint of the turn that runs.
    pub fn pending_checkpoint(&self) -> (r: Option<&PendingCheckpoint>)
        ensures
            r is Some <==> self@.pending_checkpoint is Some,
            r matches Some(p) ==> Some(*p) == self@.pending_checkpoint,
    {
        self.pending_checkpoint.as_ref()
    }

    /// A turn ends. Its checkpoint is complete where what stands at its paths could be
    /// read.
    pub fn finish_checkpoint(&mut self, after: Option<PathMap<FileState>>)
        ensures
            final(self)@.pending_checkpoint is None,
            final(self)@ == (EngineView {
                pending_checkpoint: None,
                last_checkpoint: final(self)@.last_checkpoint,
                ..old(self)@
            }),
            match (old(self)@.pending_checkpoint, after) {
                (Some(pending), Some(states)) => final(self)@.last_checkpoint matches Some(last)
                    && last.worktree() == pending.worktree() && (forall|p: Seq<u8>|
                    #[trigger] change_of(last.map(), p) == difference(
                        state_of(pending.states(), p),
                        state_of(states, p),
                    )),
                _ => final(self)@.last_checkpoint == old(self)@.last_checkpoint,
            },
    {
        match self.pending_checkpoint.take() {
            Some(pending) => match after {
                Some(states) => {
                    self.last_checkpoint = Some(pending.finish(states));
                },
                None => {},
            },
            None => {},
        }
    }

    /// The checkpoint of the last turn.
    pub fn last_checkpoint(&self) -> (r: Option<&TurnCheckpoint>)
        ensures
            r is Some <==> self@.last_checkpoint is Some,
            r matches Some(c) ==> Some(*c) == self@.last_checkpoint,
    {
        self.last_checkpoint.as_ref()
    }

    /// The diff of what the last turn changed.
    pub fn last_turn_diff(&self) -> (r: String)
        ensures
            r@ == match self@.last_checkpoint {
                Some(c) => if c.map().paths().len() == 0 {
                    "The last turn made no checkpointed file changes."@
                } else {
                    changes_diff(Seq::empty(), c.map().paths(), c.map().values())
                },
                None => NO_CHECKPOINT@,
            },
    {
        match &self.last_checkpoint {
            Some(checkpoint) => checkpoint.diff(),
            None => NO_CHECKPOINT.to_owned(),
        }
    }

    /// How to undo the last turn, given what stands at each path that it changed.
    pub fn undo_last_turn(&self, current: &Vec<FileState>) -> (r: Result<UndoStart, String>)
        requires
            self@.last_checkpoint matches Some(c) ==> current@.len() == c.map().paths().len(),
        ensures
            match self@.last_checkpoint {
                None => r matches Err(e) && e@ == NO_CHECKPOINT@,
                Some(c) => {
                    let found = conflicts(c.map().paths(), c.map().values(), current@);
                    if c.map().paths().len() == 0 {
                        r matches Ok(UndoStart::Nothing(m)) && m@
                            == "The last turn made no checkpointed file changes."@
                    } else if found.len() > 0 {
                        r matches Err(e) && e@
                            == "Undo refused because these files changed after the turn:\n  "@
                            + joined(found, "\n  "@)
                    } else {
                        r matches Ok(UndoStart::Restore)
                    }
                },
            },
    {
        match &self.last_checkpoint {
            Some(checkpoint) => checkpoint.undo(current),
            None => Err(NO_CHECKPOINT.to_owned()),
        }
    }

    /// The last turn was undone: its checkpoint is given up, and the model is told that
    /// its changes were reverted.
    pub fn note_undo(&mut self)
        ensures
            final(self)@ == (EngineView {
                messages: old(self)@.messages.push(user_text(UNDO_NOTE@)),
                last_checkpoint: None,
                ..old(self)@
            }),
    {
        self.last_checkpoint = None;
        self.push_message(Message::user(UNDO_NOTE));
    }

    /// Delivers steering messages into the conversation.
    pub fn inject_steering(&mut self, steering: &Vec<String>)
        ensures
            final(self)@ == (EngineView {
                messages: old(self)@.messages + steering_messages(texts(steering@)),
                ..old(self)@
            }),
    {
        let ghost all = texts(steering@);
        let mut i: usize = 0;
        assert(self@.messages + steering_messages(all.take(0)) =~= self@.messages);
        while i < steering.len()
            invariant
                i <= steering@.len(),
                all == texts(steering@),
                self@ == (EngineView {
                    messages: old(self)@.messages + steering_messages(all.take(i as int)),
                    ..old(self)@
                }),
            decreases steering.len() - i,
        {
            let ghost before = self@.messages;
            self.push_message(Message::user(steering[i].as_str()));
            i = i + 1;
            assert(self@.messages =~= old(self)@.messages + steering_messages(all.take(i as int)));
        }
        assert(all.take(steering@.len() as int) =~= all);
    }

    /// Begins a turn with the user's message. `compacted` says that the conversation was
    /// compacted to make room for it.
    pub fn begin_turn(&mut self, message: Message, compacted: bool) -> (r: (Turn, Vec<StreamEvent>))
        ensures
            r.0@ == TurnView::start(),
            ui_views(r.1@) == if compacted {
                seq![UiView::Notice("conversation auto-compacted to free context"@)]
            } else {
                Seq::empty()
            },
            final(self)@ == (EngineView {
                messages: old(self)@.messages.push(message@),
                ..old(self)@
            }),
    {
        self.push_message(message);
        let events = if compacted {
            one_event(
                StreamEvent::Notice("conversation auto-compacted to free context".to_owned()),
            )
        } else {
            no_events()
        };
        (Turn::new(), events)
    }

    /// Gets the next request ready: steering messages go into the conversation first, and
    /// a cancelled turn ends here. Gives the system prompt of the request.
    pub fn next_request(
        &mut self,
        turn: &mut Turn,
        steering: &Vec<String>,
        cancelled: bool,
    ) -> (r: (Vec<StreamEvent>, Option<String>))
        ensures
            final(self)@ == (EngineView {
                messages: old(self)@.messages + steering_messages(texts(steering@)),
                ..old(self)@
            }),
            final(turn)@ == old(turn)@.awaiting(),
            ui_views(r.0@) == if cancelled {
                steering_events(texts(steering@)).push(UiView::Interrupted)
            } else {
                steering_events(texts(steering@))
            },
            text_option(r.1) == if cancelled {
                None
            } else {
                match old(turn)@.retry_prompt {
                    Some(prompt) => Some(old(self)@.system_prompt + "\n\n"@ + prompt),
                    None => Some(old(self)@.system_prompt),
                }
            },
    {
        self.inject_steering(steering);
        let ghost all = texts(steering@);
        let mut events: Vec<StreamEvent> = Vec::new();
        let mut i: usize = 0;
        assert(ui_views(events@) =~= steering_events(all.take(0)));
        while i < steering.len()
            invariant
                i <= steering@.len(),
                all == texts(steering@),
                ui_views(events@) == steering_events(all.take(i as int)),
            decreases steering.len() - i,
        {
            let ghost before = ui_views(events@);
            let event = StreamEvent::SteeringSent(steering[i].clone());
            events.push(event);
            proof {
                assert(ui_views(events@) =~= before.push(event@));
                assert(event@ == steering_events(all)[i as int]);
                assert(steering_events(all.take(i + 1)) =~= steering_events(
                    all.take(i as int),
                ).push(event@));
            }
            i = i + 1;
        }
        assert(all.take(steering@.len() as int) =~= all);
        turn.clear_response();
        if cancelled {
            let ghost before = ui_views(events@);
            events.push(StreamEvent::Interrupted);
            assert(ui_views(events@) =~= before.push(UiView::Interrupted));
            return (events, None);
        }
        let mut prompt = self.system_prompt.clone();
        match &turn.retry_prompt {
            Some(more) => {
                prompt.append("\n\n");
                prompt.append(more.as_str());
            },
            None => {},
        }
        (events, Some(prompt))
    }

    fn recover(&mut self, turn: &mut Turn, failure: &ApiFailure, fresh: bool) -> (r: Option<
        (Vec<StreamEvent>, TurnStep),
    >)
        ensures
            match recovery(old(turn)@, old(self)@.max_tokens, failure@, fresh) {
                Some(outcome) => {
                    &&& r matches Some(done)
                    &&& final(turn)@ == outcome.turn
                    &&& final(self)@ == (EngineView {
                        max_tokens: outcome.max_tokens,
                        ..old(self)@
                    })
                    &&& ui_views(done.0@) == outcome.events
                    &&& done.1@ == outcome.step
                },
                None => r is None && *final(turn) == *old(turn) && *final(self) == *old(self),
            },
    {
        match failure.kind {
            ApiFailureKind::MalformedToolArguments => {
                if fresh && turn.malformed_tool_retries < MAX_MALFORMED_TOOL_RETRIES {
                    turn.malformed_tool_retries = turn.malformed_tool_retries + 1;
                    turn.retry_prompt = Some(
                        malformed_tool_retry_prompt(failure.message.as_str()),
                    );
                    return Some(
                        (
                            one_event(
                                StreamEvent::Retry(
                                    "model returned malformed tool arguments; retrying once".to_owned(),
                                ),
                            ),
                            TurnStep::Request,
                        ),
                    );
                }
                None
            },
            ApiFailureKind::OutputLimitExceeded => {
                if self.max_tokens < MAX_OUTPUT_TOKENS {
                    let doubled: u32 = self.max_tokens * 2;
                    self.max_tokens = if doubled < MAX_OUTPUT_TOKENS {
                        doubled
                    } else {
                        MAX_OUTPUT_TOKENS
                    };
                    return Some((no_events(), TurnStep::Request));
                }
                None
            },
            ApiFailureKind::ContextExceeded => {
                if turn.recovery_attempts < MAX_RECOVERY {
                    turn.recovery_attempts = turn.recovery_attempts + 1;
                    return Some(
                        (
                            one_event(
                                StreamEvent::Notice("compacting conversation...".to_owned()),
                            ),
                            TurnStep::CompactAndRequest,
                        ),
                    );
                }
                None
            },
            ApiFailureKind::Other => None,
        }
    }

    /// A request failed before any response came.
    pub fn request_failed(&mut self, turn: &mut Turn, failure: &ApiFailure, cancelled: bool) -> (r: (
        Vec<StreamEvent>,
        TurnStep,
    ))
        ensures
            ({
                let outcome = after_failed_request(
                    old(turn)@,
                    old(self)@.max_tokens,
                    failure@,
                    cancelled,
                );
                &&& final(turn)@ == outcome.turn
                &&& final(self)@ == (EngineView { max_tokens: outcome.max_tokens, ..old(self)@ })
                &&& ui_views(r.0@) == outcome.events
                &&& r.1@ == outcome.step
            }),
    {
        if cancelled {
            return (one_event(StreamEvent::Interrupted), TurnStep::Stop);
        }
        match self.recover(turn, failure, true) {
            Some(done) => done,
            None => (
                one_event(StreamEvent::Error(failure.message.clone())),
                TurnStep::Fail(failure.duplicate()),
            ),
        }
    }

    /// Takes in an event of the response. `summary` describes a tool call, and `charge` is
    /// what the provider reported for the usage.
    pub fn take_event(
        &mut self,
        turn: &mut Turn,
        event: ApiEvent,
        summary: &str,
        charge: Option<u128>,
    ) -> (r: (Vec<StreamEvent>, TurnStep))
        requires
            event@ matches EventView::Usage(usage) ==> old(self)@.cost.has_room(usage, charge),
        ensures
            ({
                let outcome = after_event(
                    old(turn)@,
                    old(self)@.max_tokens,
                    event@,
                    summary@,
                );
                &&& final(turn)@ == outcome.turn
                &&& final(self)@ == (EngineView {
                    max_tokens: outcome.max_tokens,
                    cost: match event@ {
                        EventView::Usage(usage) => old(self)@.cost.after(usage, charge),
                        _ => old(self)@.cost,
                    },
                    ..old(self)@
                })
                &&& ui_views(r.0@) == outcome.events
                &&& r.1@ == outcome.step
            }),
    {
        match event {
            ApiEvent::Text(t) => {
                turn.text.append(t.as_str());
                (one_event(StreamEvent::Text(t)), TurnStep::Listen)
            },
            ApiEvent::Reasoning { text, details } => {
                let ghost block = BlockView::Reasoning {
                    text: text_option(text),
                    details: json_views(details@),
                };
                turn.reasoning.push(ContentBlock::Reasoning { text, details });
                assert(block_views(turn.reasoning@) =~= old(turn)@.reasoning.push(block));
                (no_events(), TurnStep::Listen)
            },
            ApiEvent::ToolUse { id, name, input } => {
                let started = StreamEvent::ToolStart {
                    name: name.clone(),
                    summary: summary.to_owned(),
                };
                let call = ToolCall { id, name, input };
                turn.tool_uses.push(call);
                assert(tool_call_views(turn.tool_uses@) =~= old(turn)@.tool_uses.push(call@));
                (one_event(started), TurnStep::Listen)
            },
            ApiEvent::Usage(usage) => {
                self.cost.add_usage(&usage, charge);
                (no_events(), TurnStep::Listen)
            },
            ApiEvent::Done => (no_events(), TurnStep::Complete),
            ApiEvent::Error(failure) => {
                let fresh = turn.tool_uses.len() == 0;
                match self.recover(turn, &failure, fresh) {
                    Some(done) => done,
                    None => {
                        let mut message = "API error: ".to_owned();
                        message.append(failure.message.as_str());
                        (
                            one_event(StreamEvent::Error(failure.message)),
                            TurnStep::Fail(ApiFailure::new(failure.kind, message)),
                        )
                    },
                }
            },
        }
    }

    /// The stream of a response ended without saying that it is complete.
    pub fn stream_ended(&self) -> (r: (Vec<StreamEvent>, TurnStep))
        ensures
            ui_views(r.0@) == seq![UiView::Error("API stream ended without completion"@)],
            r.1@ == StepView::Fail(
                FailureView {
                    kind: ApiFailureKind::Other,
                    message: "API stream ended without completion"@,
                },
            ),
    {
        let message = "API stream ended without completion".to_owned();
        (
            one_event(StreamEvent::Error(message.clone())),
            TurnStep::Fail(ApiFailure::other(message)),
        )
    }

    /// Records a response. If it was cut off, its tool calls are answered as interrupted
    /// and the turn is over; else the turn is over if it calls no tool.
    pub fn complete_response(&mut self, turn: &mut Turn, interrupted: bool) -> (r: (
        Vec<StreamEvent>,
        TurnStep,
    ))
        ensures
            final(turn)@ == settled(old(turn)@),
            final(self)@ == (EngineView {
                messages: recorded(old(self)@.messages, old(turn)@, interrupted),
                ..old(self)@
            }),
            ui_views(r.0@) == end_events(old(turn)@, interrupted),
            r.1@ == if interrupted || old(turn)@.tool_uses.len() == 0 {
                StepView::Stop
            } else {
                StepView::Complete
            },
    {
        turn.malformed_tool_retries = 0;
        turn.retry_prompt = None;
        let blocks = turn.assistant_blocks();
        if blocks.len() > 0 {
            self.push_message(Message::assistant_blocks(blocks));
        }
        if interrupted {
            let ghost calls = turn@.tool_uses;
            let mut events: Vec<StreamEvent> = Vec::new();
            let mut results: Vec<ContentBlock> = Vec::new();
            let mut i: usize = 0;
            while i < turn.tool_uses.len()
                invariant
                    i <= turn.tool_uses@.len(),
                    i == events@.len(),
                    i == results@.len(),
                    calls == tool_call_views(turn.tool_uses@),
                    forall|k: int|
                        0 <= k < i ==> (#[trigger] events@[k])@ == (UiView::ToolResult {
                            is_error: true,
                        }),
                    forall|k: int|
                        0 <= k < i ==> (#[trigger] results@[k])@ == interrupted_blocks(calls)[k],
                decreases turn.tool_uses.len() - i,
            {
                events.push(StreamEvent::ToolResult { is_error: true });
                results.push(
                    ContentBlock::ToolResult {
                        tool_use_id: turn.tool_uses[i].id.clone(),
                        content: INTERRUPTED_BY_USER.to_owned(),
                        is_error: Some(true),
                    },
                );
                i = i + 1;
            }
            assert(block_views(results@) =~= interrupted_blocks(calls));
            if turn.tool_uses.len() > 0 {
                self.push_message(Message::tool_results(results));
            }
            events.push(StreamEvent::Interrupted);
            assert(ui_views(events@) =~= interrupted_events(calls.len()).push(
                UiView::Interrupted,
            ));
            (events, TurnStep::Stop)
        } else if turn.tool_uses.len() == 0 {
            (one_event(StreamEvent::Done), TurnStep::Stop)
        } else {
            (no_events(), TurnStep::Complete)
        }
    }

    /// Records the results of the tools that a response called. The next request follows,
    /// unless the tools were interrupted.
    pub fn finish_batch(&mut self, results: Vec<ContentBlock>, interrupted: bool) -> (r: (
        Vec<StreamEvent>,
        TurnStep,
    ))
        ensures
            final(self)@ == (EngineView {
                messages: old(self)@.messages.push(blocks_of("user"@, block_views(results@))),
                ..old(self)@
            }),
            ui_views(r.0@) == if interrupted {
                seq![UiView::Interrupted]
            } else {
                Seq::empty()
            },
            r.1@ == if interrupted {
                StepView::Stop
            } else {
                StepView::Request
            },
    {
        self.push_message(Message::tool_results(results));
        if interrupted {
            (one_event(StreamEvent::Interrupted), TurnStep::Stop)
        } else {
            (no_events(), TurnStep::Request)
        }
    }
}


/// The permissions after the user's answer about an invocation.
pub open spec fn permissions_after(
    checker: CheckerView,
    name: Seq<char>,
    input: JsonView,
    response: Option<ResponseView>,
) -> CheckerView {
    match response {
        Some(ResponseView::AlwaysAllow) => match crate::permissions::command_of(name, input) {
            Some(command) => CheckerView { commands: checker.commands.insert(command), ..checker },
            None => CheckerView { tools: checker.tools.insert(name), ..checker },
        },
        Some(ResponseView::AlwaysAllowCommand(command)) => CheckerView {
            commands: checker.commands.insert(command),
            ..checker
        },
        _ => checker,
    }
}

/// Whether the user's answer lets the invocation run. No answer is a denial.
pub open spec fn lets_run(response: Option<ResponseView>) -> bool {
    match response {
        Some(ResponseView::Allow) => true,
        Some(ResponseView::AlwaysAllow) => true,
        Some(ResponseView::AlwaysAllowCommand(_)) => true,
        _ => false,
    }
}

/// The view of an optional response.
pub open spec fn response_option(response: Option<PermissionResponse>) -> Option<ResponseView> {
    match response {
        Some(r) => Some(r@),
        None => None,
    }
}

/// The prompt that asks the user about an invocation.
pub fn permission_request(name: &str, input: &Json, message: String, diff: Option<String>) -> (r:
    StreamEvent)
    ensures
        r@ == (UiView::PermissionRequest {
            tool_name: name@,
            summary: message@,
            diff: text_option(diff),
            input: input@,
        }),
{
    StreamEvent::PermissionRequest {
        tool_name: name.to_owned(),
        summary: message,
        diff,
        input: input.duplicate(),
    }
}

/// What compaction does with a conversation.
pub enum CompactAction {
    /// There is nothing to compact.
    Nothing,
    /// Old messages were snipped; the report says how much that freed.
    Snipped(String),
    /// The conversation is to be summarized by sending these messages.
    Summarize(Vec<Message>),
    /// The size of the conversation cannot be measured.
    Unmeasurable,
}

/// What is asked of the model that summarizes a conversation.
pub open spec fn summary_prompt() -> Seq<char> {
    "Summarize the conversation so far in a concise paragraph. Focus on what was discussed, what decisions were made, what files were modified, and any outstanding tasks. Be specific about file paths and changes."@
}

/// The conversation after snipping, if it can be snipped.
pub open spec fn snip_candidate(messages: Seq<MessageView>) -> Option<Seq<MessageView>> {
    match snip_point(messages, 10) {
        Some(at) => Some(snipped(messages, at)),
        None => None,
    }
}

/// Whether snipping frees enough: the conversation gets shorter, and below 70% of the
/// context window.
pub open spec fn frees_enough(old_tokens: nat, new_tokens: nat, context_window: nat) -> bool {
    new_tokens < old_tokens && new_tokens < context_window * 70 / 100
}

/// The report of messages that were snipped.
pub open spec fn snip_report(count: nat, freed: nat) -> Seq<char> {
    "Snipped "@ + decimal(count) + " old messages (~"@ + decimal(freed) + " tokens freed)"@
}

/// Whether snipping frees enough.
pub fn snip_frees_enough(old_tokens: usize, new_tokens: usize, context_window: usize) -> (r: bool)
    ensures
        r == frees_enough(old_tokens as nat, new_tokens as nat, context_window as nat),
{
    new_tokens < old_tokens && (new_tokens as u128) < (context_window as u128) * 70 / 100
}

/// Whether the conversation, and what snipping makes of it, can be measured.
pub open spec fn compactable(messages: Seq<MessageView>) -> bool {
    measurable(messages) && (snip_candidate(messages) matches Some(out) ==> measurable(out))
}

/// The report of a conversation that was summarized.
pub open spec fn summary_report(count: nat, summary: Seq<char>) -> Seq<char> {
    "Compacted "@ + decimal(count) + " messages into summary.\n\n\u{1b}[2m"@ + summary
        + "\u{1b}[0m"@
}

/// The conversation after it was summarized.
pub open spec fn summarized(summary: Seq<char>) -> Seq<MessageView> {
    seq![
        user_text("Here is a summary of our conversation so far:"@),
        assistant_plain(summary),
    ]
}

impl Engine {
    /// Takes in the user's answer about an invocation: `None` lets it run, else it gets
    /// this output.
    pub fn answer_permission(
        &mut self,
        name: &str,
        input: &Json,
        response: Option<PermissionResponse>,
    ) -> (r: Option<ToolOutput>)
        ensures
            final(self)@ == (EngineView {
                permissions: permissions_after(
                    old(self)@.permissions,
                    name@,
                    input@,
                    response_option(response),
                ),
                ..old(self)@
            }),
            r is None <==> lets_run(response_option(response)),
            r matches Some(output) ==> output@ == (OutputView {
                content: "Permission denied by user."@,
                is_error: true,
            }),
    {
        match response {
            Some(PermissionResponse::Allow) => None,
            Some(PermissionResponse::AlwaysAllow) => {
                match PermissionResponse::always_allow_for(name, input) {
                    PermissionResponse::AlwaysAllowCommand(command) => {
                        self.permissions.always_allow_command(command.as_str());
                    },
                    _ => {
                        self.permissions.always_allow(name);
                    },
                }
                None
            },
            Some(PermissionResponse::AlwaysAllowCommand(command)) => {
                self.permissions.always_allow_command(command.as_str());
                None
            },
            _ => Some(
                ToolOutput { content: "Permission denied by user.".to_owned(), is_error: true },
            ),
        }
    }

    /// Whether the conversation is too long and is to be compacted before a request: it
    /// has more tokens than the threshold, where there is one. Nothing where its size
    /// cannot be measured.
    pub fn maybe_auto_compact(&self, threshold_tokens: Option<usize>) -> (r: Option<bool>)
        ensures
            r == match threshold_tokens {
                None => Some(false),
                Some(limit) => if measurable(self@.messages) {
                    Some(total_tokens(self@.messages) > limit)
                } else {
                    None
                },
            },
    {
        match threshold_tokens {
            None => Some(false),
            Some(limit) => match checked_estimate(self.messages.as_slice()) {
                Some(tokens) => Some(tokens > limit),
                None => None,
            },
        }
    }

    /// Compacts the conversation, or says how to. Snipping is tried first; where it does
    /// not free enough, the conversation is to be summarized, and stays as it is until
    /// then.
    pub fn compact(&mut self) -> (r: CompactAction)
        ensures
            r is Nothing <==> old(self)@.messages.len() == 0,
            r is Unmeasurable <==> old(self)@.messages.len() > 0 && !compactable(
                old(self)@.messages,
            ),
            r matches CompactAction::Snipped(report) ==> {
                &&& snip_candidate(old(self)@.messages) matches Some(out)
                &&& frees_enough(
                    total_tokens(old(self)@.messages),
                    total_tokens(out),
                    old(self)@.context_window as nat,
                )
                &&& final(self)@ == (EngineView { messages: out, ..old(self)@ })
                &&& report@ == snip_report(
                    snip_point(old(self)@.messages, 10)->Some_0 as nat,
                    (total_tokens(old(self)@.messages) - total_tokens(out)) as nat,
                )
            },
            r matches CompactAction::Summarize(messages) ==> {
                let source = match snip_candidate(old(self)@.messages) {
                    Some(out) => out,
                    None => old(self)@.messages,
                };
                &&& message_views(messages@) == source.push(user_text(summary_prompt()))
                &&& snip_candidate(old(self)@.messages) matches Some(out) ==> !frees_enough(
                    total_tokens(old(self)@.messages),
                    total_tokens(out),
                    old(self)@.context_window as nat,
                )
            },
            !(r is Snipped) ==> *final(self) == *old(self),
    {
        if self.messages.len() == 0 {
            return CompactAction::Nothing;
        }
        if !is_measurable(self.messages.as_slice()) {
            return CompactAction::Unmeasurable;
        }
        let old_tokens = estimate_tokens(self.messages.as_slice());
        proof {
            if let Some(at) = snip_point(self@.messages, 10) {
                lemma_snip_counts(self@.messages, at);
                lemma_measurable_prefix(self@.messages, at);
            }
        }
        let mut source = match snip_old_messages(self.messages.as_slice(), 10) {
            Some(out) => {
                if !is_measurable(out.as_slice()) {
                    return CompactAction::Unmeasurable;
                }
                let new_tokens = estimate_tokens(out.as_slice());
                if snip_frees_enough(old_tokens, new_tokens, self.context_window) {
                    proof {
                        let at = snip_point(self@.messages, 10)->Some_0;
                        lemma_snip_counts(self@.messages, at);
                    }
                    let count: usize = self.messages.len() - out.len() + 1;
                    let mut report = "Snipped ".to_owned();
                    report.append(text::to_decimal(count as u64).as_str());
                    report.append(" old messages (~");
                    report.append(text::to_decimal((old_tokens - new_tokens) as u64).as_str());
                    report.append(" tokens freed)");
                    self.messages = out;
                    return CompactAction::Snipped(report);
                }
                out
            },
            None => crate::api::types::duplicate_messages(self.messages.as_slice()),
        };
        let ghost before = message_views(source@);
        source.push(
            Message::user(
                "Summarize the conversation so far in a concise paragraph. Focus on what was discussed, what decisions were made, what files were modified, and any outstanding tasks. Be specific about file paths and changes.",
            ),
        );
        assert(message_views(source@) =~= before.push(user_text(summary_prompt())));
        CompactAction::Summarize(source)
    }

    /// Replaces the conversation by its summary; `old_count` messages went into it.
    pub fn commit_summary(&mut self, summary: &str, old_count: usize) -> (r: String)
        ensures
            final(self)@ == (EngineView { messages: summarized(summary@), ..old(self)@ }),
            r@ == summary_report(old_count as nat, summary@),
    {
        let mut messages: Vec<Message> = Vec::new();
        messages.push(Message::user("Here is a summary of our conversation so far:"));
        messages.push(Message::assistant_text(summary));
        assert(message_views(messages@) =~= summarized(summary@));
        self.messages = messages;
        let mut report = "Compacted ".to_owned();
        report.append(text::to_decimal(old_count as u64).as_str());
        report.append(" messages into summary.\n\n\u{1b}[2m");
        report.append(summary);
        report.append("\u{1b}[0m");
        report
    }
}

proof fn lemma_snip_counts(messages: Seq<MessageView>, at: int)
    requires
        snip_point(messages, 10) == Some(at),
    ensures
        0 < at < messages.len(),
        snipped(messages, at).len() == messages.len() - at + 1,
{
    lemma_cut_bound(messages, messages.len() - 10);
}

proof fn lemma_cut_bound(messages: Seq<MessageView>, k: int)
    requires
        k >= 0,
    ensures
        0 <= crate::compact::safe_cut(messages, k) <= k,
    decreases k,
{
    if k > 0 && crate::pairing::has_results(messages[k]) {
        lemma_cut_bound(messages, k - 1);
    }
}

/// How far the collecting of a summary has come.
pub enum SummaryStep {
    /// More is to come.
    Listen,
    /// The summary is complete.
    Complete,
    /// The summary has failed.
    Fail(ApiFailure),
}

/// How far the collecting of a summary has come, as a mathematical object.
pub enum SummaryStepView {
    Listen,
    Complete,
    Fail(FailureView),
}

impl View for SummaryStep {
    type V = SummaryStepView;

    open spec fn view(&self) -> SummaryStepView {
        match self {
            SummaryStep::Listen => SummaryStepView::Listen,
            SummaryStep::Complete => SummaryStepView::Complete,
            SummaryStep::Fail(failure) => SummaryStepView::Fail(failure@),
        }
    }
}

/// A summary with what an event of the response adds to it.
pub open spec fn summary_with(summary: Seq<char>, event: Option<EventView>) -> Seq<char> {
    match event {
        Some(EventView::Text(t)) => summary + t,
        _ => summary,
    }
}

/// How far an event of the response, or its end, brings the collecting of a summary.
pub open spec fn summary_step(event: Option<EventView>) -> SummaryStepView {
    match event {
        None => SummaryStepView::Fail(
            FailureView {
                kind: ApiFailureKind::Other,
                message: "Compact error: API stream ended without completion"@,
            },
        ),
        Some(EventView::Done) => SummaryStepView::Complete,
        Some(EventView::Error(failure)) => SummaryStepView::Fail(
            FailureView { kind: failure.kind, message: "Compact error: "@ + failure.message },
        ),
        Some(_) => SummaryStepView::Listen,
    }
}

/// Takes in an event of the response that summarizes a conversation, or that the response
/// has ended before it was complete.
pub fn summarize_conversation(summary: &mut String, event: Option<&ApiEvent>) -> (r: SummaryStep)
    ensures
        final(summary)@ == summary_with(
            old(summary)@,
            match event {
                Some(e) => Some(e@),
                None => None,
            },
        ),
        r@ == summary_step(
            match event {
                Some(e) => Some(e@),
                None => None,
            },
        ),
{
    let event = match event {
        Some(event) => event,
        None => {
            let message = "Compact error: API stream ended without completion".to_owned();
            return SummaryStep::Fail(ApiFailure::new(ApiFailureKind::Other, message));
        },
    };
    match event {
        ApiEvent::Text(t) => {
            summary.append(t.as_str());
            SummaryStep::Listen
        },
        ApiEvent::Done => SummaryStep::Complete,
        ApiEvent::Error(failure) => {
            let mut message = "Compact error: ".to_owned();
            message.append(failure.message.as_str());
            SummaryStep::Fail(ApiFailure::new(failure.kind, message))
        },
        _ => SummaryStep::Listen,
    }
}

/// The final text of a turn: what came after the last rejected attempt.
pub open spec fn final_text(events: Seq<UiView>) -> Seq<char>
    decreases events.len(),
{
    if events.len() == 0 {
        Seq::empty()
    } else {
        match events.last() {
            UiView::Text(t) => final_text(events.drop_last()) + t,
            UiView::Retry(_) => Seq::empty(),
            _ => final_text(events.drop_last()),
        }
    }
}

/// The hook that an event sets off.
pub open spec fn hook_of(event: UiView) -> Option<HookTrigger> {
    match event {
        UiView::ToolStart { .. } => Some(HookTrigger::OnToolStart),
        UiView::ToolResult { .. } => Some(HookTrigger::OnToolComplete),
        UiView::PermissionRequest { .. } => Some(HookTrigger::OnPermissionRequest),
        _ => None,
    }
}

/// The hook that an event sets off: one when a tool is called, one when it has its result,
/// and one when the user is asked.
pub fn hook_for(event: &StreamEvent) -> (r: Option<HookTrigger>)
    ensures
        r == hook_of(event@),
{
    match event {
        StreamEvent::ToolStart { .. } => Some(HookTrigger::OnToolStart),
        StreamEvent::ToolResult { .. } => Some(HookTrigger::OnToolComplete),
        StreamEvent::PermissionRequest { .. } => Some(HookTrigger::OnPermissionRequest),
        _ => None,
    }
}

/// The text of a turn after one more event.
pub open spec fn collected(text: Seq<char>, event: UiView) -> Seq<char> {
    match event {
        UiView::Text(t) => text + t,
        UiView::Retry(_) => Seq::empty(),
        _ => text,
    }
}

/// Takes an event into the text of a turn.
pub fn collect_text(text: &mut String, event: &StreamEvent)
    ensures
        final(text)@ == collected(old(text)@, event@),
{
    match event {
        StreamEvent::Text(t) => {
            text.append(t.as_str());
        },
        StreamEvent::Retry(_) => {
            *text = String::new();
        },
        _ => {},
    }
}

/// Collecting event by event gives the final text of a turn: text of an attempt that was
/// rejected is never part of it, and neither are notices.
pub proof fn law_final_text(events: Seq<UiView>, event: UiView)
    ensures
        final_text(events.push(event)) == collected(final_text(events), event),
        event is Retry ==> final_text(events.push(event)).len() == 0,
        event is Notice ==> final_text(events.push(event)) == final_text(events),
{
    assert(events.push(event).drop_last() =~= events);
}

/// How many more times a response can be asked for again.
pub open spec fn retry_budget(turn: TurnView, max_tokens: u32) -> int {
    let malformed = if turn.malformed_tool_retries < MAX_MALFORMED_TOOL_RETRIES {
        MAX_MALFORMED_TOOL_RETRIES - turn.malformed_tool_retries
    } else {
        0
    };
    let compactions = if turn.recovery_attempts < MAX_RECOVERY {
        MAX_RECOVERY - turn.recovery_attempts
    } else {
        0
    };
    let limit = if max_tokens < MAX_OUTPUT_TOKENS {
        MAX_OUTPUT_TOKENS - max_tokens
    } else {
        0
    };
    malformed + compactions + limit
}

/// Retries come to an end: each recovery from a failure leaves a smaller budget of them,
/// and the output limit, which is at least one token, is only ever raised, up to its
/// bound.
pub proof fn law_retries_end(turn: TurnView, max_tokens: u32, failure: FailureView, fresh: bool)
    requires
        max_tokens >= 1,
        recovery(turn, max_tokens, failure, fresh) is Some,
    ensures
        ({
            let outcome = recovery(turn, max_tokens, failure, fresh)->Some_0;
            &&& 0 <= retry_budget(outcome.turn, outcome.max_tokens) < retry_budget(
                turn,
                max_tokens,
            )
            &&& outcome.max_tokens >= max_tokens
            &&& failure.kind == ApiFailureKind::OutputLimitExceeded ==> max_tokens
                < outcome.max_tokens <= MAX_OUTPUT_TOKENS
        }),
{
}

/// A response is asked for again because of malformed arguments only while none of its
/// tool calls has surfaced, so no tool can run twice on its account.
pub proof fn law_retry_before_tools(
    turn: TurnView,
    max_tokens: u32,
    failure: FailureView,
    summary: Seq<char>,
)
    requires
        failure.kind == ApiFailureKind::MalformedToolArguments,
        turn.tool_uses.len() > 0,
    ensures
        after_event(turn, max_tokens, EventView::Error(failure), summary).step is Fail,
{
}

/// What a turn keeps as reasoning is reasoning, whatever event comes.
pub proof fn law_reasoning_only(
    turn: TurnView,
    max_tokens: u32,
    event: EventView,
    summary: Seq<char>,
)
    requires
        forall|i: int| 0 <= i < turn.reasoning.len() ==> (#[trigger] turn.reasoning[i]) is Reasoning,
    ensures
        ({
            let after = after_event(turn, max_tokens, event, summary).turn;
            forall|i: int|
                0 <= i < after.reasoning.len() ==> (#[trigger] after.reasoning[i]) is Reasoning
        }),
{
    let after = after_event(turn, max_tokens, event, summary).turn;
    assert forall|i: int| 0 <= i < after.reasoning.len() implies (
    #[trigger] after.reasoning[i]) is Reasoning by {
        if i < turn.reasoning.len() {
            assert(turn.reasoning[i] is Reasoning);
        }
    }
}

} // verus!
