//! One batch of tool calls. Calls that only read and are allowed run at once; the others
//! run in order, each as it is decided on. Every call gets exactly one result.

use vstd::prelude::*;
use vstd::string::StringExecFns;
use crate::api::types::{block_views, blocks_of, BlockView, ContentBlock, MessageView};
use crate::compact::{kept_output, truncate_tool_output};
use crate::pairing::{
    lemma_ids_of_results, lemma_ids_of_uses, lemma_open_after_push, lemma_use_ids_concat, paired,
    result_ids, use_ids,
};
use crate::permissions::{CheckerView, PermissionChecker, PermissionResult, ResultView};
use crate::query::{
    interrupted_blocks, recorded, tool_call_views, ui_views, use_blocks, OutputView, StreamEvent,
    ToolCall, ToolCallView, ToolOutput, TurnView, UiView, INTERRUPTED_BY_USER,
    SKIPPED_FOR_STEERING,
};
use crate::text;

verus! {

/// A batch of tool calls and what has come of them.
pub struct ToolBatch {
    calls: Vec<ToolCall>,
    outputs: Vec<Option<ToolOutput>>,
    interrupted: bool,
    interactive: bool,
}

/// A batch as a mathematical object.
pub struct BatchView {
    pub calls: Seq<ToolCallView>,
    /// The output of each call that has one.
    pub outputs: Seq<Option<OutputView>>,
    /// Whether a call was cut off by cancellation.
    pub interrupted: bool,
    /// Whether there is a user to ask.
    pub interactive: bool,
}

/// The view of an optional output.
pub open spec fn output_option(output: Option<ToolOutput>) -> Option<OutputView> {
    match output {
        Some(o) => Some(o@),
        None => None,
    }
}

/// The views of optional outputs.
pub open spec fn output_views(outputs: Seq<Option<ToolOutput>>) -> Seq<Option<OutputView>> {
    Seq::new(outputs.len(), |i: int| output_option(outputs[i]))
}

impl View for ToolBatch {
    type V = BatchView;

    closed spec fn view(&self) -> BatchView {
        BatchView {
            calls: tool_call_views(self.calls@),
            outputs: output_views(self.outputs@),
            interrupted: self.interrupted,
            interactive: self.interactive,
        }
    }
}

/// What is done about a call.
pub enum ToolStep {
    /// It has its output.
    Settled,
    /// It runs.
    Run,
    /// The user is asked.
    Ask { message: String, diff: Option<String> },
}

/// What is done about a call, as a mathematical object.
pub enum ToolStepView {
    Settled,
    Run,
    Ask { message: Seq<char>, diff: Option<Seq<char>> },
}

impl View for ToolStep {
    type V = ToolStepView;

    open spec fn view(&self) -> ToolStepView {
        match self {
            ToolStep::Settled => ToolStepView::Settled,
            ToolStep::Run => ToolStepView::Run,
            ToolStep::Ask { message, diff } => ToolStepView::Ask {
                message: message@,
                diff: crate::api::types::text_option(*diff),
            },
        }
    }
}

/// An output that reports an error.
pub open spec fn error_output(content: Seq<char>) -> OutputView {
    OutputView { content, is_error: true }
}

impl BatchView {
    /// Each call has a place for its output.
    pub open spec fn wf(self) -> bool {
        self.outputs.len() == self.calls.len()
    }

    /// A batch of which nothing has run.
    pub open spec fn fresh(calls: Seq<ToolCallView>, interactive: bool) -> BatchView {
        BatchView {
            calls,
            outputs: Seq::new(calls.len(), |i: int| None),
            interrupted: false,
            interactive,
        }
    }

    /// The batch after the output of a call.
    pub open spec fn with_output(self, i: int, output: OutputView) -> BatchView {
        BatchView { outputs: self.outputs.update(i, Some(output)), ..self }
    }

    /// Whether every call has its output.
    pub open spec fn settled(self) -> bool {
        forall|i: int| 0 <= i < self.outputs.len() ==> (#[trigger] self.outputs[i]) is Some
    }

    /// Whether a call is up for a decision.
    pub open spec fn undecided(self, i: int, cancelled: bool, steering_pending: bool) -> bool {
        self.outputs[i] is None && !cancelled && !steering_pending
    }

    /// The batch after a call was decided on, and what is done about it. Cancellation
    /// interrupts the call, a steering message supersedes it, and what cannot be asked
    /// is denied.
    pub open spec fn decided(
        self,
        i: int,
        checker: CheckerView,
        is_read_only: bool,
        cancelled: bool,
        steering_pending: bool,
    ) -> (BatchView, ToolStepView) {
        if self.outputs[i] is Some {
            (self, ToolStepView::Settled)
        } else if cancelled {
            (
                BatchView { interrupted: true, ..self }.with_output(
                    i,
                    error_output(INTERRUPTED_BY_USER@),
                ),
                ToolStepView::Settled,
            )
        } else if steering_pending {
            (self.with_output(i, error_output(SKIPPED_FOR_STEERING@)), ToolStepView::Settled)
        } else {
            match checker.verdict(self.calls[i].name, self.calls[i].input, is_read_only) {
                ResultView::Allow => (self, ToolStepView::Run),
                ResultView::Deny(reason) => (
                    self.with_output(i, error_output("Permission denied: "@ + reason)),
                    ToolStepView::Settled,
                ),
                ResultView::Ask { message, diff } => if self.interactive {
                    (self, ToolStepView::Ask { message, diff })
                } else {
                    (
                        self.with_output(
                            i,
                            error_output(
                                "Permission denied: "@ + message
                                    + " (one-shot mode has no prompt; set permission_mode in config.toml to allow)"@,
                            ),
                        ),
                        ToolStepView::Settled,
                    )
                },
            }
        }
    }
}

/// Whether a call runs at once with others: it only reads, and it is allowed without a
/// question.
pub open spec fn runs_at_once(call: ToolCallView, checker: CheckerView, read_only: bool) -> bool {
    read_only && checker.verdict(call.name, call.input, true) is Allow
}

/// The places of the first `n` calls that run at once.
pub open spec fn at_once(
    calls: Seq<ToolCallView>,
    checker: CheckerView,
    read_only: Seq<bool>,
    n: int,
) -> Seq<int>
    decreases n,
{
    if n <= 0 {
        Seq::empty()
    } else {
        let before = at_once(calls, checker, read_only, n - 1);
        if runs_at_once(calls[n - 1], checker, read_only[n - 1]) {
            before.push(n - 1)
        } else {
            before
        }
    }
}

/// The tool result that an output makes.
pub open spec fn result_block(call: ToolCallView, output: OutputView) -> BlockView {
    BlockView::ToolResult {
        tool_use_id: call.id,
        content: kept_output(output.content),
        is_error: if output.is_error {
            Some(true)
        } else {
            None
        },
    }
}

/// The tool results of a batch, in the order of its calls.
pub open spec fn result_blocks(calls: Seq<ToolCallView>, outputs: Seq<Option<OutputView>>) -> Seq<
    BlockView,
> {
    Seq::new(calls.len(), |i: int| result_block(calls[i], outputs[i]->Some_0))
}

/// The events that report the results of a batch.
pub open spec fn result_events(outputs: Seq<Option<OutputView>>) -> Seq<UiView> {
    Seq::new(
        outputs.len(),
        |i: int| UiView::ToolResult { is_error: outputs[i]->Some_0.is_error },
    )
}

impl ToolBatch {
    /// A batch of which nothing has run.
    pub fn new(calls: Vec<ToolCall>, interactive: bool) -> (r: ToolBatch)
        ensures
            r@ == BatchView::fresh(tool_call_views(calls@), interactive),
            r@.wf(),
    {
        let mut outputs: Vec<Option<ToolOutput>> = Vec::new();
        let mut i: usize = 0;
        while i < calls.len()
            invariant
                i == outputs@.len(),
                i <= calls@.len(),
                forall|k: int| 0 <= k < i ==> (#[trigger] outputs@[k]) is None,
            decreases calls.len() - i,
        {
            outputs.push(None);
            i = i + 1;
        }
        let r = ToolBatch { calls, outputs, interrupted: false, interactive };
        assert(r@.outputs =~= BatchView::fresh(tool_call_views(calls@), interactive).outputs);
        r
    }

    /// The calls of the batch.
    pub fn calls(&self) -> (r: &Vec<ToolCall>)
        ensures
            tool_call_views(r@) == self@.calls,
    {
        &self.calls
    }

    /// The places of the calls that run at once, given which tools only read. None does
    /// once the turn is cancelled or a steering message waits.
    pub fn parallel(
        &self,
        checker: &PermissionChecker,
        read_only: &Vec<bool>,
        cancelled: bool,
        steering_pending: bool,
    ) -> (r: Vec<usize>)
        requires
            read_only@.len() == self@.calls.len(),
        ensures
            r@.map_values(|i: usize| i as int) == if cancelled || steering_pending {
                Seq::empty()
            } else {
                at_once(self@.calls, checker@, read_only@, self@.calls.len() as int)
            },
    {
        let ghost calls = self@.calls;
        let mut out: Vec<usize> = Vec::new();
        let mut i: usize = 0;
        assert(out@.map_values(|i: usize| i as int) =~= Seq::empty());
        if cancelled || steering_pending {
            return out;
        }
        while i < self.calls.len()
            invariant
                i <= self.calls@.len(),
                calls == tool_call_views(self.calls@),
                read_only@.len() == calls.len(),
                out@.map_values(|i: usize| i as int) == at_once(
                    calls,
                    checker@,
                    read_only@,
                    i as int,
                ),
            decreases self.calls.len() - i,
        {
            let allowed = read_only[i] && match checker.check(
                self.calls[i].name.as_str(),
                &self.calls[i].input,
                true,
            ) {
                PermissionResult::Allow => true,
                _ => false,
            };
            if allowed {
                let ghost before = out@.map_values(|i: usize| i as int);
                out.push(i);
                assert(out@.map_values(|i: usize| i as int) =~= before.push(i as int));
            }
            i = i + 1;
        }
        out
    }

    /// Records the output of a call.
    pub fn record(&mut self, i: usize, output: ToolOutput)
        requires
            old(self)@.wf(),
            i < old(self)@.calls.len(),
        ensures
            final(self)@ == old(self)@.with_output(i as int, output@),
            final(self)@.wf(),
    {
        self.outputs[i] = Some(output);
        assert(self@.outputs =~= old(self)@.with_output(i as int, output@).outputs);
    }

    fn settle(&mut self, i: usize, content: String)
        requires
            old(self)@.wf(),
            i < old(self)@.calls.len(),
        ensures
            final(self)@ == old(self)@.with_output(i as int, error_output(content@)),
            final(self)@.wf(),
    {
        self.record(i, ToolOutput { content, is_error: true });
    }

    /// Decides on a call: whether it runs, is asked about, or has its output already.
    pub fn decide(
        &mut self,
        i: usize,
        checker: &PermissionChecker,
        is_read_only: bool,
        cancelled: bool,
        steering_pending: bool,
    ) -> (r: ToolStep)
        requires
            old(self)@.wf(),
            i < old(self)@.calls.len(),
            old(self)@.undecided(i as int, cancelled, steering_pending) ==> checker@.answerable(
                old(self)@.calls[i as int].name,
                old(self)@.calls[i as int].input,
                is_read_only,
            ),
        ensures
            (final(self)@, r@) == old(self)@.decided(
                i as int,
                checker@,
                is_read_only,
                cancelled,
                steering_pending,
            ),
            final(self)@.wf(),
    {
        assert(self@.outputs[i as int] == output_option(self.outputs@[i as int]));
        if self.outputs[i].is_some() {
            return ToolStep::Settled;
        }
        if cancelled {
            self.interrupted = true;
            self.settle(i, INTERRUPTED_BY_USER.to_owned());
            return ToolStep::Settled;
        }
        if steering_pending {
            self.settle(i, SKIPPED_FOR_STEERING.to_owned());
            return ToolStep::Settled;
        }
        match checker.check(self.calls[i].name.as_str(), &self.calls[i].input, is_read_only) {
            PermissionResult::Allow => ToolStep::Run,
            PermissionResult::Deny(reason) => {
                let mut content = "Permission denied: ".to_owned();
                content.append(reason.as_str());
                self.settle(i, content);
                ToolStep::Settled
            },
            PermissionResult::Ask { message, diff } => {
                if self.interactive {
                    ToolStep::Ask { message, diff }
                } else {
                    let mut content = "Permission denied: ".to_owned();
                    content.append(message.as_str());
                    content.append(
                        " (one-shot mode has no prompt; set permission_mode in config.toml to allow)",
                    );
                    self.settle(i, content);
                    ToolStep::Settled
                }
            },
        }
    }

    /// The results of the batch in the order of its calls, the events that report them,
    /// and whether the batch was interrupted.
    pub fn execute_tool_batch(&self, cancelled: bool) -> (r: (
        Vec<ContentBlock>,
        Vec<StreamEvent>,
        bool,
    ))
        requires
            self@.wf(),
            self@.settled(),
        ensures
            block_views(r.0@) == result_blocks(self@.calls, self@.outputs),
            ui_views(r.1@) == result_events(self@.outputs),
            r.2 == (self@.interrupted || cancelled),
    {
        let ghost calls = self@.calls;
        let ghost outputs = self@.outputs;
        let mut blocks: Vec<ContentBlock> = Vec::new();
        let mut events: Vec<StreamEvent> = Vec::new();
        let mut i: usize = 0;
        while i < self.calls.len()
            invariant
                i <= self.calls@.len(),
                i == blocks@.len(),
                i == events@.len(),
                self.outputs@.len() == self.calls@.len(),
                calls == tool_call_views(self.calls@),
                outputs == output_views(self.outputs@),
                forall|k: int| 0 <= k < outputs.len() ==> (#[trigger] outputs[k]) is Some,
                forall|k: int|
                    0 <= k < i ==> (#[trigger] blocks@[k])@ == result_blocks(calls, outputs)[k],
                forall|k: int|
                    0 <= k < i ==> (#[trigger] events@[k])@ == result_events(outputs)[k],
            decreases self.calls.len() - i,
        {
            assert(outputs[i as int] is Some);
            match &self.outputs[i] {
                Some(output) => {
                    let (content, was_truncated) = truncate_tool_output(output.content.as_str());
                    events.push(StreamEvent::ToolResult { is_error: output.is_error });
                    blocks.push(
                        ContentBlock::ToolResult {
                            tool_use_id: self.calls[i].id.clone(),
                            content,
                            is_error: if output.is_error {
                                Some(true)
                            } else {
                                None
                            },
                        },
                    );
                },
                None => {},
            }
            i = i + 1;
        }
        assert(block_views(blocks@) =~= result_blocks(calls, outputs));
        assert(ui_views(events@) =~= result_events(outputs));
        (blocks, events, self.interrupted || cancelled)
    }
}

/// Every call gets exactly one result, in the order of the calls.
pub proof fn law_one_result_each(calls: Seq<ToolCallView>, outputs: Seq<Option<OutputView>>)
    requires
        outputs.len() == calls.len(),
    ensures
        result_ids(result_blocks(calls, outputs)).len() == calls.len(),
        forall|i: int|
            0 <= i < calls.len() ==> result_ids(result_blocks(calls, outputs))[i] == calls[i].id,
        use_ids(result_blocks(calls, outputs)).len() == 0,
{
    lemma_ids_of_results(result_blocks(calls, outputs));
}

/// Going through a batch call by call leaves no call without a decision: once a call was
/// decided on it has its output, runs, or is asked about, and what had an output keeps it.
pub proof fn law_decisions_keep_outputs(
    batch: BatchView,
    i: int,
    checker: CheckerView,
    is_read_only: bool,
    cancelled: bool,
    steering_pending: bool,
    k: int,
)
    requires
        batch.wf(),
        0 <= i < batch.calls.len(),
        0 <= k < batch.calls.len(),
    ensures
        ({
            let (after, step) = batch.decided(
                i,
                checker,
                is_read_only,
                cancelled,
                steering_pending,
            );
            &&& after.wf()
            &&& after.calls == batch.calls
            &&& batch.outputs[k] is Some ==> after.outputs[k] == batch.outputs[k]
            &&& k != i ==> after.outputs[k] == batch.outputs[k]
            &&& step is Settled ==> after.outputs[i] is Some
            &&& cancelled || steering_pending ==> step is Settled
        }),
{
}

/// The ids in the assistant message of a turn are those of its calls.
pub proof fn lemma_reasoning_has_no_ids(turn: TurnView)
    requires
        forall|i: int| 0 <= i < turn.reasoning.len() ==> (#[trigger] turn.reasoning[i]) is Reasoning,
    ensures
        use_ids(turn.blocks()) == Seq::new(turn.tool_uses.len(), |i: int| turn.tool_uses[i].id),
        result_ids(turn.blocks()).len() == 0,
{
    let spoken = if turn.text.len() > 0 {
        turn.reasoning.push(BlockView::Text { text: turn.text })
    } else {
        turn.reasoning
    };
    lemma_plain_blocks(spoken);
    lemma_ids_of_uses(use_blocks(turn.tool_uses));
    lemma_use_ids_concat(spoken, use_blocks(turn.tool_uses));
    assert(use_ids(turn.blocks()) =~= Seq::new(
        turn.tool_uses.len(),
        |i: int| turn.tool_uses[i].id,
    ));
}

proof fn lemma_plain_blocks(blocks: Seq<BlockView>)
    requires
        forall|i: int|
            0 <= i < blocks.len() ==> (#[trigger] blocks[i]) is Reasoning || blocks[i] is Text,
    ensures
        use_ids(blocks).len() == 0,
        result_ids(blocks).len() == 0,
    decreases blocks.len(),
{
    if blocks.len() > 0 {
        let init = blocks.drop_last();
        assert forall|i: int| 0 <= i < init.len() implies (#[trigger] init[i]) is Reasoning
            || init[i] is Text by {
            assert(init[i] == blocks[i]);
        }
        lemma_plain_blocks(init);
        let last = blocks[blocks.len() - 1];
        assert(last is Reasoning || last is Text);
    }
}

proof fn lemma_ids_set(a: Seq<Seq<char>>, b: Seq<Seq<char>>)
    requires
        a.len() == b.len(),
        forall|i: int| 0 <= i < a.len() ==> a[i] == b[i],
    ensures
        a.to_set() == b.to_set(),
{
    assert(a =~= b);
}

/// Whether what a turn keeps as reasoning is reasoning.
pub open spec fn reasoning_only(turn: TurnView) -> bool {
    forall|i: int| 0 <= i < turn.reasoning.len() ==> (#[trigger] turn.reasoning[i]) is Reasoning
}

/// A turn keeps a valid conversation valid. A response that was cut off leaves it valid,
/// since its calls are answered as interrupted; so does a response without calls; and a
/// response with calls does once their results are recorded.
pub proof fn law_turn_keeps_pairs(
    messages: Seq<MessageView>,
    turn: TurnView,
    outputs: Seq<Option<OutputView>>,
)
    requires
        paired(messages),
        reasoning_only(turn),
        outputs.len() == turn.tool_uses.len(),
    ensures
        paired(recorded(messages, turn, true)),
        turn.tool_uses.len() == 0 ==> paired(recorded(messages, turn, false)),
        turn.tool_uses.len() > 0 ==> paired(
            recorded(messages, turn, false).push(
                blocks_of("user"@, result_blocks(turn.tool_uses, outputs)),
            ),
        ),
{
    let calls = turn.tool_uses;
    let ids = Seq::new(calls.len(), |i: int| calls[i].id);
    lemma_reasoning_has_no_ids(turn);
    let spoken = recorded(messages, turn, false);
    let assistant = blocks_of("assistant"@, turn.blocks());
    lemma_open_after_push(messages, assistant);
    if calls.len() == 0 {
        assert(ids.to_set() =~= Set::<Seq<char>>::empty());
        if turn.blocks().len() == 0 {
            assert(spoken == messages);
        }
    } else {
        assert(turn.blocks().len() > 0);
        let cut_off = interrupted_blocks(calls);
        lemma_ids_of_results(cut_off);
        lemma_ids_set(result_ids(cut_off), ids);
        lemma_open_after_push(spoken, blocks_of("user"@, cut_off));
        let results = result_blocks(calls, outputs);
        lemma_ids_of_results(results);
        lemma_ids_set(result_ids(results), ids);
        lemma_open_after_push(spoken, blocks_of("user"@, results));
    }
}

} // verus!
