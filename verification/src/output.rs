//! What a one-shot request gives back, and its transcript.

use vstd::prelude::*;
use crate::api::types::Message;
use crate::cost::{capped, CostTracker, UsageSummary};
use crate::json::Json;

verus! {

/// What a one-shot request gives back.
pub struct OneShotOutput<'a> {
    pub schema_version: u8,
    pub result: &'a str,
    pub model: &'a str,
    pub usage: UsageSummary,
}

/// What a usage summary says of a session.
pub open spec fn summarizes(usage: UsageSummary, cost: CostTracker) -> bool {
    usage == (UsageSummary {
        input_tokens: cost.input_tokens,
        output_tokens: cost.output_tokens,
        cache_read_tokens: cost.cache_read_tokens,
        cache_creation_tokens: cost.cache_creation_tokens,
        cost: if cost.reported is Some || cost.pricing is Some {
            Some(capped(cost.total()))
        } else {
            None
        },
    })
}

impl<'a> OneShotOutput<'a> {
    /// The result of a request, with its model and usage.
    pub fn new(result: &'a str, model: &'a str, cost: &CostTracker) -> (r: OneShotOutput<'a>)
        ensures
            r.schema_version == 1,
            r.result@ == result@,
            r.model@ == model@,
            summarizes(r.usage, *cost),
    {
        OneShotOutput { schema_version: 1, result, model, usage: cost.usage_summary() }
    }
}

/// A tool invocation in a transcript.
pub struct ToolTraceEntry {
    pub id: String,
    pub name: String,
    pub input: Json,
    pub output: String,
    pub is_error: bool,
    pub read_only: bool,
    pub started_after_ms: u64,
    pub duration_ms: u64,
}

/// The usage of a request to the model.
#[derive(Debug, Clone, Copy, PartialEq, Eq, Structural)]
pub struct ModelRoundUsage {
    pub input_tokens: u64,
    pub output_tokens: u64,
    pub cache_read_tokens: u64,
    pub cache_creation_tokens: u64,
    pub cost: Option<u128>,
}

/// A request to the model in a transcript.
pub struct ModelTraceEntry {
    pub index: usize,
    pub started_after_ms: u64,
    pub duration_ms: u64,
    pub status: String,
    pub usage: Option<ModelRoundUsage>,
}

/// How long a request took.
pub struct ExecutionTiming {
    pub total_duration_ms: u64,
    pub model_rounds: Vec<ModelTraceEntry>,
}

/// How a request ended.
#[allow(inconsistent_fields)]
pub enum TranscriptOutcome<'a> {
    Completed { result: &'a str },
    Error { message: &'a str },
}

/// The transcript of a one-shot request.
pub struct OneShotTranscript<'a> {
    pub schema_version: u8,
    pub model: &'a str,
    pub outcome: TranscriptOutcome<'a>,
    pub usage: UsageSummary,
    pub messages: &'a [Message],
    pub tool_trace: &'a [ToolTraceEntry],
    pub timing: ExecutionTiming,
}

impl<'a> OneShotTranscript<'a> {
    /// The transcript of a request that gave a result or an error.
    pub fn new(
        model: &'a str,
        cost: &CostTracker,
        messages: &'a [Message],
        tool_trace: &'a [ToolTraceEntry],
        timing: ExecutionTiming,
        result: Option<&'a str>,
        error: Option<&'a str>,
    ) -> (r: OneShotTranscript<'a>)
        requires
            result is Some <==> error is None,
        ensures
            r.schema_version == 2,
            r.model@ == model@,
            error matches Some(e) ==> (r.outcome matches TranscriptOutcome::Error { message }
                && message@ == e@),
            result matches Some(t) ==> (r.outcome matches TranscriptOutcome::Completed { result }
                && result@ == t@),
            summarizes(r.usage, *cost),
            r.messages == messages,
            r.tool_trace == tool_trace,
            r.timing == timing,
    {
        let outcome = match error {
            Some(message) => TranscriptOutcome::Error { message },
            None => TranscriptOutcome::Completed {
                result: match result {
                    Some(t) => t,
                    None => "",
                },
            },
        };
        OneShotTranscript {
            schema_version: 2,
            model,
            outcome,
            usage: cost.usage_summary(),
            messages,
            tool_trace,
            timing,
        }
    }
}

} // verus!
