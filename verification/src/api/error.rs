//! Failures of provider requests and their classification.

use vstd::prelude::*;
use vstd::string::StringExecFns;
use crate::json::{parsed_json, Json, JsonView};
use crate::text;
use crate::text::{cut, decimal, occurs, trimmed};

verus! {

/// What went wrong with a provider request, classified where the structured
/// response is still available.
#[derive(Debug, Clone, Copy, PartialEq, Eq, Structural)]
pub enum ApiFailureKind {
    /// The request exceeded the model's input context window.
    ContextExceeded,
    /// The response hit the output token limit.
    OutputLimitExceeded,
    /// The model emitted tool-call arguments that are not valid JSON.
    MalformedToolArguments,
    /// Anything not separately actionable.
    Other,
}

/// A provider failure: a classification that the turn loop matches on, and the
/// message that is shown to the user.
#[derive(Debug, PartialEq, Eq)]
pub struct ApiFailure {
    pub kind: ApiFailureKind,
    pub message: String,
}

/// A provider failure as a mathematical object.
pub struct FailureView {
    pub kind: ApiFailureKind,
    pub message: Seq<char>,
}

impl View for ApiFailure {
    type V = FailureView;

    open spec fn view(&self) -> FailureView {
        FailureView { kind: self.kind, message: self.message@ }
    }
}

impl ApiFailure {
    /// A failure of the given kind.
    pub fn new(kind: ApiFailureKind, message: String) -> (r: ApiFailure)
        ensures
            r@ == (FailureView { kind, message: message@ }),
    {
        ApiFailure { kind, message }
    }

    /// An unclassified failure.
    pub fn other(message: String) -> (r: ApiFailure)
        ensures
            r@ == (FailureView { kind: ApiFailureKind::Other, message: message@ }),
    {
        ApiFailure::new(ApiFailureKind::Other, message)
    }

    /// A response that hit the output token limit.
    pub fn output_limit_exceeded(message: String) -> (r: ApiFailure)
        ensures
            r@ == (FailureView { kind: ApiFailureKind::OutputLimitExceeded, message: message@ }),
    {
        ApiFailure::new(ApiFailureKind::OutputLimitExceeded, message)
    }

    /// Tool-call arguments that are not valid JSON.
    pub fn malformed_tool_arguments(message: String) -> (r: ApiFailure)
        ensures
            r@ == (FailureView { kind: ApiFailureKind::MalformedToolArguments, message: message@ }),
    {
        ApiFailure::new(ApiFailureKind::MalformedToolArguments, message)
    }

    /// Prefixes the message; the classification stays.
    pub fn prefixed(self, prefix: &str) -> (r: ApiFailure)
        ensures
            r@.kind == self@.kind,
            r@.message == prefix@ + ": "@ + self@.message,
    {
        let mut message = prefix.to_owned();
        message.append(": ");
        message.append(self.message.as_str());
        ApiFailure { kind: self.kind, message }
    }

    /// An equal failure.
    pub fn duplicate(&self) -> (r: ApiFailure)
        ensures
            r@ == self@,
    {
        ApiFailure { kind: self.kind, message: self.message.clone() }
    }
}

/// Whether the message of a reader error names malformed tool-call arguments.
pub open spec fn names_malformed_arguments(text: Seq<char>) -> bool {
    occurs("invalid arguments for"@, text) && occurs("tool call"@, text)
}

/// Classifies an error raised while reading a stream, by the few markers that the
/// stream readers themselves produce.
pub fn classify_reader_error(error: &str) -> (r: ApiFailure)
    ensures
        r@.message == error@,
        r@.kind == if names_malformed_arguments(error@) {
            ApiFailureKind::MalformedToolArguments
        } else {
            ApiFailureKind::Other
        },
{
    let malformed = text::contains(error, "invalid arguments for") && text::contains(
        error,
        "tool call",
    );
    let kind = if malformed {
        ApiFailureKind::MalformedToolArguments
    } else {
        ApiFailureKind::Other
    };
    ApiFailure::new(kind, error.to_owned())
}

/// The classification of an HTTP status and an error type that the provider declared.
pub open spec fn kind_of(status: Option<u16>, error_type: Option<Seq<char>>) -> ApiFailureKind {
    if status == Some(413u16) {
        ApiFailureKind::ContextExceeded
    } else if error_type == Some("context_length_exceeded"@) || error_type == Some(
        "string_above_max_length"@,
    ) {
        ApiFailureKind::ContextExceeded
    } else if error_type == Some("max_output_tokens"@) || error_type == Some(
        "max_tokens_exceeded"@,
    ) {
        ApiFailureKind::OutputLimitExceeded
    } else {
        ApiFailureKind::Other
    }
}

/// The characters of an optional string slice.
pub open spec fn str_option(s: Option<&str>) -> Option<Seq<char>> {
    match s {
        Some(t) => Some(t@),
        None => None,
    }
}

/// Classifies an HTTP status and an error type that the provider declared.
pub fn classify(status: Option<u16>, error_type: Option<&str>) -> (r: ApiFailureKind)
    ensures
        r == kind_of(status, str_option(error_type)),
{
    match status {
        Some(code) => if code == 413 {
            return ApiFailureKind::ContextExceeded;
        },
        None => {},
    }
    match error_type {
        Some(t) => if text::same(t, "context_length_exceeded") || text::same(
            t,
            "string_above_max_length",
        ) {
            ApiFailureKind::ContextExceeded
        } else if text::same(t, "max_output_tokens") || text::same(t, "max_tokens_exceeded") {
            ApiFailureKind::OutputLimitExceeded
        } else {
            ApiFailureKind::Other
        },
        None => ApiFailureKind::Other,
    }
}

/// The number and reason phrase of an HTTP status, as in "404 Not Found".
pub uninterp spec fn status_line(code: u16) -> Seq<char>;

/// `reqwest::StatusCode` prints its number, a space and the reason phrase. It exists for
/// the numbers from 100 to 999.
#[verifier::external_body]
pub(crate) fn status_text(code: u16) -> (r: String)
    requires
        100 <= code <= 999,
    ensures
        r@ == status_line(code),
        (decimal(code as nat) + " "@).is_prefix_of(r@),
{
    reqwest::StatusCode::from_u16(code).map(|status| status.to_string()).unwrap_or_default()
}

/// Whether a number is an HTTP status.
pub open spec fn is_status(code: int) -> bool {
    100 <= code <= 999
}

/// The object that describes the error in a provider's answer.
pub open spec fn error_object(value: JsonView) -> JsonView {
    let response = value.at("response"@);
    if value.at("error"@) is Object {
        value.at("error"@)
    } else if response.at("error"@) is Object {
        response.at("error"@)
    } else {
        value
    }
}

/// The first of two optional values that is there.
pub open spec fn first_of<T>(a: Option<T>, b: Option<T>) -> Option<T> {
    match a {
        Some(x) => Some(x),
        None => b,
    }
}

/// The error type that a provider's answer declares.
pub open spec fn declared_type(value: JsonView) -> Option<Seq<char>> {
    let error = error_object(value);
    first_of(
        error.at("metadata"@).at("error_type"@).text(),
        first_of(
            error.at("error_type"@).text(),
            first_of(
                value.at("error_type"@).text(),
                first_of(
                    value.at("response"@).at("error_type"@).text(),
                    first_of(error.at("type"@).text(), error.at("code"@).text()),
                ),
            ),
        ),
    )
}

/// The message in a provider's answer.
pub open spec fn declared_message(value: JsonView) -> Option<Seq<char>> {
    first_of(
        error_object(value).at("message"@).text(),
        first_of(
            value.at("message"@).text(),
            value.at("response"@).at("incomplete_details"@).at("reason"@).text(),
        ),
    )
}

/// The HTTP status that a provider's answer states.
pub open spec fn declared_status(value: JsonView) -> Option<u16> {
    match first_of(error_object(value).at("code"@).uint(), value.at("code"@).uint()) {
        Some(code) => if is_status(code as int) {
            Some(code as u16)
        } else {
            None
        },
        None => None,
    }
}

fn child<'a>(value: &'a Json, key: &str, null: &'a Json) -> (r: &'a Json)
    requires
        null@ == JsonView::Null,
    ensures
        r@ == value@.at(key@),
{
    match value.get(key) {
        Some(v) => v,
        None => null,
    }
}

fn is_object(value: &Json) -> (r: bool)
    ensures
        r == (value@ is Object),
{
    match value {
        Json::Object(_) => true,
        _ => false,
    }
}

fn error_part<'a>(value: &'a Json, null: &'a Json) -> (r: &'a Json)
    requires
        null@ == JsonView::Null,
    ensures
        r@ == error_object(value@),
{
    let direct = child(value, "error", null);
    if is_object(direct) {
        return direct;
    }
    let nested = child(child(value, "response", null), "error", null);
    if is_object(nested) {
        nested
    } else {
        value
    }
}

/// The error type and the message that a provider's answer declares.
pub fn extract_details(value: &Json) -> (r: (Option<String>, Option<String>))
    ensures
        crate::api::types::text_option(r.0) == declared_type(value@),
        crate::api::types::text_option(r.1) == declared_message(value@),
{
    let null = Json::Null;
    let response = child(value, "response", &null);
    let error = error_part(value, &null);
    let mut error_type = child(error, "metadata", &null).text_at("error_type");
    if error_type.is_none() {
        error_type = error.text_at("error_type");
    }
    if error_type.is_none() {
        error_type = value.text_at("error_type");
    }
    if error_type.is_none() {
        error_type = response.text_at("error_type");
    }
    if error_type.is_none() {
        error_type = error.text_at("type");
    }
    if error_type.is_none() {
        error_type = error.text_at("code");
    }
    let mut message = error.text_at("message");
    if message.is_none() {
        message = value.text_at("message");
    }
    if message.is_none() {
        message = child(response, "incomplete_details", &null).text_at("reason");
    }
    let found_type = match error_type {
        Some(t) => Some(t.to_owned()),
        None => None,
    };
    let found_message = match message {
        Some(t) => Some(t.to_owned()),
        None => None,
    };
    (found_type, found_message)
}

/// The HTTP status that a provider's answer states.
pub fn extract_status(value: &Json) -> (r: Option<u16>)
    ensures
        r == declared_status(value@),
{
    let null = Json::Null;
    let mut code = error_part(value, &null).uint_at("code");
    if code.is_none() {
        code = value.uint_at("code");
    }
    match code {
        Some(n) => if 100 <= n && n <= 999 {
            Some(n as u16)
        } else {
            None
        },
        None => None,
    }
}

/// The HTTP status that an error type stands for.
pub open spec fn type_status(error_type: Seq<char>) -> Option<u16> {
    if error_type == "authentication"@ {
        Some(401u16)
    } else if error_type == "payment_required"@ {
        Some(402u16)
    } else if error_type == "permission_denied"@ {
        Some(403u16)
    } else if error_type == "rate_limit_exceeded"@ {
        Some(429u16)
    } else if error_type == "provider_unavailable"@ {
        Some(502u16)
    } else if error_type == "provider_overloaded"@ {
        Some(503u16)
    } else if error_type == "timeout"@ {
        Some(504u16)
    } else {
        None
    }
}

/// The HTTP status that an error type stands for.
pub fn status_for_type(error_type: &str) -> (r: Option<u16>)
    ensures
        r == type_status(error_type@),
{
    if text::same(error_type, "authentication") {
        Some(401)
    } else if text::same(error_type, "payment_required") {
        Some(402)
    } else if text::same(error_type, "permission_denied") {
        Some(403)
    } else if text::same(error_type, "rate_limit_exceeded") {
        Some(429)
    } else if text::same(error_type, "provider_unavailable") {
        Some(502)
    } else if text::same(error_type, "provider_overloaded") {
        Some(503)
    } else if text::same(error_type, "timeout") {
        Some(504)
    } else {
        None
    }
}

/// The message of a failed request.
pub open spec fn error_text(
    provider: Seq<char>,
    model: Seq<char>,
    status: Option<u16>,
    retry_after: Option<Seq<char>>,
    error_type: Option<Seq<char>>,
    message: Option<Seq<char>>,
) -> Seq<char> {
    let named = provider + " API error"@;
    let with_status = match status {
        Some(code) => named + " ("@ + status_line(code) + ")"@,
        None => named,
    };
    let with_model = with_status + " for model '"@ + model + "'"@;
    let with_type = match error_type {
        Some(t) => with_model + " ["@ + t + "]"@,
        None => with_model,
    };
    let with_message = match message {
        Some(m) => with_type + ": "@ + m,
        None => with_type,
    };
    if status == Some(429u16) {
        match retry_after {
            Some(t) => with_message + ". Retry after "@ + t,
            None => with_message + ". Retry later or choose another model/provider"@,
        }
    } else if status == Some(503u16) || status == Some(502u16) {
        with_message + ". The provider may be unavailable; retry or choose another model"@
    } else {
        with_message
    }
}

/// The message of a failed request: what failed, what the provider said of it and,
/// where something can be done, what.
pub fn format_error(
    provider: &str,
    model: &str,
    status: Option<u16>,
    retry_after: Option<&str>,
    error_type: Option<&str>,
    message: Option<&str>,
) -> (r: String)
    requires
        status matches Some(code) ==> is_status(code as int),
    ensures
        r@ == error_text(
            provider@,
            model@,
            status,
            str_option(retry_after),
            str_option(error_type),
            str_option(message),
        ),
{
    let mut output = provider.to_owned();
    output.append(" API error");
    match status {
        Some(code) => {
            output.append(" (");
            output.append(status_text(code).as_str());
            output.append(")");
        },
        None => {},
    }
    output.append(" for model '");
    output.append(model);
    output.append("'");
    match error_type {
        Some(t) => {
            output.append(" [");
            output.append(t);
            output.append("]");
        },
        None => {},
    }
    match message {
        Some(m) => {
            output.append(": ");
            output.append(m);
        },
        None => {},
    }
    match status {
        Some(code) => {
            if code == 429 {
                match retry_after {
                    Some(t) => {
                        output.append(". Retry after ");
                        output.append(t);
                    },
                    None => {
                        output.append(". Retry later or choose another model/provider");
                    },
                }
            } else if code == 503 || code == 502 {
                output.append(
                    ". The provider may be unavailable; retry or choose another model",
                );
            }
        },
        None => {},
    }
    output
}

/// The string without the whitespace around it, unless nothing is left.
pub open spec fn nonempty_text(value: Seq<char>) -> Option<Seq<char>> {
    if trimmed(value).len() == 0 {
        None
    } else {
        Some(trimmed(value))
    }
}

/// The string without the whitespace around it, unless nothing is left.
pub fn nonempty(value: &str) -> (r: Option<&str>)
    ensures
        str_option(r) == nonempty_text(value@),
{
    let value = text::trim(value);
    if value.is_empty() {
        None
    } else {
        Some(value)
    }
}

/// What is said of a failed HTTP request: the error type and the message, read from
/// the body where that is JSON.
pub open spec fn body_details(body: Seq<char>) -> (Option<Seq<char>>, Option<Seq<char>>) {
    let (error_type, message) = match parsed_json(body) {
        Ok(value) => (declared_type(value), declared_message(value)),
        Err(_) => (None, nonempty_text(body)),
    };
    (
        error_type,
        match message {
            Some(m) => Some(cut(m, 2048)),
            None => None,
        },
    )
}

/// The failure of an HTTP request that was answered with a status that is no success.
pub fn http_error(
    status: u16,
    retry_after: Option<&str>,
    body: &str,
    provider: &str,
    model: &str,
) -> (r: ApiFailure)
    requires
        is_status(status as int),
    ensures
        r@.kind == kind_of(Some(status), body_details(body@).0),
        r@.message == error_text(
            provider@,
            model@,
            Some(status),
            str_option(retry_after),
            body_details(body@).0,
            body_details(body@).1,
        ),
{
    let (error_type, message) = match Json::parse(body) {
        Ok(value) => extract_details(&value),
        Err(_) => (
            None,
            match nonempty(body) {
                Some(m) => Some(m.to_owned()),
                None => None,
            },
        ),
    };
    let short: Option<String> = match message {
        Some(m) => Some(text::truncate_str(m.as_str(), 2048).to_owned()),
        None => None,
    };
    let type_ref: Option<&str> = match &error_type {
        Some(t) => Some(t.as_str()),
        None => None,
    };
    let message_ref: Option<&str> = match &short {
        Some(m) => Some(m.as_str()),
        None => None,
    };
    ApiFailure::new(
        classify(Some(status), type_ref),
        format_error(provider, model, Some(status), retry_after, type_ref, message_ref),
    )
}

/// The HTTP status of an error event: the one that it states, else the one that its
/// type stands for.
pub open spec fn event_status(event: JsonView) -> Option<u16> {
    first_of(
        declared_status(event),
        match declared_type(event) {
            Some(t) => type_status(t),
            None => None,
        },
    )
}

/// The failure that an error event in a stream reports.
pub open spec fn event_failure(event: JsonView, provider: Seq<char>, model: Seq<char>) -> FailureView {
    FailureView {
        kind: kind_of(event_status(event), declared_type(event)),
        message: error_text(
            provider,
            model,
            event_status(event),
            None,
            declared_type(event),
            declared_message(event),
        ),
    }
}

/// The failure that an error event in a stream reports.
pub fn stream_error(event: &Json, provider: &str, model: &str) -> (r: ApiFailure)
    ensures
        r@ == event_failure(event@, provider@, model@),
{
    let (error_type, message) = extract_details(event);
    let type_ref: Option<&str> = match &error_type {
        Some(t) => Some(t.as_str()),
        None => None,
    };
    let message_ref: Option<&str> = match &message {
        Some(m) => Some(m.as_str()),
        None => None,
    };
    let mut status = extract_status(event);
    if status.is_none() {
        status = match type_ref {
            Some(t) => status_for_type(t),
            None => None,
        };
    }
    ApiFailure::new(
        classify(status, type_ref),
        format_error(provider, model, status, None, type_ref, message_ref),
    )
}

} // verus!
