//! What is told of a failure of a provider, and what is made of it.

use vstd::prelude::*;
use crate::api::diagnostics::{lossy_text, string_object, string_values, DiagnosticsView};
use crate::api::error::{
    body_details, declared_message, declared_type, error_object, error_text, event_failure,
    event_status, kind_of, status_line, ApiFailureKind,
};
use crate::json::{parsed_json, rendered_json, unsigned_number, JsonView};
use crate::text::{byte_len, cut, occurs, trimmed};
use crate::text_laws::{law_cut, lemma_at_end, lemma_between, lemma_in_front};

verus! {

/// A failure is that of a context that is too long where the status or the error type says so;
/// that of an output limit where the error type says so and the status does not say
/// otherwise; and any other is unclassified. Malformed arguments are no failure of the
/// provider.
pub proof fn law_failure_classes(status: Option<u16>, error_type: Option<Seq<char>>)
    ensures
        ({
            let kind = kind_of(status, error_type);
            let too_long = status == Some(413u16) || error_type == Some(
                "context_length_exceeded"@,
            ) || error_type == Some("string_above_max_length"@);
            let limited = error_type == Some("max_output_tokens"@) || error_type == Some(
                "max_tokens_exceeded"@,
            );
            &&& kind == ApiFailureKind::ContextExceeded <==> too_long
            &&& kind == ApiFailureKind::OutputLimitExceeded <==> limited && !too_long
            &&& kind == ApiFailureKind::Other <==> !limited && !too_long
        }),
{
}

/// The message of a failed request names the provider first, and tells the model, the status,
/// the error type and what the provider said, as far as there is any of it; where the rate is
/// limited it tells when to try again, if that is known.
pub proof fn law_error_told(
    provider: Seq<char>,
    model: Seq<char>,
    status: Option<u16>,
    retry_after: Option<Seq<char>>,
    error_type: Option<Seq<char>>,
    message: Option<Seq<char>>,
)
    ensures
        ({
            let told = error_text(provider, model, status, retry_after, error_type, message);
            &&& provider.is_prefix_of(told)
            &&& occurs(model, told)
            &&& status matches Some(code) ==> occurs(status_line(code), told)
            &&& error_type matches Some(t) ==> occurs(t, told)
            &&& message matches Some(m) ==> occurs(m, told)
            &&& status == Some(429u16) && retry_after is Some ==> retry_after->Some_0.is_suffix_of(
                told,
            )
            &&& status == Some(429u16) || status == Some(503u16) || status == Some(502u16)
                ==> told.len() > provider.len() + model.len()
        }),
{
    let told = error_text(provider, model, status, retry_after, error_type, message);
    let a = provider + " API error"@;
    let b = match status {
        Some(code) => a + " ("@ + status_line(code) + ")"@,
        None => a,
    };
    let c = b + " for model '"@ + model + "'"@;
    let d = match error_type {
        Some(t) => c + " ["@ + t + "]"@,
        None => c,
    };
    let e = match message {
        Some(m) => d + ": "@ + m,
        None => d,
    };
    let end = told.skip(e.len() as int);
    assert(told =~= e + end);
    lemma_between(b + " for model '"@, model, "'"@);
    let to_d = d.skip(c.len() as int);
    assert(d =~= c + to_d);
    lemma_in_front(model, c, to_d);
    let to_e = e.skip(d.len() as int);
    assert(e =~= d + to_e);
    lemma_in_front(model, d, to_e);
    lemma_in_front(model, e, end);
    if let Some(code) = status {
        let line = status_line(code);
        lemma_between(a + " ("@, line, ")"@);
        let to_c = c.skip(b.len() as int);
        assert(c =~= b + to_c);
        lemma_in_front(line, b, to_c);
        lemma_in_front(line, c, to_d);
        lemma_in_front(line, d, to_e);
        lemma_in_front(line, e, end);
    }
    if let Some(t) = error_type {
        lemma_between(c + " ["@, t, "]"@);
        lemma_in_front(t, d, to_e);
        lemma_in_front(t, e, end);
    }
    if let Some(m) = message {
        lemma_at_end(d + ": "@, m);
        lemma_in_front(m, e, end);
    }
    reveal_strlit(" for model '");
    assert(" for model '"@.len() > 0);
    if status == Some(429u16) {
        if let Some(t) = retry_after {
            assert(told == e + ". Retry after "@ + t);
            assert(told.subrange(told.len() - t.len(), told.len() as int) =~= t);
        }
    }
}

/// What the provider said in an error event is told to the user, where it stands in the error
/// itself, whether that stands in the event or in its response; and a context that is too
/// long is recognised by the type of the error.
pub proof fn law_error_event(event: JsonView, provider: Seq<char>, model: Seq<char>)
    ensures
        ({
            let failure = event_failure(event, provider, model);
            let nested = event.at("response"@).at("error"@);
            let error = if event.at("error"@) is Object {
                event.at("error"@)
            } else if nested is Object {
                nested
            } else {
                event
            };
            &&& provider.is_prefix_of(failure.message)
            &&& occurs(model, failure.message)
            &&& error.at("message"@) matches JsonView::Text(said) ==> occurs(said, failure.message)
            &&& error.at("metadata"@).at("error_type"@) == JsonView::Text(
                "context_length_exceeded"@,
            ) ==> failure.kind == ApiFailureKind::ContextExceeded
            &&& error.at("metadata"@).at("error_type"@) matches JsonView::Text(t) ==> occurs(
                t,
                failure.message,
            )
        }),
{
    law_error_told(
        provider,
        model,
        event_status(event),
        None,
        declared_type(event),
        declared_message(event),
    );
    law_failure_classes(
        event_status(event),
        declared_type(event),
    );
}

/// Whether the type that an event declares for its error is that one, in the error or beside it.
pub open spec fn declares(event: JsonView, error_type: Seq<char>) -> bool {
    declared_type(event) == Some(error_type)
}

/// Where an error event has a numeric code that can be a status, the user is told that status.
/// Where it has no numeric code, the status goes by the type of the error: an authentication
/// failure, a missing payment, a denied permission, a rate limit, and a provider that is
/// unavailable, overloaded or too slow are told apart, and no other type has one.
pub proof fn law_error_event_status(event: JsonView, provider: Seq<char>, model: Seq<char>)
    ensures
        ({
            let told = event_failure(event, provider, model).message;
            let code = error_object(event).at("code"@).uint();
            let none = code is None && event.at("code"@).uint() is None;
            &&& code matches Some(n) ==> (100 <= n <= 999 ==> occurs(status_line(n as u16), told))
            &&& none && declares(event, "authentication"@) ==> occurs(status_line(401), told)
            &&& none && declares(event, "payment_required"@) ==> occurs(status_line(402), told)
            &&& none && declares(event, "permission_denied"@) ==> occurs(status_line(403), told)
            &&& none && declares(event, "rate_limit_exceeded"@) ==> occurs(status_line(429), told)
            &&& none && declares(event, "provider_unavailable"@) ==> occurs(status_line(502), told)
            &&& none && declares(event, "provider_overloaded"@) ==> occurs(status_line(503), told)
            &&& none && declares(event, "timeout"@) ==> occurs(status_line(504), told)
            &&& none && declared_type(event) is None ==> event_status(event) is None
        }),
{
    law_error_told(
        provider,
        model,
        event_status(event),
        None,
        declared_type(event),
        declared_message(event),
    );
    reveal_strlit("authentication");
    reveal_strlit("payment_required");
    reveal_strlit("permission_denied");
    reveal_strlit("rate_limit_exceeded");
    reveal_strlit("provider_unavailable");
    reveal_strlit("provider_overloaded");
    reveal_strlit("timeout");
    assert("authentication"@.len() == 14);
    assert("payment_required"@.len() == 16);
    assert("permission_denied"@.len() == 17);
    assert("rate_limit_exceeded"@.len() == 19);
    assert("provider_unavailable"@.len() == 20);
    assert("provider_overloaded"@.len() == 19);
    assert("rate_limit_exceeded"@[0] == 'r');
    assert("provider_overloaded"@[0] == 'p');
    assert("timeout"@.len() == 7);
}

/// The type of an error is looked for under its own name first, in the error and then beside
/// it, and only then under the names that have other uses too; the message is that of the
/// error, else that of the event, else the reason for an incomplete response. Neither is
/// missed where it is there.
pub proof fn law_error_fields(event: JsonView)
    ensures
        ({
            let error = error_object(event);
            let response = event.at("response"@);
            let kind = declared_type(event);
            let named = error.at("metadata"@).at("error_type"@) is Text || error.at(
                "error_type"@,
            ) is Text || event.at("error_type"@) is Text || response.at("error_type"@) is Text;
            &&& kind is Some <==> named || error.at("type"@) is Text || error.at("code"@) is Text
            &&& !(error.at("metadata"@).at("error_type"@) is Text) && error.at(
                "error_type"@,
            ) is Text ==> kind == Some(error.at("error_type"@)->Text_0)
            &&& !named && error.at("type"@) is Text ==> kind == Some(error.at("type"@)->Text_0)
            &&& !named && !(error.at("type"@) is Text) && error.at("code"@) is Text ==> kind
                == Some(error.at("code"@)->Text_0)
        }),
        ({
            let error = error_object(event);
            let reason = event.at("response"@).at("incomplete_details"@).at("reason"@);
            let said = declared_message(event);
            &&& error.at("message"@) is Text ==> said == Some(error.at("message"@)->Text_0)
            &&& !(error.at("message"@) is Text) && event.at("message"@) is Text ==> said == Some(
                event.at("message"@)->Text_0,
            )
            &&& !(error.at("message"@) is Text) && !(event.at("message"@) is Text) ==> (said is Some
                <==> reason is Text)
            &&& !(error.at("message"@) is Text) && !(event.at("message"@) is Text)
                && reason is Text ==> said == Some(reason->Text_0)
        }),
{
}

/// What a provider says in the body of a failed request is its message where the body is JSON
/// that has one, and else the body itself without the whitespace around it, unless it is
/// blank; of a long one the beginning.
pub proof fn law_body_said(body: Seq<char>)
    ensures
        ({
            let said = body_details(body).1;
            &&& parsed_json(body) is Err && trimmed(body).len() > 0 ==> said == Some(
                cut(trimmed(body), 2048),
            )
            &&& parsed_json(body) is Err && trimmed(body).len() == 0 ==> said is None
            &&& parsed_json(body) is Err ==> body_details(body).0 is None
            &&& parsed_json(body) matches Ok(value) ==> (error_object(value).at(
                "message"@,
            ) matches JsonView::Text(m) ==> said == Some(cut(m, 2048)))
            &&& said matches Some(m) ==> byte_len(m) <= 2048
        }),
{
    match parsed_json(body) {
        Ok(value) => {
            if let Some(m) = declared_message(value) {
                law_cut(m, 2048);
            }
        },
        Err(_) => {
            law_cut(trimmed(body), 2048);
        },
    }
}

/// Of the frames of a stream the last four are kept for an explanation, the latest last, each
/// up to its limit; nothing else that is kept changes.
pub proof fn law_frames_kept(kept: DiagnosticsView, data: Seq<char>)
    requires
        kept.final_frames.len() <= 4,
    ensures
        ({
            let after = kept.with_frame(data);
            &&& after.final_frames.len() <= 4
            &&& after.final_frames.last() == cut(data, 2048)
            &&& byte_len(data) <= 2048 ==> after.final_frames.last() == data
            &&& kept.final_frames.len() < 4 ==> after.final_frames.drop_last()
                == kept.final_frames
            &&& kept.final_frames.len() == 4 ==> after.final_frames.drop_last()
                == kept.final_frames.drop_first()
            &&& after == (DiagnosticsView { final_frames: after.final_frames, ..kept })
        }),
{
    let after = kept.with_frame(data);
    if kept.final_frames.len() == 4 {
        assert(after.final_frames.drop_last() =~= kept.final_frames.drop_first());
    } else {
        assert(after.final_frames.drop_last() =~= kept.final_frames);
    }
}

/// Of the bytes that a stream ends with in the middle of a frame the beginning is kept, and
/// nothing else changes; where there are none, nothing changes at all.
pub proof fn law_tail_kept(kept: DiagnosticsView, bytes: Seq<u8>)
    ensures
        ({
            let after = kept.with_tail(bytes);
            &&& after == (DiagnosticsView { partial_tail: after.partial_tail, ..kept })
            &&& bytes.len() == 0 ==> after == kept
            &&& bytes.len() > 0 ==> {
                &&& after.partial_tail matches Some(tail)
                &&& tail.is_prefix_of(lossy_text(bytes))
                &&& byte_len(tail) <= 2048
            }
            &&& bytes.len() > 0 && byte_len(lossy_text(bytes)) <= 2048 ==> after.partial_tail
                == Some(lossy_text(bytes))
        }),
{
    law_cut(lossy_text(bytes), 2048);
}

/// Whether a value holds what is known of a stream: its status, its headers by name, the last
/// frames in order, and what came behind them.
pub open spec fn tells(value: JsonView, known: DiagnosticsView) -> bool {
    &&& value.at("status"@) == JsonView::Number(unsigned_number(known.status as u64))
    &&& value.at("final_sse_frames"@) matches JsonView::Array(frames)
    &&& frames.len() == known.final_frames.len()
    &&& forall|i: int|
        0 <= i < frames.len() ==> (#[trigger] frames[i]) == JsonView::Text(known.final_frames[i])
    &&& value.at("partial_tail"@) == match known.partial_tail {
        Some(tail) => JsonView::Text(tail),
        None => JsonView::Null,
    }
    &&& forall|i: int|
        0 <= i < known.headers.len() && is_last_of_name(known.headers, i) ==> value.at(
            "headers"@,
        ).at((#[trigger] known.headers[i]).0) == JsonView::Text(known.headers[i].1)
}

/// Whether no later header has the name of the one at `i`.
pub open spec fn is_last_of_name(headers: Seq<(Seq<char>, Seq<char>)>, i: int) -> bool {
    forall|j: int| i < j < headers.len() ==> (#[trigger] headers[j]).0 != headers[i].0
}

proof fn lemma_header_told(headers: Seq<(Seq<char>, Seq<char>)>, i: int)
    requires
        0 <= i < headers.len(),
        is_last_of_name(headers, i),
    ensures
        JsonView::Object(string_object(headers)).at(headers[i].0) == JsonView::Text(headers[i].1),
    decreases headers.len(),
{
    let init = headers.drop_last();
    if i < init.len() {
        assert(init[i] == headers[i]);
        assert(headers[headers.len() - 1].0 != headers[i].0);
        assert forall|j: int| i < j < init.len() implies (#[trigger] init[j]).0 != init[i].0 by {
            assert(init[j] == headers[j]);
        }
        lemma_header_told(init, i);
    } else {
        assert(headers[i] == headers.last());
    }
}

/// What is told of a stream that failed is all that is known of it.
pub proof fn law_diagnostics_told(known: DiagnosticsView)
    ensures
        exists|value: JsonView|
            #[trigger] rendered_json(value) == known.rendered() && tells(value, known),
{
    let value = JsonView::Object(
        map![
            "status"@ => JsonView::Number(unsigned_number(known.status as u64)),
            "headers"@ => JsonView::Object(string_object(known.headers)),
            "final_sse_frames"@ => JsonView::Array(string_values(known.final_frames)),
            "partial_tail"@ => match known.partial_tail {
                Some(t) => JsonView::Text(t),
                None => JsonView::Null,
            },
        ],
    );
    reveal_strlit("status");
    reveal_strlit("headers");
    reveal_strlit("final_sse_frames");
    reveal_strlit("partial_tail");
    assert("status"@.len() == 6);
    assert("headers"@.len() == 7);
    assert("final_sse_frames"@.len() == 16);
    assert("partial_tail"@.len() == 12);
    assert(rendered_json(value) == known.rendered());
    assert(value.at("headers"@) == JsonView::Object(string_object(known.headers)));
    assert forall|i: int|
        0 <= i < known.headers.len() && is_last_of_name(known.headers, i) implies value.at(
        "headers"@,
    ).at((#[trigger] known.headers[i]).0) == JsonView::Text(known.headers[i].1) by {
        lemma_header_told(known.headers, i);
    }
}

} // verus!
