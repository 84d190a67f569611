//! The context window of a model, as its provider gives it.
//!
//! What the configuration sets wins. Else a provider that tells is asked, and its answer
//! is kept for a day; without an answer an older one, or what is built in, is used.

use vstd::prelude::*;
use vstd::string::StringExecFns;
use vstd::utf8::encode_utf8;
use crate::api::openai_compat::{strip_trailing_slashes, without_trailing_slashes};
use crate::api::types::text_option;
use crate::config::{ResolvedModel, ResolvedView};
use crate::json::{Json, JsonView};
use crate::model::ModelMetadata;
use crate::paths;
use crate::paths::joined_path;
use crate::text;
use crate::text::{ascii_lowered, hex};

verus! {

/// The version of the form in which answers are kept.
pub const CACHE_SCHEMA_VERSION: u32 = 1;

/// How many seconds an answer is fresh.
pub const CACHE_TTL_SECS: u64 = 86400;

/// The host of a URL.
pub uninterp spec fn url_host(url: Seq<char>) -> Option<Seq<char>>;

/// `url::Url::parse` reads a URL and `url::Url::host_str` gives its host; there is none
/// where the text is no URL or the URL has no host.
#[verifier::external_body]
pub(crate) fn host_of(url: &str) -> (r: Option<String>)
    ensures
        text_option(r) == url_host(url@),
{
    url::Url::parse(url).ok()?.host_str().map(|host| host.to_owned())
}

/// An answer that was kept.
#[derive(Debug)]
pub struct CacheEntry {
    pub schema_version: u32,
    pub model: String,
    pub context_window: usize,
    pub fetched_at_unix: u64,
}

/// An answer that was kept, as a mathematical object.
pub struct EntryView {
    pub schema_version: u32,
    pub model: Seq<char>,
    pub context_window: usize,
    pub fetched_at_unix: u64,
}

impl View for CacheEntry {
    type V = EntryView;

    open spec fn view(&self) -> EntryView {
        EntryView {
            schema_version: self.schema_version,
            model: self.model@,
            context_window: self.context_window,
            fetched_at_unix: self.fetched_at_unix,
        }
    }
}

/// Whether a kept answer can be used for a model.
pub open spec fn is_usable(entry: EntryView, model: Seq<char>) -> bool {
    entry.schema_version == CACHE_SCHEMA_VERSION && entry.model == model && entry.context_window > 0
}

/// Whether a kept answer can be used for a model.
pub fn usable(entry: &CacheEntry, model: &str) -> (r: bool)
    ensures
        r == is_usable(entry@, model@),
{
    entry.schema_version == CACHE_SCHEMA_VERSION && text::same(entry.model.as_str(), model)
        && entry.context_window > 0
}

/// Whether a kept answer is fresh. One from the future is.
pub open spec fn is_fresh(entry: EntryView, now: u64) -> bool {
    now - entry.fetched_at_unix <= CACHE_TTL_SECS
}

/// Whether a kept answer is fresh.
pub fn cache_is_fresh(entry: &CacheEntry, now: u64) -> (r: bool)
    ensures
        r == is_fresh(entry@, now),
{
    now <= entry.fetched_at_unix || now - entry.fetched_at_unix <= CACHE_TTL_SECS
}

/// Whether a host is that of OpenRouter.
pub open spec fn is_openrouter_host(host: Seq<char>) -> bool {
    host == "openrouter.ai"@ || ".openrouter.ai"@.is_suffix_of(host)
}

/// Whether the provider of a model is OpenRouter, given the host of its URL.
pub open spec fn is_openrouter_at(resolved: ResolvedView, host: Option<Seq<char>>) -> bool {
    ascii_lowered(resolved.binding.provider_name) == ascii_lowered("openrouter"@) || (host matches Some(
        h,
    ) && is_openrouter_host(h))
}

/// Whether the provider of a model is OpenRouter.
pub open spec fn from_openrouter(resolved: ResolvedView) -> bool {
    is_openrouter_at(
        resolved,
        match resolved.binding.base_url {
            Some(url) => url_host(url),
            None => None,
        },
    )
}

/// Whether the provider of a model is OpenRouter, given the host of its URL.
pub fn is_openrouter_given(resolved: &ResolvedModel, host: Option<&str>) -> (r: bool)
    ensures
        r == is_openrouter_at(resolved@, crate::api::error::str_option(host)),
{
    let by_host = match host {
        Some(h) => text::same(h, "openrouter.ai") || text::ends_with(h, ".openrouter.ai"),
        None => false,
    };
    text::same_ignoring_ascii_case(resolved.binding.provider_name.as_str(), "openrouter") || by_host
}

/// Whether the provider of a model is OpenRouter.
pub fn is_openrouter(resolved: &ResolvedModel) -> (r: bool)
    ensures
        r == from_openrouter(resolved@),
{
    let host = match &resolved.binding.base_url {
        Some(url) => host_of(url.as_str()),
        None => None,
    };
    match &host {
        Some(h) => is_openrouter_given(resolved, Some(h.as_str())),
        None => is_openrouter_given(resolved, None),
    }
}

/// Where the provider of a model is asked, or why it cannot be.
pub fn model_url(resolved: &ResolvedModel) -> (r: Result<String, String>)
    ensures
        match resolved@.binding.base_url {
            Some(base) => r matches Ok(url) && url@ == without_trailing_slashes(base) + "/model/"@
                + resolved@.binding.model,
            None => r matches Err(e) && e@ == "OpenRouter profile has no base URL"@,
        },
{
    match &resolved.binding.base_url {
        Some(base) => {
            let mut url = strip_trailing_slashes(base.as_str()).to_owned();
            url.append("/model/");
            url.append(resolved.binding.model.as_str());
            Ok(url)
        },
        None => Err("OpenRouter profile has no base URL".to_owned()),
    }
}

/// The context window in an answer.
pub open spec fn answered_window(body: JsonView) -> Option<usize> {
    match body.at("data"@).at("context_length"@).uint() {
        Some(n) => if 0 < n <= usize::MAX {
            Some(n as usize)
        } else {
            None
        },
        None => None,
    }
}

/// The context window in an answer, or why there is none.
pub fn context_length(body: &Json) -> (r: Result<usize, String>)
    ensures
        r is Ok <==> answered_window(body@) is Some,
        r matches Ok(n) ==> answered_window(body@) == Some(n),
        r matches Err(e) ==> e@ == "response omitted a positive data.context_length"@,
{
    let found = match body.get("data") {
        Some(data) => data.uint_at("context_length"),
        None => None,
    };
    match found {
        Some(n) => if n > 0 && n <= usize::MAX as u64 {
            return Ok(n as usize);
        },
        None => {},
    }
    Err("response omitted a positive data.context_length".to_owned())
}

/// The metadata with another context window.
pub open spec fn windowed(metadata: ModelMetadata, context_window: usize) -> ModelMetadata {
    ModelMetadata { context_window, ..metadata }
}

/// A kept answer that can be used.
pub open spec fn kept(cached: Option<EntryView>, model: Seq<char>) -> Option<EntryView> {
    match cached {
        Some(entry) => if is_usable(entry, model) {
            Some(entry)
        } else {
            None
        },
        None => None,
    }
}

/// What is known without asking the provider, given what was kept; nothing where it has to
/// be asked.
pub open spec fn known_without_asking(
    resolved: ResolvedView,
    openrouter: bool,
    cached: Option<EntryView>,
    now: u64,
) -> Option<ModelMetadata> {
    if resolved.context_window_override is Some || !openrouter {
        Some(resolved.metadata)
    } else {
        match kept(cached, resolved.binding.model) {
            Some(entry) => if is_fresh(entry, now) {
                Some(windowed(resolved.metadata, entry.context_window))
            } else {
                None
            },
            None => None,
        }
    }
}

/// What is known once the provider was asked: its answer, else an older one, else what is
/// built in.
pub open spec fn known_after_asking(
    resolved: ResolvedView,
    cached: Option<EntryView>,
    answer: Option<usize>,
) -> ModelMetadata {
    match answer {
        Some(window) => windowed(resolved.metadata, window),
        None => match kept(cached, resolved.binding.model) {
            Some(entry) => windowed(resolved.metadata, entry.context_window),
            None => resolved.metadata,
        },
    }
}

/// The view of what was kept.
pub open spec fn entry_option(entry: Option<CacheEntry>) -> Option<EntryView> {
    match entry {
        Some(e) => Some(e@),
        None => None,
    }
}

/// What is known without asking the provider, given what was kept and whether the provider
/// is OpenRouter.
pub fn lookup(resolved: &ResolvedModel, openrouter: bool, cached: &Option<CacheEntry>, now: u64) -> (r:
    Option<ModelMetadata>)
    ensures
        r == known_without_asking(resolved@, openrouter, entry_option(*cached), now),
{
    if resolved.context_window_override.is_some() || !openrouter {
        return Some(resolved.metadata);
    }
    match cached {
        Some(entry) => if usable(entry, resolved.binding.model.as_str()) && cache_is_fresh(
            entry,
            now,
        ) {
            Some(
                ModelMetadata {
                    context_window: entry.context_window,
                    pricing: resolved.metadata.pricing,
                },
            )
        } else {
            None
        },
        None => None,
    }
}

/// What is known without asking the provider, given what was kept.
pub fn resolve(resolved: &ResolvedModel, cached: &Option<CacheEntry>, now: u64) -> (r: Option<
    ModelMetadata,
>)
    ensures
        r == known_without_asking(resolved@, from_openrouter(resolved@), entry_option(*cached), now),
{
    lookup(resolved, is_openrouter(resolved), cached, now)
}

/// What is known once the provider was asked.
pub fn settle(resolved: &ResolvedModel, cached: &Option<CacheEntry>, answer: Option<usize>) -> (r:
    ModelMetadata)
    ensures
        r == known_after_asking(resolved@, entry_option(*cached), answer),
{
    let window = match answer {
        Some(window) => window,
        None => match cached {
            Some(entry) => if usable(entry, resolved.binding.model.as_str()) {
                entry.context_window
            } else {
                return resolved.metadata;
            },
            None => return resolved.metadata,
        },
    };
    ModelMetadata { context_window: window, pricing: resolved.metadata.pricing }
}

/// An answer to keep.
pub fn entry_to_keep(resolved: &ResolvedModel, context_window: usize, now: u64) -> (r: CacheEntry)
    ensures
        r@ == (EntryView {
            schema_version: CACHE_SCHEMA_VERSION,
            model: resolved@.binding.model,
            context_window,
            fetched_at_unix: now,
        }),
{
    CacheEntry {
        schema_version: CACHE_SCHEMA_VERSION,
        model: resolved.binding.model.clone(),
        context_window,
        fetched_at_unix: now,
    }
}

/// The file in which the answer for a model is kept.
pub fn cache_path(cache_dir: &str, model: &str) -> (r: String)
    ensures
        r@ == joined_path(cache_dir@, hex(encode_utf8(model@)) + ".json"@),
{
    let mut name = text::to_hex(model.as_bytes());
    name.append(".json");
    paths::join(cache_dir, name.as_str())
}

/// A configured context window is never replaced by what a provider tells.
pub proof fn law_override_wins(
    resolved: ResolvedView,
    openrouter: bool,
    cached: Option<EntryView>,
    now: u64,
)
    requires
        resolved.context_window_override is Some,
    ensures
        known_without_asking(resolved, openrouter, cached, now) == Some(resolved.metadata),
{
}

/// An answer that was kept is used again as long as it is fresh, and after that where the
/// provider does not answer.
pub proof fn law_answer_kept(resolved: ResolvedView, window: usize, then: u64, now: u64)
    requires
        window > 0,
        resolved.context_window_override is None,
    ensures
        ({
            let entry = EntryView {
                schema_version: CACHE_SCHEMA_VERSION,
                model: resolved.binding.model,
                context_window: window,
                fetched_at_unix: then,
            };
            let metadata = windowed(resolved.metadata, window);
            &&& known_without_asking(resolved, true, Some(entry), now) == if is_fresh(entry, now) {
                Some(metadata)
            } else {
                None
            }
            &&& known_after_asking(resolved, Some(entry), None) == metadata
        }),
{
}

} // verus!
