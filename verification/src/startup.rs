//! Decisions that are taken when the program starts.

use vstd::prelude::*;
use vstd::string::{StrSliceExecFns, StringExecFns};
use crate::api::anthropic::AnthropicProvider;
use crate::api::error::str_option;
use crate::api::openai_compat::{without_trailing_slashes, OpenAICompatProvider};
use crate::api::openai_responses::{CursorView, OpenAIResponsesProvider};
use crate::api::types::text_option;
use crate::config::{
    resolution, resolved_views, AnthropicApiKey, AuthMethod, AuthView, BindingView, Config,
    McpServerConfig, ModelBinding, OpenAIProtocol, ProviderKind, ResolvedModel, ResolvedView,
};
use crate::cost::CostTracker;
use crate::model::{known, ModelMetadata};
use crate::permissions::{mode_named, CheckerView, PermissionChecker, PermissionMode};
use crate::query::{Engine, EngineView};
use crate::text;
use crate::text::{ascii_lowered, occurs, quote, quoted};

verus! {

/// What is logged.
pub fn log_filter(debug: bool, verbose: bool) -> (r: &'static str)
    ensures
        r@ == if debug {
            "claux=debug"@
        } else if verbose {
            "claux=info"@
        } else {
            "claux=warn"@
        },
{
    if debug {
        "claux=debug"
    } else if verbose {
        "claux=info"
    } else {
        "claux=warn"
    }
}

/// The permission mode that was asked for, or why there is none.
pub fn parse_permission_mode(mode: &str) -> (r: Result<PermissionMode, String>)
    ensures
        r is Ok <==> mode_named(mode@) is Some,
        r matches Ok(m) ==> mode_named(mode@) == Some(m),
        r matches Err(e) ==> e@ == "Invalid permission mode "@ + quoted(mode@)
            + "; expected default, accept-edits, bypass, or plan"@,
{
    match PermissionMode::from_name(mode) {
        Some(m) => Ok(m),
        None => {
            let shown = quote(mode);
            let mut e = "Invalid permission mode ".to_owned();
            e.append(shown.as_str());
            e.append("; expected default, accept-edits, bypass, or plan");
            Err(e)
        },
    }
}

/// Models with the one that was asked for first, and no other of its name.
pub open spec fn with_requested(
    models: Seq<ResolvedView>,
    name: Seq<char>,
    requested: ResolvedView,
) -> Seq<ResolvedView> {
    seq![requested] + models.filter(
        |m: ResolvedView| m.binding.profile != name && m.binding.model != name,
    )
}

/// Models with the one that was asked for first, and no other of its name.
pub fn put_requested_first(models: &[ResolvedModel], name: &str, requested: &ResolvedModel) -> (r:
    Vec<ResolvedModel>)
    ensures
        resolved_views(r@) == with_requested(resolved_views(models@), name@, requested@),
{
    let ghost all = resolved_views(models@);
    let ghost other = |m: ResolvedView| m.binding.profile != name@ && m.binding.model != name@;
    let mut out: Vec<ResolvedModel> = Vec::new();
    out.push(requested.duplicate());
    proof {
        reveal(Seq::filter);
    }
    assert(resolved_views(out@) =~= seq![requested@] + all.take(0).filter(other));
    let mut i: usize = 0;
    while i < models.len()
        invariant
            i <= models@.len(),
            all == resolved_views(models@),
            other == (|m: ResolvedView| m.binding.profile != name@ && m.binding.model != name@),
            resolved_views(out@) == seq![requested@] + all.take(i as int).filter(other),
        decreases models.len() - i,
    {
        proof {
            reveal(Seq::filter);
            assert(all.take(i + 1).drop_last() =~= all.take(i as int));
            assert(all.take(i + 1).last() == models@[i as int]@);
        }
        if !text::same(models[i].binding.profile.as_str(), name) && !text::same(
            models[i].binding.model.as_str(),
            name,
        ) {
            let ghost before = resolved_views(out@);
            out.push(models[i].duplicate());
            assert(resolved_views(out@) =~= before.push(models@[i as int]@));
        }
        i = i + 1;
        assert(resolved_views(out@) =~= seq![requested@] + all.take(i as int).filter(other));
    }
    assert(all.take(models@.len() as int) =~= all);
    out
}

/// Why a session cannot be resumed whose model is not configured.
pub fn unresolved_session(id: &str, model: &str, error: &str) -> (r: String)
    ensures
        r@ == "Session "@ + id@ + " uses legacy model '"@ + model@ + "', which cannot be resolved: "@
            + error@ + ". Add a matching model profile or start a new session."@,
{
    let mut out = "Session ".to_owned();
    out.append(id);
    out.append(" uses legacy model '");
    out.append(model);
    out.append("', which cannot be resolved: ");
    out.append(error);
    out.append(". Add a matching model profile or start a new session.");
    out
}

/// The model of a saved session: that of its binding, or else the one that its name finds.
pub open spec fn saved_model(
    config: Config,
    binding: Option<BindingView>,
    model: Seq<char>,
) -> Result<ResolvedView, Seq<char>> {
    match binding {
        Some(b) => Ok(config.restored(b)),
        None => config.model_result(model),
    }
}

/// The model of a saved session.
pub fn session_model(config: &Config, binding: Option<&ModelBinding>, model: &str) -> (r: Result<
    ResolvedModel,
    String,
>)
    ensures
        resolution(r) == saved_model(
            *config,
            match binding {
                Some(b) => Some(b@),
                None => None,
            },
            model@,
        ),
{
    match binding {
        Some(b) => Ok(config.resolve_binding(b)),
        None => config.resolve_model(model),
    }
}

/// An engine for a model: with the permissions and the output limit of the configuration,
/// and with what is known of the model.
pub fn build_engine(config: &Config, resolved: &ResolvedModel, metadata: ModelMetadata) -> (r:
    Engine)
    ensures
        r@ == (EngineView {
            permissions: CheckerView {
                mode: config.permission_mode,
                tools: Set::empty(),
                commands: Set::empty(),
            },
            messages: Seq::empty(),
            system_prompt: Seq::empty(),
            model: resolved@.binding.model,
            model_binding: Some(resolved@.binding),
            max_tokens: if config.max_tokens == 0 {
                1
            } else {
                config.max_tokens
            },
            context_window: metadata.context_window,
            cost: CostTracker {
                input_tokens: 0,
                output_tokens: 0,
                cache_read_tokens: 0,
                cache_creation_tokens: 0,
                reported: None,
                pricing: match metadata.pricing {
                    Some(p) => Some(p),
                    None => known(resolved@.binding.model).pricing,
                },
            },
            pending_checkpoint: None,
            last_checkpoint: None,
        }),
{
    let mut engine = Engine::new(
        PermissionChecker::new(config.permission_mode),
        resolved.binding.model.as_str(),
    );
    engine.set_model_binding(resolved.binding.duplicate());
    engine.set_max_tokens(config.max_tokens);
    engine.set_model_metadata(metadata);
    engine
}

/// A provider that requests are made to.
pub enum Provider {
    Anthropic(AnthropicProvider),
    ChatCompletions(OpenAICompatProvider),
    Responses(OpenAIResponsesProvider),
}

/// Whether a model is one of OpenRouter.
pub open spec fn is_openrouter_model(resolved: ResolvedView) -> bool {
    ascii_lowered(resolved.binding.provider_name) == ascii_lowered("openrouter"@) || (
    resolved.binding.base_url matches Some(url) && occurs("openrouter.ai"@, url))
}

/// Why a provider cannot be used, if it cannot: a key is needed and there is neither one nor
/// the token of a login, or an OpenAI-compatible provider has no URL.
pub open spec fn provider_error(
    resolved: ResolvedView,
    key: Seq<char>,
    token: Option<Seq<char>>,
) -> Option<Seq<char>> {
    let b = resolved.binding;
    if key.len() == 0 && resolved.login_token(token) is None && resolved.needs_key() {
        Some(
            "No API key found for profile '"@ + b.profile + "' (provider '"@ + b.provider_name
                + "'). Set "@ + b.api_key_env + (if is_openrouter_model(resolved) {
                " or run `claux auth login openrouter`"@
            } else {
                ""@
            }) + " or update ~/.config/claux/config.toml."@,
        )
    } else if b.provider_kind == ProviderKind::Openai && b.base_url is None {
        Some("saved provider '"@ + b.provider + "' has no base URL"@)
    } else {
        None
    }
}

/// Whether a provider is the one that a model takes.
pub open spec fn serves_model(
    provider: Provider,
    resolved: ResolvedView,
    key: Seq<char>,
    token: Option<Seq<char>>,
) -> bool {
    let b = resolved.binding;
    match provider {
        Provider::Anthropic(p) => {
            &&& b.provider_kind == ProviderKind::Anthropic
            &&& p.auth@ == match (key.len() == 0, resolved.login_token(token)) {
                (true, Some(t)) => AuthView::OAuthToken(t),
                _ => AuthView::ApiKey(key),
            }
            &&& p.model@ == b.model
            &&& p.api_url@ == match b.base_url {
                Some(url) => without_trailing_slashes(url) + "/messages"@,
                None => "https://api.anthropic.com/v1/messages"@,
            }
        },
        Provider::ChatCompletions(p) => {
            &&& b.provider_kind == ProviderKind::Openai
            &&& b.protocol == OpenAIProtocol::ChatCompletions
            &&& p.api_key@ == key
            &&& p.model@ == b.model
            &&& (b.base_url matches Some(url) && without_trailing_slashes(url) == p.base_url@)
            &&& p.provider_name@ == b.provider_name
            &&& text_option(p.reasoning_effort) == b.reasoning_effort
            &&& p.prompt_caching == b.prompt_caching
            &&& p.allow_eof_without_finish_reason == b.allow_eof_without_finish_reason
        },
        Provider::Responses(p) => {
            &&& b.provider_kind == ProviderKind::Openai
            &&& b.protocol == OpenAIProtocol::Responses
            &&& p.api_key@ == key
            &&& p.model@ == b.model
            &&& (b.base_url matches Some(url) && without_trailing_slashes(url) == p.base_url@)
            &&& p.provider_name@ == b.provider_name
            &&& text_option(p.reasoning_effort) == b.reasoning_effort
            &&& p.cursor@ == CursorView::none()
        },
    }
}

/// The provider that a model takes, given its key and the token of a login with Anthropic,
/// which serves where there is no key; an empty key stands for none.
pub fn build_provider(resolved: &ResolvedModel, api_key: &str, token: Option<&str>) -> (r: Result<
    Provider,
    String,
>)
    ensures
        r is Ok <==> provider_error(resolved@, api_key@, str_option(token)) is None,
        r matches Err(e) ==> provider_error(resolved@, api_key@, str_option(token)) == Some(e@),
        r matches Ok(p) ==> serves_model(p, resolved@, api_key@, str_option(token)),
{
    let b = &resolved.binding;
    let login = match (b.provider_kind, token) {
        (ProviderKind::Anthropic, Some(t)) => if t.unicode_len() > 0 && api_key.unicode_len() == 0 {
            Some(t)
        } else {
            None
        },
        _ => None,
    };
    if api_key.unicode_len() == 0 && login.is_none() && resolved.requires_api_key() {
        let by_url = match &b.base_url {
            Some(url) => text::contains(url.as_str(), "openrouter.ai"),
            None => false,
        };
        let hint = if text::same_ignoring_ascii_case(b.provider_name.as_str(), "openrouter")
            || by_url {
            " or run `claux auth login openrouter`"
        } else {
            ""
        };
        let mut e = "No API key found for profile '".to_owned();
        e.append(b.profile.as_str());
        e.append("' (provider '");
        e.append(b.provider_name.as_str());
        e.append("'). Set ");
        e.append(b.api_key_env.as_str());
        e.append(hint);
        e.append(" or update ~/.config/claux/config.toml.");
        return Err(e);
    }
    match b.provider_kind {
        ProviderKind::Openai => match &b.base_url {
            Some(url) => {
                let effort = match &b.reasoning_effort {
                    Some(e) => Some(e.as_str()),
                    None => None,
                };
                match b.protocol {
                    OpenAIProtocol::ChatCompletions => Ok(
                        Provider::ChatCompletions(
                            OpenAICompatProvider::new(
                                url.as_str(),
                                api_key,
                                b.model.as_str(),
                                b.provider_name.as_str(),
                                effort,
                            ).with_prompt_caching(
                                b.prompt_caching,
                            ).with_eof_without_finish_reason(b.allow_eof_without_finish_reason),
                        ),
                    ),
                    OpenAIProtocol::Responses => Ok(
                        Provider::Responses(
                            OpenAIResponsesProvider::new(
                                url.as_str(),
                                api_key,
                                b.model.as_str(),
                                b.provider_name.as_str(),
                                effort,
                            ),
                        ),
                    ),
                }
            },
            None => {
                let mut e = "saved provider '".to_owned();
                e.append(b.provider.as_str());
                e.append("' has no base URL");
                Err(e)
            },
        },
        ProviderKind::Anthropic => {
            let key = AnthropicApiKey::new(api_key.to_owned());
            let mut provider = match &b.base_url {
                Some(url) => AnthropicProvider::with_base_url(key, b.model.as_str(), url.as_str()),
                None => AnthropicProvider::new(AuthMethod::ApiKey(key), b.model.as_str()),
            };
            match login {
                Some(t) => {
                    provider.auth = AuthMethod::OAuthToken(t.to_owned());
                },
                None => {},
            }
            Ok(Provider::Anthropic(provider))
        },
    }
}

/// A model for which a key or the token of a login is found is not refused for want of one.
pub proof fn law_found_key_serves(
    resolved: ResolvedView,
    printed: Option<Seq<u8>>,
    environment: Option<Seq<char>>,
    token: Option<Seq<char>>,
)
    requires
        resolved.key(printed, environment, token) is Some,
        resolved.binding.provider_kind == ProviderKind::Openai ==> resolved.binding.base_url is Some,
    ensures
        provider_error(
            resolved,
            match resolved.key(printed, environment, None) {
                Some(key) => key,
                None => Seq::empty(),
            },
            token,
        ) is None,
{
}

/// The servers of tools that are connected: those of the configuration, then those of the
/// project. A project that is not trusted has none.
pub fn all_servers(configured: Vec<McpServerConfig>, project: Vec<McpServerConfig>) -> (r: Vec<
    McpServerConfig,
>)
    ensures
        r@ == configured@ + project@,
{
    let mut servers = configured;
    let mut more = project;
    servers.append(&mut more);
    servers
}

} // verus!
