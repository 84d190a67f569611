//! What the user configured: providers, models, policies, plugins and servers.

use vstd::prelude::*;
use vstd::string::StringExecFns;
use crate::api::diagnostics::{decode_lossy, lossy_text};
use crate::api::error::{first_of, str_option};
use crate::api::types::{copy_text, text_option};
use crate::command_sandbox;
use crate::command_sandbox::BashFilesystemPolicy;
use crate::defaults::Defaults;
use crate::model::{built_in_metadata, known, ModelMetadata, ModelPricing};
use crate::order::{in_order, sort_texts};
use crate::permissions::{mode_named, PermissionMode};
use crate::sandbox;
use crate::sandbox::NativeToolFilesystemPolicy;
use crate::table::{lookup, Table};
use crate::text;
use crate::text::{ascii_lowered, joined, occurs, texts, trimmed};
use crate::trust;
use crate::trust::{permits_permission_override, ProjectTrust};

verus! {

/// An API key of Anthropic.
#[derive(Clone)]
pub struct AnthropicApiKey(String);

impl View for AnthropicApiKey {
    type V = Seq<char>;

    closed spec fn view(&self) -> Seq<char> {
        self.0@
    }
}

impl AnthropicApiKey {
    /// A key.
    pub fn new(key: String) -> (r: AnthropicApiKey)
        ensures
            r@ == key@,
    {
        AnthropicApiKey(key)
    }

    /// The text of the key.
    pub fn expose(&self) -> (r: &str)
        ensures
            r@ == self@,
    {
        self.0.as_str()
    }
}

/// How requests to Anthropic are authenticated.
pub enum AuthMethod {
    ApiKey(AnthropicApiKey),
    OAuthToken(String),
}

/// How requests to Anthropic are authenticated, as a mathematical object.
pub enum AuthView {
    ApiKey(Seq<char>),
    OAuthToken(Seq<char>),
}

impl View for AuthMethod {
    type V = AuthView;

    open spec fn view(&self) -> AuthView {
        match self {
            AuthMethod::ApiKey(key) => AuthView::ApiKey(key@),
            AuthMethod::OAuthToken(token) => AuthView::OAuthToken(token@),
        }
    }
}

/// The wire protocol of an OpenAI-compatible provider.
#[derive(Debug, Clone, Copy, PartialEq, Eq, Structural)]
pub enum OpenAIProtocol {
    ChatCompletions,
    Responses,
}

impl Default for OpenAIProtocol {
    fn default() -> (r: OpenAIProtocol)
        ensures
            r == OpenAIProtocol::ChatCompletions,
    {
        OpenAIProtocol::ChatCompletions
    }
}

/// What API a provider speaks.
#[derive(Debug, Clone, Copy, PartialEq, Eq, Structural)]
pub enum ProviderKind {
    Anthropic,
    Openai,
}

/// A named provider.
#[derive(Debug, Clone)]
pub struct ProviderConfig {
    pub kind: ProviderKind,
    pub base_url: Option<String>,
    pub name: Option<String>,
    pub protocol: OpenAIProtocol,
    pub api_key: Option<String>,
    pub api_key_env: Option<String>,
    pub api_key_cmd: Option<String>,
    /// Ask compatible APIs to cache the stable prompt prefix across turns.
    pub prompt_caching: bool,
    /// Accept the end of a stream without a finish reason. Strict by default: the end
    /// alone cannot prove that a response was complete.
    pub allow_eof_without_finish_reason: bool,
}

/// A named choice of a model.
#[derive(Debug, Clone)]
pub struct ModelProfile {
    pub provider: String,
    pub model: String,
    pub display_name: Option<String>,
    pub reasoning_effort: Option<String>,
    /// Overrides the built-in context window.
    pub context_window: Option<usize>,
    /// Overrides the built-in prices.
    pub pricing: Option<ModelPricing>,
}

/// The identity of a provider and a model that is kept with each session. It holds no
/// credentials.
#[derive(Debug, Clone, PartialEq, Eq)]
pub struct ModelBinding {
    pub profile: String,
    pub display_name: String,
    pub provider: String,
    pub provider_kind: ProviderKind,
    pub provider_name: String,
    pub model: String,
    pub base_url: Option<String>,
    pub protocol: OpenAIProtocol,
    pub api_key_env: String,
    pub reasoning_effort: Option<String>,
    pub prompt_caching: bool,
    pub allow_eof_without_finish_reason: bool,
}

/// A model binding as a mathematical object.
pub struct BindingView {
    pub profile: Seq<char>,
    pub display_name: Seq<char>,
    pub provider: Seq<char>,
    pub provider_kind: ProviderKind,
    pub provider_name: Seq<char>,
    pub model: Seq<char>,
    pub base_url: Option<Seq<char>>,
    pub protocol: OpenAIProtocol,
    pub api_key_env: Seq<char>,
    pub reasoning_effort: Option<Seq<char>>,
    pub prompt_caching: bool,
    pub allow_eof_without_finish_reason: bool,
}

impl View for ModelBinding {
    type V = BindingView;

    open spec fn view(&self) -> BindingView {
        BindingView {
            profile: self.profile@,
            display_name: self.display_name@,
            provider: self.provider@,
            provider_kind: self.provider_kind,
            provider_name: self.provider_name@,
            model: self.model@,
            base_url: text_option(self.base_url),
            protocol: self.protocol,
            api_key_env: self.api_key_env@,
            reasoning_effort: text_option(self.reasoning_effort),
            prompt_caching: self.prompt_caching,
            allow_eof_without_finish_reason: self.allow_eof_without_finish_reason,
        }
    }
}

impl ModelBinding {
    /// A copy.
    pub fn duplicate(&self) -> (r: ModelBinding)
        ensures
            r@ == self@,
    {
        ModelBinding {
            profile: self.profile.clone(),
            display_name: self.display_name.clone(),
            provider: self.provider.clone(),
            provider_kind: self.provider_kind,
            provider_name: self.provider_name.clone(),
            model: self.model.clone(),
            base_url: copy_text(&self.base_url),
            protocol: self.protocol,
            api_key_env: self.api_key_env.clone(),
            reasoning_effort: copy_text(&self.reasoning_effort),
            prompt_caching: self.prompt_caching,
            allow_eof_without_finish_reason: self.allow_eof_without_finish_reason,
        }
    }
}

/// A model that can be used, with what its provider takes.
pub struct ResolvedModel {
    pub binding: ModelBinding,
    pub metadata: ModelMetadata,
    /// The context window that the profile sets.
    pub context_window_override: Option<usize>,
    pub api_key: Option<String>,
    pub api_key_cmd: Option<String>,
}

/// A model that can be used, as a mathematical object.
pub struct ResolvedView {
    pub binding: BindingView,
    pub metadata: ModelMetadata,
    pub context_window_override: Option<usize>,
    pub api_key: Option<Seq<char>>,
    pub api_key_cmd: Option<Seq<char>>,
}

impl View for ResolvedModel {
    type V = ResolvedView;

    open spec fn view(&self) -> ResolvedView {
        ResolvedView {
            binding: self.binding@,
            metadata: self.metadata,
            context_window_override: self.context_window_override,
            api_key: text_option(self.api_key),
            api_key_cmd: text_option(self.api_key_cmd),
        }
    }
}

/// Several models.
pub open spec fn resolved_views(models: Seq<ResolvedModel>) -> Seq<ResolvedView> {
    models.map_values(|m: ResolvedModel| m@)
}

/// What came of resolving a model.
pub open spec fn resolution(r: Result<ResolvedModel, String>) -> Result<ResolvedView, Seq<char>> {
    match r {
        Ok(m) => Ok(m@),
        Err(e) => Err(e@),
    }
}

/// What came of resolving several models.
pub open spec fn resolutions(r: Result<Vec<ResolvedModel>, String>) -> Result<
    Seq<ResolvedView>,
    Seq<char>,
> {
    match r {
        Ok(m) => Ok(resolved_views(m@)),
        Err(e) => Err(e@),
    }
}

/// A string that is not empty.
pub open spec fn filled(s: Option<Seq<char>>) -> Option<Seq<char>> {
    match s {
        Some(t) => if t.len() > 0 {
            Some(t)
        } else {
            None
        },
        None => None,
    }
}

/// Whether a name is that of a hosted provider.
pub open spec fn is_hosted_name(name: Seq<char>) -> bool {
    ascii_lowered(name) == "openai"@ || ascii_lowered(name) == "openrouter"@
}

/// Whether a URL is that of a hosted provider.
pub open spec fn is_hosted_url(url: Seq<char>) -> bool {
    occurs("api.openai.com"@, url) || occurs("openrouter.ai"@, url)
}

fn hosted_name(name: &str) -> (r: bool)
    ensures
        r == is_hosted_name(name@),
{
    let lower = text::to_ascii_lowercase(name);
    text::same(lower.as_str(), "openai") || text::same(lower.as_str(), "openrouter")
}

fn hosted_url(url: &str) -> (r: bool)
    ensures
        r == is_hosted_url(url@),
{
    text::contains(url, "api.openai.com") || text::contains(url, "openrouter.ai")
}

impl ResolvedView {
    /// The key that the configuration holds itself.
    pub open spec fn direct_key(self) -> Option<Seq<char>> {
        filled(self.api_key)
    }

    /// The key that the credential command printed.
    pub open spec fn printed_key(self, command_output: Option<Seq<u8>>) -> Option<Seq<char>> {
        match (self.api_key_cmd, command_output) {
            (Some(_), Some(bytes)) => filled(Some(trimmed(lossy_text(bytes)))),
            _ => None,
        }
    }

    /// The token of a login, which only Anthropic takes.
    pub open spec fn login_token(self, token: Option<Seq<char>>) -> Option<Seq<char>> {
        match self.binding.provider_kind {
            ProviderKind::Anthropic => filled(token),
            ProviderKind::Openai => None,
        }
    }

    /// The key: that of the configuration, that which the credential command printed, that
    /// of the environment, or the token of a login.
    pub open spec fn key(
        self,
        command_output: Option<Seq<u8>>,
        environment: Option<Seq<char>>,
        token: Option<Seq<char>>,
    ) -> Option<Seq<char>> {
        first_of(
            self.direct_key(),
            first_of(
                self.printed_key(command_output),
                first_of(filled(environment), self.login_token(token)),
            ),
        )
    }

    /// Whether the provider cannot be used without a key.
    pub open spec fn needs_key(self) -> bool {
        match self.binding.provider_kind {
            ProviderKind::Anthropic => true,
            ProviderKind::Openai => is_hosted_name(self.binding.provider_name) || (
            self.binding.base_url matches Some(url) && is_hosted_url(url)),
        }
    }
}

impl ResolvedModel {
    /// The credential command, where it must be run to learn the key.
    pub fn credential_command(&self) -> (r: Option<&str>)
        ensures
            str_option(r) == if self@.direct_key() is Some {
                None
            } else {
                self@.api_key_cmd
            },
    {
        match &self.api_key {
            Some(key) => if key.as_str().unicode_len() > 0 {
                return None;
            },
            None => {},
        }
        match &self.api_key_cmd {
            Some(command) => Some(command.as_str()),
            None => None,
        }
    }

    /// The key, given what a successful credential command printed, what the environment
    /// holds, and the token of a login with Anthropic.
    pub fn resolve_api_key(
        &self,
        command_output: Option<&[u8]>,
        environment: Option<&str>,
        token: Option<&str>,
    ) -> (r: Option<String>)
        ensures
            text_option(r) == self@.key(
                match command_output {
                    Some(bytes) => Some(bytes@),
                    None => None,
                },
                str_option(environment),
                str_option(token),
            ),
    {
        match &self.api_key {
            Some(key) => if key.as_str().unicode_len() > 0 {
                return Some(key.clone());
            },
            None => {},
        }
        match (&self.api_key_cmd, command_output) {
            (Some(_), Some(bytes)) => {
                let printed = decode_lossy(bytes);
                let key = text::trim(printed.as_str());
                if key.unicode_len() > 0 {
                    return Some(key.to_owned());
                }
            },
            _ => {},
        }
        match environment {
            Some(key) => if key.unicode_len() > 0 {
                return Some(key.to_owned());
            },
            None => {},
        }
        match (self.binding.provider_kind, token) {
            (ProviderKind::Anthropic, Some(token)) => if token.unicode_len() > 0 {
                Some(token.to_owned())
            } else {
                None
            },
            _ => None,
        }
    }

    /// Whether the provider cannot be used without a key.
    pub fn requires_api_key(&self) -> (r: bool)
        ensures
            r == self@.needs_key(),
    {
        match self.binding.provider_kind {
            ProviderKind::Anthropic => true,
            ProviderKind::Openai => {
                let by_url = match &self.binding.base_url {
                    Some(url) => hosted_url(url.as_str()),
                    None => false,
                };
                hosted_name(self.binding.provider_name.as_str()) || by_url
            },
        }
    }

    /// A copy.
    pub fn duplicate(&self) -> (r: ResolvedModel)
        ensures
            r@ == self@,
    {
        ResolvedModel {
            binding: self.binding.duplicate(),
            metadata: self.metadata,
            context_window_override: self.context_window_override,
            api_key: copy_text(&self.api_key),
            api_key_cmd: copy_text(&self.api_key_cmd),
        }
    }
}

/// A server of tools.
pub struct McpServerConfig {
    pub name: String,
    pub command: String,
    pub args: Vec<String>,
    pub env: Table<String>,
}

/// The servers that a project brings along, by name.
pub struct McpJsonConfig {
    pub mcp_servers: Table<McpJsonServerEntry>,
}

/// A server that a project brings along.
pub struct McpJsonServerEntry {
    pub command: String,
    pub args: Vec<String>,
    pub env: Table<String>,
}

impl McpJsonServerEntry {
    /// The server under its name.
    pub fn into_server_config(self, name: String) -> (r: McpServerConfig)
        ensures
            r == (McpServerConfig { name, command: self.command, args: self.args, env: self.env }),
    {
        McpServerConfig { name, command: self.command, args: self.args, env: self.env }
    }
}

/// Whether a server is the one that an entry describes.
pub open spec fn serves(server: McpServerConfig, name: Seq<char>, entry: McpJsonServerEntry) -> bool {
    &&& server.name@ == name
    &&& server.command == entry.command
    &&& server.args == entry.args
    &&& server.env == entry.env
}

/// The servers that a project brings along: none unless the project is trusted.
/// `parsed` is what its server file holds, where it is there and well formed.
pub fn load_mcp_json(trust: &ProjectTrust, parsed: Option<McpJsonConfig>) -> (r: Vec<
    McpServerConfig,
>)
    ensures
        !trust.trusts() || parsed is None ==> r@.len() == 0,
        trust.trusts() ==> (parsed matches Some(config) ==> {
            &&& r@.len() == config.mcp_servers.names().len()
            &&& forall|i: int|
                0 <= i < r@.len() ==> serves(
                    #[trigger] r@[i],
                    config.mcp_servers.names()[i],
                    config.mcp_servers.values()[i],
                )
        }),
{
    if !trust.is_trusted() {
        return Vec::new();
    }
    match parsed {
        Some(config) => {
            let entries = config.mcp_servers.into_entries();
            let ghost names = crate::table::entry_names(entries@);
            let ghost values = crate::table::entry_values(entries@);
            let mut left = entries;
            let mut out: Vec<McpServerConfig> = Vec::new();
            let n = left.len();
            let ghost all = left@;
            while left.len() > 0
                invariant
                    out@.len() + left@.len() == n,
                    n == all.len(),
                    left@ == all.take(left@.len() as int),
                    names == crate::table::entry_names(all),
                    values == crate::table::entry_values(all),
                    forall|i: int|
                        0 <= i < out@.len() ==> serves(
                            #[trigger] out@[i],
                            names[n - 1 - i],
                            values[n - 1 - i],
                        ),
                decreases left.len(),
            {
                let ghost before = left@;
                match left.pop() {
                    Some(entry) => {
                        let (name, server) = entry;
                        out.push(server.into_server_config(name));
                        assert(left@ =~= all.take(left@.len() as int));
                    },
                    None => {},
                }
            }
            let ghost backwards = out@;
            let mut servers: Vec<McpServerConfig> = Vec::new();
            while out.len() > 0
                invariant
                    servers@.len() + out@.len() == n,
                    n == names.len(),
                    out@ == backwards.take(out@.len() as int),
                    backwards.len() == n,
                    forall|i: int|
                        0 <= i < backwards.len() ==> serves(
                            #[trigger] backwards[i],
                            names[n - 1 - i],
                            values[n - 1 - i],
                        ),
                    forall|i: int|
                        0 <= i < servers@.len() ==> serves(
                            #[trigger] servers@[i],
                            names[i],
                            values[i],
                        ),
                decreases out.len(),
            {
                let ghost place = out@.len() - 1;
                match out.pop() {
                    Some(server) => {
                        assert(server == backwards[place]);
                        servers.push(server);
                        assert(out@ =~= backwards.take(out@.len() as int));
                    },
                    None => {},
                }
            }
            servers
        },
        None => Vec::new(),
    }
}

/// When a plugin runs.
#[derive(Debug, Clone, Copy, PartialEq, Eq, Structural)]
pub enum HookTrigger {
    OnContextBuild,
    OnToolStart,
    OnToolComplete,
    OnSessionStart,
    /// An agent turn completes and control returns to the user.
    OnTurnEnd,
    /// The agent waits for a decision of the user.
    OnPermissionRequest,
}

impl Default for HookTrigger {
    fn default() -> (r: HookTrigger)
        ensures
            r == HookTrigger::OnContextBuild,
    {
        HookTrigger::OnContextBuild
    }
}

/// A plugin: a command that runs at a trigger.
#[derive(Debug, Clone)]
pub struct PluginConfig {
    pub name: String,
    pub command: String,
    pub args: Vec<String>,
    pub trigger: HookTrigger,
}

/// What the user configured.
pub struct Config {
    pub model: String,
    /// Further models offered for new sessions.
    pub models: Vec<String>,
    /// Providers that model profiles name.
    pub providers: Table<ProviderConfig>,
    /// Named choices of models.
    pub model_profiles: Table<ModelProfile>,
    /// The profile of new sessions.
    pub default_profile: Option<String>,
    pub api_key: Option<String>,
    pub api_key_env: String,
    pub api_key_cmd: Option<String>,
    pub permission_mode: PermissionMode,
    /// Containment of the built-in file tools.
    pub native_tool_filesystem_policy: NativeToolFilesystemPolicy,
    /// Containment of shell commands.
    pub bash_filesystem_policy: BashFilesystemPolicy,
    pub max_tokens: u32,
    /// An OpenAI-compatible endpoint.
    pub openai_base_url: Option<String>,
    pub openai_api_key: Option<String>,
    pub openai_api_key_env: String,
    pub openai_api_key_cmd: Option<String>,
    pub openai_protocol: OpenAIProtocol,
    pub openai_reasoning_effort: Option<String>,
    pub openai_allow_eof_without_finish_reason: bool,
    /// Prices that override the built-in ones, by model.
    pub model_pricing: Table<ModelPricing>,
    pub openai_provider_name: Option<String>,
    pub plugins: Vec<PluginConfig>,
    pub mcp_servers: Vec<McpServerConfig>,
    /// Directories whose own configuration is trusted.
    pub trusted_projects: Vec<String>,
    /// The trust in the current project, once it is resolved.
    pub project_trust: Option<ProjectTrust>,
}

impl Config {
    /// What holds where the user configured nothing.
    pub fn new(defaults: &Defaults) -> (r: Config)
        ensures
            r.model@ == defaults.model@,
            r.models@.len() == 0,
            r.providers.names().len() == 0,
            r.model_profiles.names().len() == 0,
            r.default_profile is None,
            r.api_key is None,
            r.api_key_env@ == "ANTHROPIC_API_KEY"@,
            r.api_key_cmd is None,
            r.permission_mode == PermissionMode::Default,
            r.native_tool_filesystem_policy == NativeToolFilesystemPolicy::WorkspaceOnly,
            r.bash_filesystem_policy == BashFilesystemPolicy::Auto,
            r.max_tokens == 16384,
            r.openai_base_url is None,
            r.openai_api_key is None,
            r.openai_api_key_env@ == "OPENAI_API_KEY"@,
            r.openai_api_key_cmd is None,
            r.openai_protocol == OpenAIProtocol::ChatCompletions,
            r.openai_reasoning_effort is None,
            !r.openai_allow_eof_without_finish_reason,
            r.model_pricing.names().len() == 0,
            r.openai_provider_name is None,
            r.plugins@.len() == 0,
            r.mcp_servers@.len() == 0,
            r.trusted_projects@.len() == 0,
            r.project_trust is None,
    {
        Config {
            model: defaults.model.clone(),
            models: Vec::new(),
            providers: Table::new(),
            model_profiles: Table::new(),
            default_profile: None,
            api_key: None,
            api_key_env: "ANTHROPIC_API_KEY".to_owned(),
            api_key_cmd: None,
            permission_mode: PermissionMode::Default,
            native_tool_filesystem_policy: NativeToolFilesystemPolicy::WorkspaceOnly,
            bash_filesystem_policy: BashFilesystemPolicy::Auto,
            max_tokens: 16384,
            openai_base_url: None,
            openai_api_key: None,
            openai_api_key_env: "OPENAI_API_KEY".to_owned(),
            openai_api_key_cmd: None,
            openai_protocol: OpenAIProtocol::ChatCompletions,
            openai_reasoning_effort: None,
            openai_allow_eof_without_finish_reason: false,
            model_pricing: Table::new(),
            openai_provider_name: None,
            plugins: Vec::new(),
            mcp_servers: Vec::new(),
            trusted_projects: Vec::new(),
            project_trust: None,
        }
    }
}

/// The models of a list, trimmed, without blank ones and repetitions.
pub open spec fn distinct_models(all: Seq<Seq<char>>) -> Seq<Seq<char>>
    decreases all.len(),
{
    if all.len() == 0 {
        Seq::empty()
    } else {
        let before = distinct_models(all.drop_last());
        let model = trimmed(all.last());
        if model.len() == 0 || before.contains(model) {
            before
        } else {
            before.push(model)
        }
    }
}

/// The string, or another where there is none.
pub open spec fn or_else(s: Option<String>, other: Seq<char>) -> Seq<char> {
    match s {
        Some(t) => t@,
        None => other,
    }
}

fn text_or(s: &Option<String>, other: &str) -> (r: String)
    ensures
        r@ == or_else(*s, other@),
{
    match s {
        Some(t) => t.clone(),
        None => other.to_owned(),
    }
}

/// The variable that holds the key of a provider, unless the provider names another.
pub open spec fn default_key_env(kind: ProviderKind) -> Seq<char> {
    match kind {
        ProviderKind::Anthropic => "ANTHROPIC_API_KEY"@,
        ProviderKind::Openai => "OPENAI_API_KEY"@,
    }
}

impl Config {
    /// The models offered for new sessions, the default first.
    pub open spec fn available(self) -> Seq<Seq<char>> {
        distinct_models(seq![self.model@] + texts(self.models@))
    }

    /// What is known of a model: by its profile, by the configured prices, by its name.
    pub open spec fn metadata(self, profile: Option<ModelProfile>, model: Seq<char>) -> ModelMetadata {
        known(model).overridden(
            match profile {
                Some(p) => p.context_window,
                None => None,
            },
            first_of(
                match profile {
                    Some(p) => p.pricing,
                    None => None,
                },
                lookup(self.model_pricing, model),
            ),
        )
    }

    /// The model of a profile and its provider.
    pub open spec fn of_profile(
        self,
        name: Seq<char>,
        profile: ModelProfile,
        provider: ProviderConfig,
    ) -> ResolvedView {
        ResolvedView {
            binding: BindingView {
                profile: name,
                display_name: or_else(profile.display_name, profile.model@),
                provider: profile.provider@,
                provider_kind: provider.kind,
                provider_name: or_else(provider.name, profile.provider@),
                model: profile.model@,
                base_url: text_option(provider.base_url),
                protocol: provider.protocol,
                api_key_env: or_else(provider.api_key_env, default_key_env(provider.kind)),
                reasoning_effort: text_option(profile.reasoning_effort),
                prompt_caching: provider.prompt_caching,
                allow_eof_without_finish_reason: provider.allow_eof_without_finish_reason,
            },
            metadata: self.metadata(Some(profile), profile.model@),
            context_window_override: profile.context_window,
            api_key: text_option(provider.api_key),
            api_key_cmd: text_option(provider.api_key_cmd),
        }
    }

    /// The model of a profile: an error where the profile or its provider is missing, or
    /// where an OpenAI-compatible provider has no URL.
    pub open spec fn profile_result(self, name: Seq<char>) -> Result<ResolvedView, Seq<char>> {
        match lookup(self.model_profiles, name) {
            None => Err("model profile '"@ + name + "' is not configured"@),
            Some(profile) => match lookup(self.providers, profile.provider@) {
                None => Err(
                    "model profile '"@ + name + "' references missing provider '"@
                        + profile.provider@ + "'"@,
                ),
                Some(provider) => if provider.kind == ProviderKind::Openai
                    && provider.base_url is None {
                    Err("provider '"@ + profile.provider@ + "' is missing base_url"@)
                } else {
                    Ok(self.of_profile(name, profile, provider))
                },
            },
        }
    }

    /// The model of a name where there are no profiles.
    pub open spec fn legacy(self, model: Seq<char>) -> ResolvedView {
        let openai = self.openai_base_url is Some;
        ResolvedView {
            binding: BindingView {
                profile: "legacy:"@ + model,
                display_name: model,
                provider: "legacy"@,
                provider_kind: if openai {
                    ProviderKind::Openai
                } else {
                    ProviderKind::Anthropic
                },
                provider_name: if openai {
                    or_else(self.openai_provider_name, "openai"@)
                } else {
                    "anthropic"@
                },
                model,
                base_url: text_option(self.openai_base_url),
                protocol: if openai {
                    self.openai_protocol
                } else {
                    OpenAIProtocol::ChatCompletions
                },
                api_key_env: if openai {
                    self.openai_api_key_env@
                } else {
                    self.api_key_env@
                },
                reasoning_effort: text_option(self.openai_reasoning_effort),
                prompt_caching: false,
                allow_eof_without_finish_reason: self.openai_allow_eof_without_finish_reason,
            },
            metadata: self.metadata(None, model),
            context_window_override: None,
            api_key: text_option(
                if openai {
                    self.openai_api_key
                } else {
                    self.api_key
                },
            ),
            api_key_cmd: text_option(
                if openai {
                    self.openai_api_key_cmd
                } else {
                    self.api_key_cmd
                },
            ),
        }
    }

    /// The models of profiles: the first error, where there is one.
    pub open spec fn profile_results(self, names: Seq<Seq<char>>) -> Result<
        Seq<ResolvedView>,
        Seq<char>,
    >
        decreases names.len(),
    {
        if names.len() == 0 {
            Ok(Seq::empty())
        } else {
            match self.profile_results(names.drop_last()) {
                Err(e) => Err(e),
                Ok(before) => match self.profile_result(names.last()) {
                    Err(e) => Err(e),
                    Ok(m) => Ok(before.push(m)),
                },
            }
        }
    }

    /// The names of the profiles in order, the default first.
    pub open spec fn profile_order(self) -> Seq<Seq<char>> {
        let names = in_order(self.model_profiles.names());
        match self.default_profile {
            Some(default) => seq![default@] + names.filter(|n: Seq<char>| n != default@),
            None => names,
        }
    }

    /// Every model that can be chosen, the default first.
    pub open spec fn selectable(self) -> Result<Seq<ResolvedView>, Seq<char>> {
        if self.model_profiles.names().len() == 0 {
            Ok(self.available().map_values(|m: Seq<char>| self.legacy(m)))
        } else if self.default_profile matches Some(default) && !self.model_profiles@.contains_key(
            default@,
        ) {
            Err(
                "default_profile '"@ + self.default_profile->Some_0@
                    + "' is not defined in model_profiles"@,
            )
        } else {
            self.profile_results(self.profile_order())
        }
    }

    /// The model of new sessions.
    pub open spec fn default_result(self) -> Result<ResolvedView, Seq<char>> {
        match self.selectable() {
            Err(e) => Err(e),
            Ok(models) => if models.len() == 0 {
                Err("no models configured"@)
            } else {
                Ok(models[0])
            },
        }
    }

    /// The model of a profile name, or else of a model that one profile only has.
    pub open spec fn model_result(self, name: Seq<char>) -> Result<ResolvedView, Seq<char>> {
        if self.model_profiles@.contains_key(name) {
            self.profile_result(name)
        } else {
            match self.selectable() {
                Err(e) => Err(e),
                Ok(models) => {
                    let found = models.filter(|m: ResolvedView| m.binding.model == name);
                    if found.len() == 1 {
                        Ok(found[0])
                    } else if found.len() > 1 {
                        Err(
                            "model ID '"@ + name
                                + "' is configured by multiple profiles; use a profile name"@,
                        )
                    } else if self.model_profiles.names().len() == 0 {
                        Ok(self.legacy(name))
                    } else {
                        Err(
                            "model/profile '"@ + name + "' is not configured; choose one of: "@
                                + joined(self.model_profiles.names(), ", "@),
                        )
                    }
                },
            }
        }
    }

    /// The model of a saved binding: the binding as it is, with the credentials of the
    /// provider and the metadata of the profile as they are now.
    pub open spec fn restored(self, binding: BindingView) -> ResolvedView {
        let provider = match lookup(self.providers, binding.provider) {
            Some(p) => if p.kind == binding.provider_kind {
                Some(p)
            } else {
                None
            },
            None => None,
        };
        let profile = match lookup(self.model_profiles, binding.profile) {
            Some(p) => if p.provider@ == binding.provider && p.model@ == binding.model {
                Some(p)
            } else {
                None
            },
            None => None,
        };
        ResolvedView {
            binding,
            metadata: self.metadata(profile, binding.model),
            context_window_override: match profile {
                Some(p) => p.context_window,
                None => None,
            },
            api_key: match provider {
                Some(p) => text_option(p.api_key),
                None => None,
            },
            api_key_cmd: match provider {
                Some(p) => text_option(p.api_key_cmd),
                None => None,
            },
        }
    }

    /// The models offered for new sessions, the default first.
    pub fn available_models(&self) -> (r: Vec<String>)
        ensures
            texts(r@) == self.available(),
    {
        let ghost all = seq![self.model@] + texts(self.models@);
        let mut out: Vec<String> = Vec::new();
        assert(texts(out@) =~= distinct_models(all.take(0)));
        assert(all.take(1).drop_last() =~= all.take(0));
        add_model(&mut out, self.model.as_str());
        let mut i: usize = 0;
        while i < self.models.len()
            invariant
                i <= self.models@.len(),
                all == seq![self.model@] + texts(self.models@),
                texts(out@) == distinct_models(all.take(i + 1)),
            decreases self.models.len() - i,
        {
            assert(all.take(i + 2).drop_last() =~= all.take(i + 1));
            add_model(&mut out, self.models[i].as_str());
            i = i + 1;
        }
        assert(all.take(self.models@.len() as int + 1) =~= all);
        out
    }

    fn resolve_metadata(&self, profile: Option<&ModelProfile>, model: &str) -> (r: ModelMetadata)
        ensures
            r == self.metadata(
                match profile {
                    Some(p) => Some(*p),
                    None => None,
                },
                model@,
            ),
    {
        let legacy = match self.model_pricing.get(model) {
            Some(p) => Some(*p),
            None => None,
        };
        let (window, pricing) = match profile {
            Some(p) => (
                p.context_window,
                match p.pricing {
                    Some(price) => Some(price),
                    None => legacy,
                },
            ),
            None => (None, legacy),
        };
        built_in_metadata(model).with_overrides(window, pricing)
    }

    /// The model of a profile.
    pub fn resolve_profile(&self, name: &str) -> (r: Result<ResolvedModel, String>)
        ensures
            resolution(r) == self.profile_result(name@),
    {
        let profile = match self.model_profiles.get(name) {
            Some(p) => p,
            None => {
                let mut e = "model profile '".to_owned();
                e.append(name);
                e.append("' is not configured");
                return Err(e);
            },
        };
        let provider = match self.providers.get(profile.provider.as_str()) {
            Some(p) => p,
            None => {
                let mut e = "model profile '".to_owned();
                e.append(name);
                e.append("' references missing provider '");
                e.append(profile.provider.as_str());
                e.append("'");
                return Err(e);
            },
        };
        let default_env = match provider.kind {
            ProviderKind::Anthropic => "ANTHROPIC_API_KEY",
            ProviderKind::Openai => "OPENAI_API_KEY",
        };
        match (provider.kind, &provider.base_url) {
            (ProviderKind::Openai, None) => {
                let mut e = "provider '".to_owned();
                e.append(profile.provider.as_str());
                e.append("' is missing base_url");
                return Err(e);
            },
            _ => {},
        }
        Ok(
            ResolvedModel {
                binding: ModelBinding {
                    profile: name.to_owned(),
                    display_name: text_or(&profile.display_name, profile.model.as_str()),
                    provider: profile.provider.clone(),
                    provider_kind: provider.kind,
                    provider_name: text_or(&provider.name, profile.provider.as_str()),
                    model: profile.model.clone(),
                    base_url: copy_text(&provider.base_url),
                    protocol: provider.protocol,
                    api_key_env: text_or(&provider.api_key_env, default_env),
                    reasoning_effort: copy_text(&profile.reasoning_effort),
                    prompt_caching: provider.prompt_caching,
                    allow_eof_without_finish_reason: provider.allow_eof_without_finish_reason,
                },
                metadata: self.resolve_metadata(Some(profile), profile.model.as_str()),
                context_window_override: profile.context_window,
                api_key: copy_text(&provider.api_key),
                api_key_cmd: copy_text(&provider.api_key_cmd),
            },
        )
    }

    /// The model of a name where there are no profiles.
    pub fn resolve_legacy_model(&self, model: &str) -> (r: ResolvedModel)
        ensures
            r@ == self.legacy(model@),
    {
        let mut profile = "legacy:".to_owned();
        profile.append(model);
        let (kind, name, protocol, env, key, cmd) = if self.openai_base_url.is_some() {
            (
                ProviderKind::Openai,
                text_or(&self.openai_provider_name, "openai"),
                self.openai_protocol,
                self.openai_api_key_env.clone(),
                copy_text(&self.openai_api_key),
                copy_text(&self.openai_api_key_cmd),
            )
        } else {
            (
                ProviderKind::Anthropic,
                "anthropic".to_owned(),
                OpenAIProtocol::ChatCompletions,
                self.api_key_env.clone(),
                copy_text(&self.api_key),
                copy_text(&self.api_key_cmd),
            )
        };
        ResolvedModel {
            binding: ModelBinding {
                profile,
                display_name: model.to_owned(),
                provider: "legacy".to_owned(),
                provider_kind: kind,
                provider_name: name,
                model: model.to_owned(),
                base_url: copy_text(&self.openai_base_url),
                protocol,
                api_key_env: env,
                reasoning_effort: copy_text(&self.openai_reasoning_effort),
                prompt_caching: false,
                allow_eof_without_finish_reason: self.openai_allow_eof_without_finish_reason,
            },
            metadata: self.resolve_metadata(None, model),
            context_window_override: None,
            api_key: key,
            api_key_cmd: cmd,
        }
    }

    fn ordered_profiles(&self) -> (r: Vec<String>)
        ensures
            texts(r@) == self.profile_order(),
    {
        let names = self.model_profiles.keys();
        let sorted = sort_texts(&names);
        let ghost all = texts(sorted@);
        let default = match &self.default_profile {
            Some(d) => d,
            None => return sorted,
        };
        let ghost other = |n: Seq<char>| n != default@;
        let mut out: Vec<String> = Vec::new();
        out.push(default.clone());
        assert(texts(out@) =~= seq![default@] + all.take(0).filter(other)) by {
            reveal(Seq::filter);
        }
        let mut i: usize = 0;
        while i < sorted.len()
            invariant
                i <= sorted@.len(),
                all == texts(sorted@),
                other == (|n: Seq<char>| n != default@),
                texts(out@) == seq![default@] + all.take(i as int).filter(other),
            decreases sorted.len() - i,
        {
            proof {
                reveal(Seq::filter);
                assert(all.take(i + 1).drop_last() =~= all.take(i as int));
                assert(all.take(i + 1).last() == sorted@[i as int]@);
            }
            if !text::same(sorted[i].as_str(), default.as_str()) {
                let ghost before = texts(out@);
                out.push(sorted[i].clone());
                assert(texts(out@) =~= before.push(sorted@[i as int]@));
            }
            i = i + 1;
            assert(texts(out@) =~= seq![default@] + all.take(i as int).filter(other));
        }
        assert(all.take(sorted@.len() as int) =~= all);
        out
    }

    /// Every model that can be chosen, the default first.
    pub fn selectable_models(&self) -> (r: Result<Vec<ResolvedModel>, String>)
        ensures
            resolutions(r) == self.selectable(),
    {
        let mut out: Vec<ResolvedModel> = Vec::new();
        if self.model_profiles.is_empty() {
            let models = self.available_models();
            let ghost all = texts(models@);
            let ghost resolved = all.map_values(|m: Seq<char>| self.legacy(m));
            assert(resolved_views(out@) =~= resolved.take(0));
            let mut i: usize = 0;
            while i < models.len()
                invariant
                    i <= models@.len(),
                    all == texts(models@),
                    resolved == all.map_values(|m: Seq<char>| self.legacy(m)),
                    resolved_views(out@) == resolved.take(i as int),
                decreases models.len() - i,
            {
                let ghost before = resolved_views(out@);
                out.push(self.resolve_legacy_model(models[i].as_str()));
                assert(resolved_views(out@) =~= before.push(resolved[i as int]));
                i = i + 1;
                assert(resolved_views(out@) =~= resolved.take(i as int));
            }
            assert(resolved.take(models@.len() as int) =~= resolved);
            return Ok(out);
        }
        match &self.default_profile {
            Some(default) => if !self.model_profiles.contains_key(default.as_str()) {
                let mut e = "default_profile '".to_owned();
                e.append(default.as_str());
                e.append("' is not defined in model_profiles");
                return Err(e);
            },
            None => {},
        }
        let names = self.ordered_profiles();
        let ghost all = texts(names@);
        assert(resolved_views(out@) =~= Seq::empty());
        let mut i: usize = 0;
        while i < names.len()
            invariant
                i <= names@.len(),
                all == texts(names@),
                self.selectable() == self.profile_results(all),
                self.profile_results(all.take(i as int)) == Ok::<Seq<ResolvedView>, Seq<char>>(
                    resolved_views(out@),
                ),
            decreases names.len() - i,
        {
            assert(all.take(i + 1).drop_last() =~= all.take(i as int));
            assert(all.take(i + 1).last() == names@[i as int]@);
            match self.resolve_profile(names[i].as_str()) {
                Ok(model) => {
                    let ghost before = resolved_views(out@);
                    let ghost view = model@;
                    out.push(model);
                    assert(resolved_views(out@) =~= before.push(view));
                },
                Err(e) => {
                    proof {
                        self.lemma_first_error(all, i + 1);
                    }
                    return Err(e);
                },
            }
            i = i + 1;
        }
        assert(all.take(names@.len() as int) =~= all);
        Ok(out)
    }

    proof fn lemma_first_error(self, names: Seq<Seq<char>>, n: int)
        requires
            0 <= n <= names.len(),
            self.profile_results(names.take(n)) is Err,
        ensures
            self.profile_results(names) == self.profile_results(names.take(n)),
        decreases names.len() - n,
    {
        if n < names.len() {
            assert(names.take(n + 1).drop_last() =~= names.take(n));
            self.lemma_first_error(names, n + 1);
        } else {
            assert(names.take(n) =~= names);
        }
    }

    /// The model of new sessions.
    pub fn default_resolved_model(&self) -> (r: Result<ResolvedModel, String>)
        ensures
            resolution(r) == self.default_result(),
    {
        match self.selectable_models() {
            Ok(models) => if models.len() == 0 {
                Err("no models configured".to_owned())
            } else {
                assert(resolved_views(models@)[0] == models@[0]@);
                Ok(models[0].duplicate())
            },
            Err(e) => Err(e),
        }
    }

    /// The model of a profile name, or else of a model that one profile only has.
    pub fn resolve_model(&self, name_or_model: &str) -> (r: Result<ResolvedModel, String>)
        ensures
            resolution(r) == self.model_result(name_or_model@),
    {
        if self.model_profiles.contains_key(name_or_model) {
            return self.resolve_profile(name_or_model);
        }
        let models = match self.selectable_models() {
            Ok(models) => models,
            Err(e) => return Err(e),
        };
        let ghost all = resolved_views(models@);
        let ghost named = |m: ResolvedView| m.binding.model == name_or_model@;
        let mut found: Vec<ResolvedModel> = Vec::new();
        proof {
            reveal(Seq::filter);
        }
        assert(resolved_views(found@) =~= all.take(0).filter(named));
        let mut i: usize = 0;
        while i < models.len()
            invariant
                i <= models@.len(),
                all == resolved_views(models@),
                named == (|m: ResolvedView| m.binding.model == name_or_model@),
                resolved_views(found@) == all.take(i as int).filter(named),
            decreases models.len() - i,
        {
            proof {
                reveal(Seq::filter);
                assert(all.take(i + 1).drop_last() =~= all.take(i as int));
                assert(all.take(i + 1).last() == models@[i as int]@);
            }
            if text::same(models[i].binding.model.as_str(), name_or_model) {
                let ghost before = resolved_views(found@);
                found.push(models[i].duplicate());
                assert(resolved_views(found@) =~= before.push(models@[i as int]@));
            }
            i = i + 1;
        }
        assert(all.take(models@.len() as int) =~= all);
        if found.len() == 1 {
            assert(resolved_views(found@)[0] == found@[0]@);
            return Ok(found[0].duplicate());
        }
        if found.len() > 1 {
            let mut e = "model ID '".to_owned();
            e.append(name_or_model);
            e.append("' is configured by multiple profiles; use a profile name");
            return Err(e);
        }
        if self.model_profiles.is_empty() {
            return Ok(self.resolve_legacy_model(name_or_model));
        }
        let names = self.model_profiles.keys();
        let choices = text::join(names.as_slice(), ", ");
        let mut e = "model/profile '".to_owned();
        e.append(name_or_model);
        e.append("' is not configured; choose one of: ");
        e.append(choices.as_str());
        Err(e)
    }

    /// The model of a saved binding.
    pub fn resolve_binding(&self, binding: &ModelBinding) -> (r: ResolvedModel)
        ensures
            r@ == self.restored(binding@),
    {
        let provider = match self.providers.get(binding.provider.as_str()) {
            Some(p) => if p.kind == binding.provider_kind {
                Some(p)
            } else {
                None
            },
            None => None,
        };
        let profile = match self.model_profiles.get(binding.profile.as_str()) {
            Some(p) => if text::same(p.provider.as_str(), binding.provider.as_str()) && text::same(
                p.model.as_str(),
                binding.model.as_str(),
            ) {
                Some(p)
            } else {
                None
            },
            None => None,
        };
        let (api_key, api_key_cmd) = match provider {
            Some(p) => (copy_text(&p.api_key), copy_text(&p.api_key_cmd)),
            None => (None, None),
        };
        ResolvedModel {
            binding: binding.duplicate(),
            metadata: self.resolve_metadata(profile, binding.model.as_str()),
            context_window_override: match profile {
                Some(p) => p.context_window,
                None => None,
            },
            api_key,
            api_key_cmd,
        }
    }

    /// Whether the configured OpenAI-compatible endpoint is a hosted one, which cannot be
    /// used without a key.
    pub fn openai_requires_api_key(&self) -> (r: bool)
        ensures
            r == ((self.openai_provider_name matches Some(name) && is_hosted_name(name@)) || (
            self.openai_base_url matches Some(url) && is_hosted_url(url@))),
    {
        let by_name = match &self.openai_provider_name {
            Some(name) => hosted_name(name.as_str()),
            None => false,
        };
        let by_url = match &self.openai_base_url {
            Some(url) => hosted_url(url.as_str()),
            None => false,
        };
        by_name || by_url
    }

    /// Whether the current project is trusted. It is not before its trust is resolved.
    pub fn is_project_trusted(&self) -> (r: bool)
        ensures
            r == (self.project_trust matches Some(t) && t.trusts()),
    {
        match &self.project_trust {
            Some(t) => t.is_trusted(),
            None => false,
        }
    }
}

fn add_model(models: &mut Vec<String>, given: &str)
    ensures
        texts(final(models)@) == if trimmed(given@).len() == 0 || texts(old(models)@).contains(
            trimmed(given@),
        ) {
            texts(old(models)@)
        } else {
            texts(old(models)@).push(trimmed(given@))
        },
{
    let model = text::trim(given);
    if model.unicode_len() > 0 && !holds(models, model) {
        models.push(model.to_owned());
        assert(texts(models@) =~= texts(old(models)@).push(model@));
    }
}

fn holds(list: &Vec<String>, item: &str) -> (r: bool)
    ensures
        r == texts(list@).contains(item@),
{
    let mut i: usize = 0;
    while i < list.len()
        invariant
            i <= list@.len(),
            forall|k: int| 0 <= k < i ==> #[trigger] texts(list@)[k] != item@,
        decreases list.len() - i,
    {
        if text::same(list[i].as_str(), item) {
            assert(texts(list@)[i as int] == item@);
            return true;
        }
        i = i + 1;
    }
    false
}

/// What a project asks to change.
pub struct ProjectOverrides {
    pub model: Option<String>,
    pub permission_mode: Option<String>,
    pub native_tool_filesystem_policy: Option<String>,
    pub bash_filesystem_policy: Option<String>,
}

/// Why a text is no TOML document, if it is none.
pub uninterp spec fn project_error(text: Seq<char>) -> Option<Seq<char>>;

/// `toml::from_str` reads a TOML document, or says why a text is none.
#[verifier::external_body]
pub(crate) fn toml_error(text: &str) -> (r: Option<String>)
    ensures
        text_option(r) == project_error(text@),
{
    toml::from_str::<toml::Value>(text).err().map(|e| e.to_string())
}

/// The string at the top of a TOML document, under a key.
pub uninterp spec fn project_entry(text: Seq<char>, key: Seq<char>) -> Option<Seq<char>>;

/// `toml::Value::get` and `toml::Value::as_str` give the string that a document holds under
/// a key. There is none where the text is no document, it does not hold the key, or it holds
/// something else there.
#[verifier::external_body]
pub(crate) fn toml_entry(text: &str, key: &str) -> (r: Option<String>)
    ensures
        text_option(r) == project_entry(text@, key@),
{
    let document = toml::from_str::<toml::Value>(text).ok()?;
    document.get(key)?.as_str().map(|s| s.to_owned())
}

/// What a project asks to change, from the text of its configuration, or why that is no
/// TOML document.
pub fn read_project_overrides(text: &str) -> (r: Result<ProjectOverrides, String>)
    ensures
        match r {
            Err(e) => project_error(text@) == Some(e@),
            Ok(o) => project_error(text@) is None && text_option(o.model) == project_entry(
                text@,
                "model"@,
            ) && text_option(o.permission_mode) == project_entry(text@, "permission_mode"@)
                && text_option(o.native_tool_filesystem_policy) == project_entry(
                text@,
                "native_tool_filesystem_policy"@,
            ) && text_option(o.bash_filesystem_policy) == project_entry(
                text@,
                "bash_filesystem_policy"@,
            ),
        },
{
    match toml_error(text) {
        Some(e) => Err(e),
        None => Ok(
            ProjectOverrides {
                model: toml_entry(text, "model"),
                permission_mode: toml_entry(text, "permission_mode"),
                native_tool_filesystem_policy: toml_entry(text, "native_tool_filesystem_policy"),
                bash_filesystem_policy: toml_entry(text, "bash_filesystem_policy"),
            },
        ),
    }
}

/// The names of the profiles that have a model.
pub open spec fn profiles_with(
    names: Seq<Seq<char>>,
    profiles: Seq<ModelProfile>,
    model: Seq<char>,
) -> Seq<Seq<char>>
    decreases names.len(),
{
    if names.len() == 0 || profiles.len() == 0 {
        Seq::empty()
    } else {
        let before = profiles_with(names.drop_last(), profiles.drop_last(), model);
        if profiles.last().model@ == model {
            before.push(names.last())
        } else {
            before
        }
    }
}

/// The model after a project's request: it sets the model only where there are no
/// profiles.
pub open spec fn model_after(config: Config, requested: Option<Seq<char>>) -> Seq<char> {
    match requested {
        Some(model) => if config.model_profiles.names().len() == 0 {
            model
        } else {
            config.model@
        },
        None => config.model@,
    }
}

/// The default profile after a project's request: the profile of that name, or the only
/// one that has that model.
pub open spec fn profile_after(config: Config, requested: Option<Seq<char>>) -> Option<Seq<char>> {
    let current = text_option(config.default_profile);
    match requested {
        Some(model) => {
            let found = profiles_with(
                config.model_profiles.names(),
                config.model_profiles.values(),
                model,
            );
            if config.model_profiles.names().len() == 0 {
                current
            } else if config.model_profiles@.contains_key(model) {
                Some(model)
            } else if found.len() == 1 {
                Some(found[0])
            } else {
                current
            }
        },
        None => current,
    }
}

/// The permission mode after a project's request.
pub open spec fn mode_after(
    current: PermissionMode,
    requested: Option<Seq<char>>,
    trusted: bool,
) -> PermissionMode {
    match requested {
        Some(name) => match mode_named(name) {
            Some(mode) => if trusted || trust::rank(mode) <= trust::rank(current) {
                mode
            } else {
                current
            },
            None => current,
        },
        None => current,
    }
}

/// The policy of the built-in file tools after a project's request.
pub open spec fn native_policy_after(
    current: NativeToolFilesystemPolicy,
    requested: Option<Seq<char>>,
    trusted: bool,
) -> NativeToolFilesystemPolicy {
    match requested {
        Some(name) => match sandbox::policy_named(name) {
            Some(policy) => if trusted || sandbox::rank(policy) <= sandbox::rank(current) {
                policy
            } else {
                current
            },
            None => current,
        },
        None => current,
    }
}

/// The policy of shell commands after a project's request.
pub open spec fn bash_policy_after(
    current: BashFilesystemPolicy,
    requested: Option<Seq<char>>,
    trusted: bool,
) -> BashFilesystemPolicy {
    match requested {
        Some(name) => match command_sandbox::policy_named(name) {
            Some(policy) => if trusted || command_sandbox::rank(policy) <= command_sandbox::rank(
                current,
            ) {
                policy
            } else {
                current
            },
            None => current,
        },
        None => current,
    }
}

/// Changes the configuration as a project asks for. Without trust a project may only make
/// policies stricter; what it may not change, and names that are not known, are ignored.
pub fn apply_project_overrides(config: &mut Config, project: &ProjectOverrides, trusted: bool)
    ensures
        *final(config) == (Config {
            model: final(config).model,
            default_profile: final(config).default_profile,
            permission_mode: mode_after(
                old(config).permission_mode,
                text_option(project.permission_mode),
                trusted,
            ),
            native_tool_filesystem_policy: native_policy_after(
                old(config).native_tool_filesystem_policy,
                text_option(project.native_tool_filesystem_policy),
                trusted,
            ),
            bash_filesystem_policy: bash_policy_after(
                old(config).bash_filesystem_policy,
                text_option(project.bash_filesystem_policy),
                trusted,
            ),
            ..*old(config)
        }),
        final(config).model@ == model_after(*old(config), text_option(project.model)),
        text_option(final(config).default_profile) == profile_after(
            *old(config),
            text_option(project.model),
        ),
{
    match &project.model {
        Some(model) => {
            if config.model_profiles.is_empty() {
                config.model = model.clone();
            } else if config.model_profiles.contains_key(model.as_str()) {
                config.default_profile = Some(model.clone());
            } else {
                let found = find_profiles(&config.model_profiles, model.as_str());
                if found.len() == 1 {
                    assert(texts(found@)[0] == found@[0]@);
                    config.default_profile = Some(found[0].clone());
                }
            }
        },
        None => {},
    }
    match &project.permission_mode {
        Some(name) => match PermissionMode::from_name(name.as_str()) {
            Some(mode) => if permits_permission_override(config.permission_mode, mode, trusted) {
                config.permission_mode = mode;
            },
            None => {},
        },
        None => {},
    }
    match &project.native_tool_filesystem_policy {
        Some(name) => match NativeToolFilesystemPolicy::from_name(name.as_str()) {
            Some(policy) => if config.native_tool_filesystem_policy.permits_project_override(
                policy,
                trusted,
            ) {
                config.native_tool_filesystem_policy = policy;
            },
            None => {},
        },
        None => {},
    }
    match &project.bash_filesystem_policy {
        Some(name) => match BashFilesystemPolicy::from_name(name.as_str()) {
            Some(policy) => if config.bash_filesystem_policy.permits_project_override(
                policy,
                trusted,
            ) {
                config.bash_filesystem_policy = policy;
            },
            None => {},
        },
        None => {},
    }
}

fn find_profiles(profiles: &Table<ModelProfile>, model: &str) -> (r: Vec<String>)
    ensures
        texts(r@) == profiles_with(profiles.names(), profiles.values(), model@),
{
    let ghost names = profiles.names();
    let ghost values = profiles.values();
    let n = profiles.len();
    let mut out: Vec<String> = Vec::new();
    assert(texts(out@) =~= profiles_with(names.take(0), values.take(0), model@));
    let mut i: usize = 0;
    while i < n
        invariant
            i <= n,
            n == names.len(),
            n == values.len(),
            names == profiles.names(),
            values == profiles.values(),
            texts(out@) == profiles_with(names.take(i as int), values.take(i as int), model@),
        decreases n - i,
    {
        assert(names.take(i + 1).drop_last() =~= names.take(i as int));
        assert(values.take(i + 1).drop_last() =~= values.take(i as int));
        if text::same(profiles.value_at(i).model.as_str(), model) {
            let ghost before = texts(out@);
            out.push(profiles.name_at(i).clone());
            assert(texts(out@) =~= before.push(names[i as int]));
        }
        i = i + 1;
    }
    assert(names.take(n as int) =~= names);
    assert(values.take(n as int) =~= values);
    out
}

/// A project that is not trusted can only make policies stricter, whatever it asks for.
pub proof fn law_untrusted_only_tightens(
    mode: PermissionMode,
    native: NativeToolFilesystemPolicy,
    bash: BashFilesystemPolicy,
    requested: Option<Seq<char>>,
)
    ensures
        trust::rank(mode_after(mode, requested, false)) <= trust::rank(mode),
        sandbox::rank(native_policy_after(native, requested, false)) <= sandbox::rank(native),
        command_sandbox::rank(bash_policy_after(bash, requested, false))
            <= command_sandbox::rank(bash),
{
}

/// The models offered have no repetitions and are not blank, and the default comes first
/// where it is not blank.
pub proof fn law_default_model_first(config: Config)
    ensures
        config.available().no_duplicates(),
        trimmed(config.model@).len() > 0 ==> config.available().len() > 0
            && config.available()[0] == trimmed(config.model@),
{
    let all = seq![config.model@] + texts(config.models@);
    lemma_distinct_models(all);
}

proof fn lemma_distinct_models(all: Seq<Seq<char>>)
    requires
        all.len() > 0,
    ensures
        distinct_models(all).no_duplicates(),
        trimmed(all[0]).len() > 0 ==> distinct_models(all).len() > 0 && distinct_models(all)[0]
            == trimmed(all[0]),
    decreases all.len(),
{
    if all.len() > 1 {
        lemma_distinct_models(all.drop_last());
    } else {
        assert(distinct_models(all.drop_last()) =~= Seq::empty());
    }
}

/// Where there are profiles and all of them resolve, the default profile comes first.
pub proof fn law_default_profile_first(config: Config)
    requires
        config.model_profiles.names().len() > 0,
        config.default_profile is Some,
        config.selectable() is Ok,
    ensures
        config.selectable()->Ok_0.len() > 0,
        config.selectable()->Ok_0[0].binding.profile == config.default_profile->Some_0@,
{
    config.lemma_results(config.profile_order());
}

impl Config {
    proof fn lemma_results(self, names: Seq<Seq<char>>)
        requires
            self.profile_results(names) is Ok,
        ensures
            self.profile_results(names)->Ok_0.len() == names.len(),
            forall|i: int|
                0 <= i < names.len() ==> (#[trigger] self.profile_results(
                    names,
                )->Ok_0[i]).binding.profile == names[i],
        decreases names.len(),
    {
        if names.len() > 0 {
            self.lemma_results(names.drop_last());
            assert forall|i: int| 0 <= i < names.len() implies (#[trigger] self.profile_results(
                names,
            )->Ok_0[i]).binding.profile == names[i] by {
                if i < names.len() - 1 {
                    assert(self.profile_results(names.drop_last())->Ok_0[i].binding.profile
                        == names.drop_last()[i]);
                }
            }
        }
    }
}

/// A saved binding keeps its transport whatever the configuration became; only its
/// credentials and metadata are looked up anew.
pub proof fn law_saved_binding_kept(config: Config, binding: BindingView)
    ensures
        config.restored(binding).binding == binding,
{
}

/// Where a key comes from: one in the configuration counts before one that the credential
/// command printed, that before one in the environment, and that before the token of a
/// login with Anthropic.
pub proof fn law_credential_order(
    model: ResolvedView,
    printed: Option<Seq<u8>>,
    environment: Option<Seq<char>>,
    token: Option<Seq<char>>,
)
    ensures
        model.direct_key() is Some ==> model.key(printed, environment, token) == model.api_key,
        model.direct_key() is None && model.printed_key(printed) is Some ==> model.key(
            printed,
            environment,
            token,
        ) == model.printed_key(printed),
        model.direct_key() is None && model.printed_key(printed) is None && filled(
            environment,
        ) is Some ==> model.key(printed, environment, token) == environment,
        model.direct_key() is None && model.printed_key(printed) is None && filled(
            environment,
        ) is None ==> model.key(printed, environment, token) == model.login_token(token),
{
}

} // verus!
