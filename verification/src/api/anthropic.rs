//! Requests to the Anthropic Messages API.

use vstd::prelude::*;
use vstd::string::StringExecFns;
use crate::api::openai_compat::{
    object1, one_field, strip_trailing_slashes, without_trailing_slashes,
};
use crate::api::types::{
    message_views, tool_views, Message, MessageView, ToolDefinition, ToolDefinitionView,
};
use crate::api::wire::{messages_json, messages_to_json};
use crate::config::{AnthropicApiKey, AuthMethod, AuthView};
use crate::json::{json_views, push_field, set_field, unsigned_number, Json, JsonView};
use crate::text;
use crate::text::{pair_views, split_parts, texts};

verus! {

/// Stands between the blocks of a system prompt. The Anthropic provider splits on it
/// and sends an array of text blocks; other providers send one string.
pub const SYSTEM_PROMPT_BLOCK_SEPARATOR: &'static str = "\n__CLAUX_BLOCK__\n";

/// The mark of a cache breakpoint.
pub open spec fn ephemeral() -> JsonView {
    object1("type"@, JsonView::Text("ephemeral"@))
}

fn make_ephemeral() -> (r: Json)
    ensures
        r@ == ephemeral(),
{
    one_field("type", Json::text("ephemeral"))
}

/// Whether a value can be given a field: it is an object, or null, which becomes one.
pub open spec fn takes_fields(v: JsonView) -> bool {
    v is Object || v is Null
}

/// A value that takes fields, with one more field.
pub open spec fn with_field(v: JsonView, key: Seq<char>, field: JsonView) -> JsonView {
    match v {
        JsonView::Object(m) => JsonView::Object(m.insert(key, field)),
        _ => object1(key, field),
    }
}

/// Gives a value a field.
pub fn put_field(v: &mut Json, key: &str, field: Json)
    requires
        takes_fields(old(v)@),
    ensures
        final(v)@ == with_field(old(v)@, key@, field@),
{
    match v {
        Json::Object(fields) => {
            set_field(fields, key, field);
        },
        _ => {
            *v = one_field(key, field);
        },
    }
}

/// Blocks with a breakpoint on the last of them.
pub open spec fn marked_last(blocks: Seq<JsonView>) -> Seq<JsonView> {
    if blocks.len() == 0 {
        blocks
    } else {
        blocks.update(blocks.len() - 1, with_field(blocks.last(), "cache_control"@, ephemeral()))
    }
}

/// Whether the last of the blocks, if there is one, can be marked.
pub open spec fn markable_last(blocks: Seq<JsonView>) -> bool {
    blocks.len() > 0 ==> takes_fields(blocks.last())
}

fn mark_last(blocks: &mut Vec<Json>)
    requires
        markable_last(json_views(old(blocks)@)),
    ensures
        json_views(final(blocks)@) == marked_last(json_views(old(blocks)@)),
{
    if blocks.len() > 0 {
        let last: usize = blocks.len() - 1;
        assert(json_views(blocks@).last() == blocks@[last as int]@);
        put_field(&mut blocks[last], "cache_control", make_ephemeral());
        assert(json_views(blocks@) =~= marked_last(json_views(old(blocks)@)));
    }
}

/// A text as a block that ends in a breakpoint.
pub open spec fn cached_text(text: Seq<char>) -> JsonView {
    JsonView::Object(
        map![
            "type"@ => JsonView::Text("text"@),
            "text"@ => JsonView::Text(text),
            "cache_control"@ => ephemeral(),
        ],
    )
}

/// A message with a breakpoint on its last content block. A string is lifted into the
/// text block that it amounts to, since a breakpoint can only stand on a block.
pub open spec fn marked_message(message: JsonView) -> JsonView {
    match message.get("content"@) {
        Some(JsonView::Text(t)) => with_field(
            message,
            "content"@,
            JsonView::Array(seq![cached_text(t)]),
        ),
        Some(JsonView::Array(blocks)) => with_field(
            message,
            "content"@,
            JsonView::Array(marked_last(blocks)),
        ),
        Some(_) => message,
        None => with_field(message, "content"@, JsonView::Null),
    }
}

/// Whether a message can be given a breakpoint.
pub open spec fn markable_message(message: JsonView) -> bool {
    &&& takes_fields(message)
    &&& message.get("content"@) matches Some(JsonView::Array(blocks)) ==> markable_last(blocks)
}

/// Sets a breakpoint on the last content block of a message.
pub fn mark_last_block(message: &mut Json)
    requires
        markable_message(old(message)@),
    ensures
        final(message)@ == marked_message(old(message)@),
{
    let content = match message.get("content") {
        None => Json::Null,
        Some(Json::Text(t)) => {
            let mut fields: Vec<(String, Json)> = Vec::new();
            push_field(&mut fields, "type", Json::text("text"));
            push_field(&mut fields, "text", Json::text(t.as_str()));
            push_field(&mut fields, "cache_control", make_ephemeral());
            let mut blocks: Vec<Json> = Vec::new();
            blocks.push(Json::Object(fields));
            assert(json_views(blocks@) =~= seq![cached_text(t@)]);
            Json::Array(blocks)
        },
        Some(Json::Array(items)) => {
            let mut blocks = crate::api::types::duplicate_json_list(items);
            mark_last(&mut blocks);
            Json::Array(blocks)
        },
        Some(_) => return ,
    };
    put_field(message, "content", content);
}

/// Whether a message is a user message.
pub open spec fn is_user(message: JsonView) -> bool {
    message.at("role"@) == JsonView::Text("user"@)
}

/// The number of user messages after the one at `i`.
pub open spec fn users_after(messages: Seq<JsonView>, i: int) -> nat
    decreases messages.len() - i,
{
    if i + 1 >= messages.len() {
        0
    } else {
        users_after(messages, i + 1) + if is_user(messages[i + 1]) {
            1nat
        } else {
            0nat
        }
    }
}

/// Whether the message at `i` is one of the last two user messages.
pub open spec fn among_last_two_users(messages: Seq<JsonView>, i: int) -> bool {
    0 <= i < messages.len() && is_user(messages[i]) && users_after(messages, i) < 2
}

/// Messages with breakpoints on the last two user messages.
pub open spec fn marked_messages(messages: Seq<JsonView>) -> Seq<JsonView> {
    Seq::new(
        messages.len(),
        |i: int|
            if among_last_two_users(messages, i) {
                marked_message(messages[i])
            } else {
                messages[i]
            },
    )
}

/// Of any three user messages the first is not among the last two: the moving
/// breakpoints are at most two.
pub proof fn law_two_moving_breakpoints(messages: Seq<JsonView>, i: int, j: int, k: int)
    requires
        0 <= i < j < k < messages.len(),
        is_user(messages[i]),
        is_user(messages[j]),
        is_user(messages[k]),
    ensures
        !among_last_two_users(messages, i),
{
    lemma_users_after_grows(messages, j, k);
    lemma_users_after_grows(messages, i, j);
}

proof fn lemma_users_after_grows(messages: Seq<JsonView>, i: int, j: int)
    requires
        0 <= i < j < messages.len(),
        is_user(messages[j]),
    ensures
        users_after(messages, i) >= users_after(messages, j) + 1,
    decreases j - i,
{
    if i + 1 < j {
        lemma_users_after_grows(messages, i + 1, j);
    }
}

fn has_user_role(message: &Json) -> (r: bool)
    ensures
        r == is_user(message@),
{
    match message.text_at("role") {
        Some(role) => text::same(role, "user"),
        None => false,
    }
}

fn mark_messages(messages: &mut Vec<Json>)
    requires
        forall|i: int|
            #![trigger among_last_two_users(json_views(old(messages)@), i)]
            among_last_two_users(json_views(old(messages)@), i) ==> markable_message(
                json_views(old(messages)@)[i],
            ),
    ensures
        json_views(final(messages)@) == marked_messages(json_views(old(messages)@)),
{
    let ghost all = json_views(messages@);
    let mut i: usize = messages.len();
    let mut seen: usize = 0;
    while i > 0
        invariant
            i <= messages@.len(),
            messages.len() == all.len(),
            all == json_views(old(messages)@),
            seen <= messages@.len() - i,
            forall|k: int|
                #![trigger among_last_two_users(all, k)]
                among_last_two_users(all, k) ==> markable_message(all[k]),
            forall|k: int| 0 <= k < i ==> (#[trigger] messages@[k])@ == all[k],
            forall|k: int|
                i <= k < all.len() ==> (#[trigger] messages@[k])@ == marked_messages(all)[k],
            i > 0 ==> seen == users_after(all, i - 1),
        decreases i,
    {
        let k: usize = i - 1;
        assert(messages@[k as int]@ == all[k as int]);
        let user = has_user_role(&messages[k]);
        assert(user && seen < 2 <==> among_last_two_users(all, k as int));
        if user && seen < 2 {
            mark_last_block(&mut messages[k]);
        }
        if user {
            seen = seen + 1;
        }
        i = k;
    }
    assert(json_views(messages@) =~= marked_messages(all));
}

/// The body of a request with cache breakpoints.
pub open spec fn with_breakpoints(body: JsonView) -> JsonView {
    let with_system = match body.get("system"@) {
        Some(JsonView::Array(blocks)) => with_field(
            body,
            "system"@,
            JsonView::Array(marked_last(blocks)),
        ),
        Some(_) => body,
        None => with_field(body, "system"@, JsonView::Null),
    };
    match with_system.get("messages"@) {
        Some(JsonView::Array(messages)) => with_field(
            with_system,
            "messages"@,
            JsonView::Array(marked_messages(messages)),
        ),
        Some(_) => with_system,
        None => with_field(with_system, "messages"@, JsonView::Null),
    }
}

/// Whether breakpoints can be set in the body of a request.
pub open spec fn takes_breakpoints(body: JsonView) -> bool {
    &&& takes_fields(body)
    &&& body.get("system"@) matches Some(JsonView::Array(blocks)) ==> markable_last(blocks)
    &&& body.get("messages"@) matches Some(JsonView::Array(messages)) ==> forall|i: int|
        #![trigger among_last_two_users(messages, i)]
        among_last_two_users(messages, i) ==> markable_message(messages[i])
}

/// Sets cache breakpoints in the body of a request: one on the last system block, for
/// what stays the same over the session, and one on each of the last two user messages,
/// for the growing conversation.
pub fn add_cache_breakpoints(body: &mut Json)
    requires
        takes_breakpoints(old(body)@),
    ensures
        final(body)@ == with_breakpoints(old(body)@),
{
    proof {
        reveal_strlit("system");
        reveal_strlit("messages");
        assert("system"@.len() == 6);
        assert("messages"@.len() == 8);
    }
    let system = match body.get("system") {
        None => Some(Json::Null),
        Some(Json::Array(items)) => {
            let mut blocks = crate::api::types::duplicate_json_list(items);
            mark_last(&mut blocks);
            Some(Json::Array(blocks))
        },
        Some(_) => None,
    };
    match system {
        Some(blocks) => {
            put_field(body, "system", blocks);
        },
        None => {},
    }
    let messages = match body.get("messages") {
        None => Some(Json::Null),
        Some(Json::Array(items)) => {
            let mut marked = crate::api::types::duplicate_json_list(items);
            mark_messages(&mut marked);
            Some(Json::Array(marked))
        },
        Some(_) => None,
    };
    match messages {
        Some(marked) => {
            put_field(body, "messages", marked);
        },
        None => {},
    }
}

/// A provider that speaks the Anthropic Messages API.
pub struct AnthropicProvider {
    pub auth: AuthMethod,
    pub model: String,
    pub api_url: String,
}

/// The headers of requests: a key and a token are sent in different ones.
pub open spec fn headers_with(auth: AuthView) -> Seq<(Seq<char>, Seq<char>)> {
    let plain = seq![
        ("anthropic-version"@, "2023-06-01"@),
        ("content-type"@, "application/json"@),
    ];
    match auth {
        AuthView::ApiKey(key) => plain.push(("x-api-key"@, key)),
        AuthView::OAuthToken(token) => plain.push(("Authorization"@, "Bearer "@ + token)).push(
            ("anthropic-beta"@, "oauth-2025-04-20"@),
        ),
    }
}

/// A text block.
pub open spec fn text_block(text: Seq<char>) -> JsonView {
    JsonView::Object(map!["type"@ => JsonView::Text("text"@), "text"@ => JsonView::Text(text)])
}

/// The text blocks of a system prompt.
pub open spec fn system_blocks(system: Seq<char>) -> Seq<JsonView> {
    let parts = split_parts(system, SYSTEM_PROMPT_BLOCK_SEPARATOR@);
    Seq::new(parts.len(), |i: int| text_block(parts[i]))
}

/// The JSON form of a tool definition.
pub open spec fn tool_json(tool: ToolDefinitionView) -> JsonView {
    JsonView::Object(
        map![
            "name"@ => JsonView::Text(tool.name),
            "description"@ => JsonView::Text(tool.description),
            "input_schema"@ => tool.input_schema,
        ],
    )
}

/// The JSON forms of tool definitions.
pub open spec fn tools_json(tools: Seq<ToolDefinitionView>) -> Seq<JsonView> {
    Seq::new(tools.len(), |i: int| tool_json(tools[i]))
}

/// The body of a request before breakpoints are set in it.
pub open spec fn plain_body(
    model: Seq<char>,
    messages: Seq<MessageView>,
    system: Seq<char>,
    tools: Seq<ToolDefinitionView>,
    max_tokens: u32,
) -> JsonView {
    let plain =
        map![
        "model"@ => JsonView::Text(model),
        "max_tokens"@ => JsonView::Number(unsigned_number(max_tokens as u64)),
        "system"@ => JsonView::Array(system_blocks(system)),
        "messages"@ => JsonView::Array(messages_json(messages)),
        "stream"@ => JsonView::Bool(true),
    ];
    JsonView::Object(
        if tools.len() > 0 {
            plain.insert("tools"@, JsonView::Array(tools_json(tools)))
        } else {
            plain
        },
    )
}

/// Breakpoints can be set in every request that the provider makes.
pub proof fn lemma_plain_body_takes_breakpoints(
    model: Seq<char>,
    messages: Seq<MessageView>,
    system: Seq<char>,
    tools: Seq<ToolDefinitionView>,
    max_tokens: u32,
)
    ensures
        takes_breakpoints(plain_body(model, messages, system, tools, max_tokens)),
{
    reveal_strlit("system");
    reveal_strlit("messages");
    reveal_strlit("stream");
    reveal_strlit("tools");
    reveal_strlit("role");
    reveal_strlit("content");
    assert("system"@.len() == 6);
    assert("messages"@.len() == 8);
    assert("stream"@.len() == 6);
    assert("system"@[1] == 'y');
    assert("stream"@[1] == 't');
    assert("tools"@.len() == 5);
    assert("role"@.len() == 4);
    assert("content"@.len() == 7);
    let body = plain_body(model, messages, system, tools, max_tokens);
    assert(body.get("system"@) == Some(JsonView::Array(system_blocks(system))));
    assert(body.get("messages"@) == Some(JsonView::Array(messages_json(messages))));
    let forms = messages_json(messages);
    assert forall|i: int| #[trigger]
        among_last_two_users(forms, i) implies markable_message(forms[i]) by {
        let form = forms[i];
        assert(form.get("content"@) == Some(
            crate::api::wire::content_json(messages[i].content),
        ));
    }
}

impl AnthropicProvider {
    /// A provider that uses the public API.
    pub fn new(auth: AuthMethod, model: &str) -> (r: AnthropicProvider)
        ensures
            r.auth@ == auth@,
            r.model@ == model@,
            r.api_url@ == "https://api.anthropic.com/v1/messages"@,
    {
        AnthropicProvider {
            auth,
            model: model.to_owned(),
            api_url: "https://api.anthropic.com/v1/messages".to_owned(),
        }
    }

    /// A provider that uses the API at another root.
    pub fn with_base_url(api_key: AnthropicApiKey, model: &str, base_url: &str) -> (r:
        AnthropicProvider)
        ensures
            r.auth@ == AuthView::ApiKey(api_key@),
            r.model@ == model@,
            r.api_url@ == without_trailing_slashes(base_url@) + "/messages"@,
    {
        let mut api_url = strip_trailing_slashes(base_url).to_owned();
        api_url.append("/messages");
        AnthropicProvider { auth: AuthMethod::ApiKey(api_key), model: model.to_owned(), api_url }
    }

    /// The headers of requests.
    pub fn request_headers(&self) -> (r: Vec<(String, String)>)
        ensures
            pair_views(r@) == headers_with(self.auth@),
    {
        let mut headers: Vec<(String, String)> = Vec::new();
        headers.push(("anthropic-version".to_owned(), "2023-06-01".to_owned()));
        headers.push(("content-type".to_owned(), "application/json".to_owned()));
        match &self.auth {
            AuthMethod::ApiKey(key) => {
                headers.push(("x-api-key".to_owned(), key.expose().to_owned()));
            },
            AuthMethod::OAuthToken(token) => {
                let mut value = "Bearer ".to_owned();
                value.append(token.as_str());
                headers.push(("Authorization".to_owned(), value));
                headers.push(("anthropic-beta".to_owned(), "oauth-2025-04-20".to_owned()));
            },
        }
        assert(pair_views(headers@) =~= headers_with(self.auth@));
        headers
    }

    /// The name of the provider.
    pub fn name(&self) -> (r: &'static str)
        ensures
            r@ == "anthropic"@,
    {
        "anthropic"
    }

    /// The model in use.
    pub fn model(&self) -> (r: &str)
        ensures
            r@ == self.model@,
    {
        self.model.as_str()
    }

    /// Changes the model.
    pub fn set_model(&mut self, model: &str)
        ensures
            final(self).model@ == model@,
            *final(self) == (AnthropicProvider { model: final(self).model, ..*old(self) }),
    {
        self.model = model.to_owned();
    }

    /// The body of a request, with cache breakpoints.
    pub fn request_body(
        &self,
        messages: &[Message],
        system: &str,
        tools: &[ToolDefinition],
        max_tokens: u32,
    ) -> (r: Json)
        ensures
            r@ == with_breakpoints(
                plain_body(
                    self.model@,
                    message_views(messages@),
                    system@,
                    tool_views(tools@),
                    max_tokens,
                ),
            ),
    {
        proof {
            reveal_strlit("\n__CLAUX_BLOCK__\n");
        }
        assert(SYSTEM_PROMPT_BLOCK_SEPARATOR@.len() > 0);
        let parts = text::split(system, SYSTEM_PROMPT_BLOCK_SEPARATOR);
        let mut blocks: Vec<Json> = Vec::new();
        let mut i: usize = 0;
        while i < parts.len()
            invariant
                i == blocks@.len(),
                i <= parts@.len(),
                forall|k: int| 0 <= k < i ==> blocks@[k]@ == text_block(parts@[k]@),
            decreases parts.len() - i,
        {
            let mut fields: Vec<(String, Json)> = Vec::new();
            push_field(&mut fields, "type", Json::text("text"));
            push_field(&mut fields, "text", Json::text(parts[i].as_str()));
            blocks.push(Json::Object(fields));
            i = i + 1;
        }
        assert(json_views(blocks@) =~= system_blocks(system@)) by {
            assert forall|k: int| 0 <= k < blocks@.len() implies json_views(blocks@)[k]
                == system_blocks(system@)[k] by {
                assert(texts(parts@)[k] == parts@[k]@);
            }
        }
        let mut fields: Vec<(String, Json)> = Vec::new();
        push_field(&mut fields, "model", Json::text(self.model.as_str()));
        push_field(&mut fields, "max_tokens", Json::uint(max_tokens as u64));
        push_field(&mut fields, "system", Json::Array(blocks));
        push_field(&mut fields, "messages", Json::Array(messages_to_json(messages)));
        push_field(&mut fields, "stream", Json::Bool(true));
        if tools.len() > 0 {
            let mut forms: Vec<Json> = Vec::new();
            let mut j: usize = 0;
            while j < tools.len()
                invariant
                    j == forms@.len(),
                    j <= tools@.len(),
                    forall|k: int| 0 <= k < j ==> forms@[k]@ == tool_json(tools@[k]@),
                decreases tools.len() - j,
            {
                let mut tool: Vec<(String, Json)> = Vec::new();
                push_field(&mut tool, "name", Json::text(tools[j].name.as_str()));
                push_field(&mut tool, "description", Json::text(tools[j].description.as_str()));
                push_field(&mut tool, "input_schema", tools[j].input_schema.duplicate());
                forms.push(Json::Object(tool));
                j = j + 1;
            }
            assert(json_views(forms@) =~= tools_json(tool_views(tools@)));
            push_field(&mut fields, "tools", Json::Array(forms));
        }
        let mut body = Json::Object(fields);
        proof {
            lemma_plain_body_takes_breakpoints(
                self.model@,
                message_views(messages@),
                system@,
                tool_views(tools@),
                max_tokens,
            );
        }
        add_cache_breakpoints(&mut body);
        body
    }
}

} // verus!
