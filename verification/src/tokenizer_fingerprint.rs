//! Comparison of models by the number of tokens that they count for the same texts.

use vstd::prelude::*;
use vstd::string::{StrSliceExecFns, StringExecFns};
use vstd::utf8::encode_utf8;
use crate::api::error::{is_status, status_line, status_text};
use crate::api::types::text_option;
use crate::auth::{sha256, sha256_digest};
use crate::json::{fields_map, json_views, push_field, unsigned_number, Json, JsonView};
use crate::paths;
use crate::paths::joined_path;
use crate::table::Table;
use crate::text;
use crate::text::{
    decimal, hex, is_blank, joined, padded, right_aligned, signed_decimal, texts,
};

verus! {

/// Where requests are made.
pub const OPENROUTER_API_BASE: &'static str = "https://openrouter.ai/api/v1";

/// How often a request is tried.
pub const MAX_REQUEST_ATTEMPTS: usize = 6;

/// The version of the form in which progress is kept.
pub const CHECKPOINT_SCHEMA_VERSION: u32 = 1;

/// What stands before every text.
pub const WRAPPER_PREFIX: &'static str = "CLX_TOKENIZER_FINGERPRINT_BEGIN\n";

/// What stands behind every text.
pub const WRAPPER_SUFFIX: &'static str = "\nCLX_TOKENIZER_FINGERPRINT_END";

/// What is compared.
pub const METHOD: &'static str = "native prompt-token deltas against a fixed chat wrapper";

/// The texts that are counted, under their names.
pub open spec fn probe_table() -> Seq<(Seq<char>, Seq<char>)> {
    seq![
        ("english-short"@, "hello infrastructure world"@),
        ("english-prose"@, "The quick brown fox jumps over the lazy dog while the service recovers."@),
        ("camel-snake"@, "tokenizerFingerprint native_tokens_prompt retry_after_ms"@),
        ("shell"@, "systemctl restart nginx && journalctl -u nginx --since '-5 min'"@),
        ("python"@, "def repair(node_id: str) -> bool:\n    return health[node_id] == 'ready'"@),
        ("rust"@, "let repaired: Result<Vec<_>, Error> = nodes.into_iter().map(repair).collect();"@),
        ("json"@, "{\"service\":\"api\",\"replicas\":3,\"healthy\":true,\"latency_ms\":12.5}"@),
        ("punctuation"@, "!@#$%^&*()_+-=[]{}|;:',.<>/?`~\\\""@),
        ("numbers"@, "000001 1234567890 3.141592653589793 2026-08-24T16:40:10Z"@),
        ("whitespace"@, "alpha  beta\t\tgamma\n\n    delta"@),
        ("repetition"@, "abababababababababababababababab xyzxyzxyzxyzxyzxyz"@),
        ("urls"@, "https://例え.テスト/api/v1/健康?节点=主库&ready=true"@),
        ("chinese-common"@, "你好，世界。这个基础设施服务正在恢复。"@),
        ("chinese-ops"@, "数据库连接池已耗尽，请检查主节点、只读副本和故障转移状态。"@),
        ("chinese-mixed"@, "部署 API gateway 到 us-west-2，然后验证 Redis 和 PostgreSQL。"@),
        ("japanese"@, "障害発生後にサービスを再起動し、データベース接続を確認します。"@),
        ("korean"@, "장애 조치 후 서비스와 데이터베이스 연결 상태를 확인합니다."@),
        ("cyrillic"@, "После сбоя проверьте службу, базу данных и очередь заданий."@),
        ("arabic"@, "بعد التعطل، تحقق من الخدمة وقاعدة البيانات وقائمة الانتظار."@),
        ("emoji"@, "🧪🚀🛠️✅❌🔥🤠 infrastructure 👨‍💻👩🏽‍🔧"@),
        ("combining"@, "cafe\u{301} nai\u{308}ve A\u{30a} re\u{301}sume\u{301}"@),
        ("rare-unicode"@, "𠮷野家 𓀀 ∑ ∆ ∞ → ⟶ ⊕ ⌘ ⚙︎"@),
        ("zero-width"@, "token\u{200b}izer join\u{200d}ed soft\u{00ad}hyphen"@),
        ("long-identifiers"@, "HTTPRequestDurationMilliseconds database_connection_pool_exhausted"@),
    ]
}

/// A text that is counted.
pub struct Probe {
    pub name: &'static str,
    pub text: &'static str,
}

/// The texts that are counted, under their names.
pub open spec fn probe_views(probes: Seq<Probe>) -> Seq<(Seq<char>, Seq<char>)> {
    probes.map_values(|p: Probe| (p.name@, p.text@))
}

fn add_probe(table: &mut Vec<Probe>, name: &'static str, text: &'static str)
    ensures
        probe_views(final(table)@) == probe_views(old(table)@).push((name@, text@)),
{
    table.push(Probe { name, text });
    assert(probe_views(table@) =~= probe_views(old(table)@).push((name@, text@)));
}

/// The texts that are counted, under their names.
pub fn probes() -> (r: Vec<Probe>)
    ensures
        probe_views(r@) == probe_table(),
{
    let mut table: Vec<Probe> = Vec::new();
    assert(probe_views(table@) =~= Seq::empty());
    add_probe(&mut table, "english-short", "hello infrastructure world");
    add_probe(&mut table, "english-prose", "The quick brown fox jumps over the lazy dog while the service recovers.");
    add_probe(&mut table, "camel-snake", "tokenizerFingerprint native_tokens_prompt retry_after_ms");
    add_probe(&mut table, "shell", "systemctl restart nginx && journalctl -u nginx --since '-5 min'");
    add_probe(&mut table, "python", "def repair(node_id: str) -> bool:\n    return health[node_id] == 'ready'");
    add_probe(&mut table, "rust", "let repaired: Result<Vec<_>, Error> = nodes.into_iter().map(repair).collect();");
    add_probe(&mut table, "json", "{\"service\":\"api\",\"replicas\":3,\"healthy\":true,\"latency_ms\":12.5}");
    add_probe(&mut table, "punctuation", "!@#$%^&*()_+-=[]{}|;:',.<>/?`~\\\"");
    add_probe(&mut table, "numbers", "000001 1234567890 3.141592653589793 2026-08-24T16:40:10Z");
    add_probe(&mut table, "whitespace", "alpha  beta\t\tgamma\n\n    delta");
    add_probe(&mut table, "repetition", "abababababababababababababababab xyzxyzxyzxyzxyzxyz");
    add_probe(&mut table, "urls", "https://例え.テスト/api/v1/健康?节点=主库&ready=true");
    add_probe(&mut table, "chinese-common", "你好，世界。这个基础设施服务正在恢复。");
    add_probe(&mut table, "chinese-ops", "数据库连接池已耗尽，请检查主节点、只读副本和故障转移状态。");
    add_probe(&mut table, "chinese-mixed", "部署 API gateway 到 us-west-2，然后验证 Redis 和 PostgreSQL。");
    add_probe(&mut table, "japanese", "障害発生後にサービスを再起動し、データベース接続を確認します。");
    add_probe(&mut table, "korean", "장애 조치 후 서비스와 데이터베이스 연결 상태를 확인합니다.");
    add_probe(&mut table, "cyrillic", "После сбоя проверьте службу, базу данных и очередь заданий.");
    add_probe(&mut table, "arabic", "بعد التعطل، تحقق من الخدمة وقاعدة البيانات وقائمة الانتظار.");
    add_probe(&mut table, "emoji", "🧪🚀🛠️✅❌🔥🤠 infrastructure 👨‍💻👩🏽‍🔧");
    add_probe(&mut table, "combining", "cafe\u{301} nai\u{308}ve A\u{30a} re\u{301}sume\u{301}");
    add_probe(&mut table, "rare-unicode", "𠮷野家 𓀀 ∑ ∆ ∞ → ⟶ ⊕ ⌘ ⚙︎");
    add_probe(&mut table, "zero-width", "token\u{200b}izer join\u{200d}ed soft\u{00ad}hyphen");
    add_probe(&mut table, "long-identifiers", "HTTPRequestDurationMilliseconds database_connection_pool_exhausted");
    assert(probe_views(table@) =~= probe_table());
    table
}

/// What a text checks.
pub open spec fn described(name: Seq<char>) -> Seq<char> {
    if name == "english-short"@ {
        "Common English words and spacing"@
    } else if name == "english-prose"@ {
        "English sentence-piece segmentation"@
    } else if name == "camel-snake"@ {
        "CamelCase, snake_case, and technical identifiers"@
    } else if name == "shell"@ {
        "Shell commands, flags, operators, and quoting"@
    } else if name == "python"@ {
        "Python syntax, indentation, and type annotations"@
    } else if name == "rust"@ {
        "Rust generics, paths, punctuation, and method chains"@
    } else if name == "json"@ {
        "Compact JSON keys, values, punctuation, and decimals"@
    } else if name == "punctuation"@ {
        "Dense ASCII symbols and escape-sensitive characters"@
    } else if name == "numbers"@ {
        "Leading zeros, long integers, decimals, and timestamps"@
    } else if name == "whitespace"@ {
        "Repeated spaces, tabs, newlines, and indentation"@
    } else if name == "repetition"@ {
        "Repeated substring merge behavior"@
    } else if name == "urls"@ {
        "Unicode domains, URL syntax, paths, and query parameters"@
    } else if name == "chinese-common"@ {
        "Common Simplified Chinese characters and punctuation"@
    } else if name == "chinese-ops"@ {
        "Chinese infrastructure vocabulary and longer compounds"@
    } else if name == "chinese-mixed"@ {
        "Chinese-English code switching and product names"@
    } else if name == "japanese"@ {
        "Japanese scripts and operational vocabulary"@
    } else if name == "korean"@ {
        "Korean Hangul and operational vocabulary"@
    } else if name == "cyrillic"@ {
        "Cyrillic segmentation and inflected words"@
    } else if name == "arabic"@ {
        "Arabic script, joining behavior, and punctuation"@
    } else if name == "emoji"@ {
        "Emoji sequences, variation selectors, and skin tones"@
    } else if name == "combining"@ {
        "Decomposed Latin characters with combining marks"@
    } else if name == "rare-unicode"@ {
        "Rare CJK, ancient symbols, math, and technical glyphs"@
    } else if name == "zero-width"@ {
        "Zero-width joiners, spaces, and soft hyphens"@
    } else if name == "long-identifiers"@ {
        "Long compound identifiers common in telemetry and code"@
    } else {
        "Tokenizer segmentation behavior"@
    }
}

/// What a text checks.
pub fn probe_description(name: &str) -> (r: &'static str)
    ensures
        r@ == described(name@),
{
    if text::same(name, "english-short") {
        "Common English words and spacing"
    } else if text::same(name, "english-prose") {
        "English sentence-piece segmentation"
    } else if text::same(name, "camel-snake") {
        "CamelCase, snake_case, and technical identifiers"
    } else if text::same(name, "shell") {
        "Shell commands, flags, operators, and quoting"
    } else if text::same(name, "python") {
        "Python syntax, indentation, and type annotations"
    } else if text::same(name, "rust") {
        "Rust generics, paths, punctuation, and method chains"
    } else if text::same(name, "json") {
        "Compact JSON keys, values, punctuation, and decimals"
    } else if text::same(name, "punctuation") {
        "Dense ASCII symbols and escape-sensitive characters"
    } else if text::same(name, "numbers") {
        "Leading zeros, long integers, decimals, and timestamps"
    } else if text::same(name, "whitespace") {
        "Repeated spaces, tabs, newlines, and indentation"
    } else if text::same(name, "repetition") {
        "Repeated substring merge behavior"
    } else if text::same(name, "urls") {
        "Unicode domains, URL syntax, paths, and query parameters"
    } else if text::same(name, "chinese-common") {
        "Common Simplified Chinese characters and punctuation"
    } else if text::same(name, "chinese-ops") {
        "Chinese infrastructure vocabulary and longer compounds"
    } else if text::same(name, "chinese-mixed") {
        "Chinese-English code switching and product names"
    } else if text::same(name, "japanese") {
        "Japanese scripts and operational vocabulary"
    } else if text::same(name, "korean") {
        "Korean Hangul and operational vocabulary"
    } else if text::same(name, "cyrillic") {
        "Cyrillic segmentation and inflected words"
    } else if text::same(name, "arabic") {
        "Arabic script, joining behavior, and punctuation"
    } else if text::same(name, "emoji") {
        "Emoji sequences, variation selectors, and skin tones"
    } else if text::same(name, "combining") {
        "Decomposed Latin characters with combining marks"
    } else if text::same(name, "rare-unicode") {
        "Rare CJK, ancient symbols, math, and technical glyphs"
    } else if text::same(name, "zero-width") {
        "Zero-width joiners, spaces, and soft hyphens"
    } else if text::same(name, "long-identifiers") {
        "Long compound identifiers common in telemetry and code"
    } else {
        "Tokenizer segmentation behavior"
    }
}

/// A text in its wrapper.
pub open spec fn in_wrapper(probe: Seq<char>) -> Seq<char> {
    WRAPPER_PREFIX@ + probe + WRAPPER_SUFFIX@
}

/// A text in its wrapper.
pub fn wrapped(probe: &str) -> (r: String)
    ensures
        r@ == in_wrapper(probe@),
{
    let mut out = WRAPPER_PREFIX.to_owned();
    out.append(probe);
    out.append(WRAPPER_SUFFIX);
    out
}

/// Texts that differ still differ in their wrappers.
pub proof fn law_wrapper_keeps_probes_apart(a: Seq<char>, b: Seq<char>)
    requires
        in_wrapper(a) == in_wrapper(b),
    ensures
        a == b,
{
    let n = WRAPPER_PREFIX@.len() as int;
    let m = WRAPPER_SUFFIX@.len() as int;
    let x = in_wrapper(a);
    let y = in_wrapper(b);
    assert(x.len() == n + a.len() + m);
    assert(y.len() == n + b.len() + m);
    assert(x.subrange(n, n + a.len()) =~= a);
    assert(y.subrange(n, n + b.len()) =~= b);
}

/// The key of OpenRouter: that of the environment where it is not blank, else the one that
/// is stored.
pub fn openrouter_key(environment: Option<&str>, stored: Option<String>) -> (r: Result<
    String,
    String,
>)
    ensures
        match (environment, stored) {
            (Some(key), _) if !is_blank(key@) => r matches Ok(k) && k@ == key@,
            (_, Some(key)) => r matches Ok(k) && k@ == key@,
            (_, None) => r matches Err(e) && e@
                == "OpenRouter authentication is not configured; set OPENROUTER_API_KEY or run `claux auth login openrouter`"@,
        },
{
    match environment {
        Some(key) => if !text::blank(key) {
            return Ok(key.to_owned());
        },
        None => {},
    }
    match stored {
        Some(key) => Ok(key),
        None => Err(
            "OpenRouter authentication is not configured; set OPENROUTER_API_KEY or run `claux auth login openrouter`".to_owned(),
        ),
    }
}

/// The models of a list that came before in it.
pub open spec fn repeated(models: Seq<Seq<char>>) -> Seq<Seq<char>>
    decreases models.len(),
{
    if models.len() == 0 {
        Seq::empty()
    } else {
        let before = repeated(models.drop_last());
        if models.drop_last().contains(models.last()) {
            before.push(models.last())
        } else {
            before
        }
    }
}

/// The models of a list that a catalog does not have.
pub open spec fn unlisted(models: Seq<Seq<char>>, catalog: Map<Seq<char>, Option<String>>) -> Seq<
    Seq<char>,
> {
    models.filter(|m: Seq<char>| !catalog.contains_key(m))
}

/// What is wrong with a list of models, if something is.
pub open spec fn models_error(
    models: Seq<Seq<char>>,
    catalog: Map<Seq<char>, Option<String>>,
) -> Option<Seq<char>> {
    if repeated(models).len() > 0 {
        Some("duplicate OpenRouter model IDs: "@ + joined(repeated(models), ", "@))
    } else if unlisted(models, catalog).len() > 0 {
        Some(
            "unknown OpenRouter model IDs (no inference requests were made): "@ + joined(
                unlisted(models, catalog),
                ", "@,
            ),
        )
    } else {
        None
    }
}

fn comes_before(models: &[String], n: usize) -> (r: bool)
    requires
        n < models@.len(),
    ensures
        r == texts(models@).take(n as int).contains(models@[n as int]@),
{
    let ghost first = texts(models@).take(n as int);
    let mut i: usize = 0;
    while i < n
        invariant
            i <= n,
            n < models@.len(),
            first == texts(models@).take(n as int),
            forall|k: int| 0 <= k < i ==> #[trigger] first[k] != models@[n as int]@,
        decreases n - i,
    {
        if text::same(models[i].as_str(), models[n].as_str()) {
            assert(first[i as int] == models@[n as int]@);
            return true;
        }
        i = i + 1;
    }
    false
}

/// Whether models can be compared: each is named once, and the catalog has it.
pub fn validate_models(models: &[String], catalog: &Table<Option<String>>) -> (r: Result<
    (),
    String,
>)
    ensures
        r is Ok <==> models_error(texts(models@), catalog@) is None,
        r matches Err(e) ==> models_error(texts(models@), catalog@) == Some(e@),
{
    let ghost all = texts(models@);
    let mut twice: Vec<String> = Vec::new();
    let mut unknown: Vec<String> = Vec::new();
    let ghost missing = |m: Seq<char>| !catalog@.contains_key(m);
    proof {
        reveal(Seq::filter);
        assert(all.take(0) =~= Seq::empty());
    }
    assert(texts(twice@) =~= repeated(all.take(0)));
    assert(texts(unknown@) =~= all.take(0).filter(missing));
    let mut i: usize = 0;
    while i < models.len()
        invariant
            i <= models@.len(),
            all == texts(models@),
            missing == (|m: Seq<char>| !catalog@.contains_key(m)),
            texts(twice@) == repeated(all.take(i as int)),
            texts(unknown@) == all.take(i as int).filter(missing),
        decreases models.len() - i,
    {
        proof {
            reveal(Seq::filter);
            assert(all.take(i + 1).drop_last() =~= all.take(i as int));
            assert(all.take(i + 1).last() == models@[i as int]@);
        }
        if comes_before(models, i) {
            let ghost before = texts(twice@);
            twice.push(models[i].clone());
            assert(texts(twice@) =~= before.push(models@[i as int]@));
        }
        if !catalog.contains_key(models[i].as_str()) {
            let ghost before = texts(unknown@);
            unknown.push(models[i].clone());
            assert(texts(unknown@) =~= before.push(models@[i as int]@));
        }
        i = i + 1;
    }
    assert(all.take(models@.len() as int) =~= all);
    assert(texts(twice@).len() == twice@.len());
    assert(texts(unknown@).len() == unknown@.len());
    if twice.len() > 0 {
        let list = text::join(twice.as_slice(), ", ");
        let mut e = "duplicate OpenRouter model IDs: ".to_owned();
        e.append(list.as_str());
        return Err(e);
    }
    if unknown.len() > 0 {
        let list = text::join(unknown.as_slice(), ", ");
        let mut e =
            "unknown OpenRouter model IDs (no inference requests were made): ".to_owned();
        e.append(list.as_str());
        return Err(e);
    }
    Ok(())
}

/// An entry of a catalog: a model and its tokenizer.
pub open spec fn catalog_entry(entry: JsonView) -> Option<(Seq<char>, Option<Seq<char>>)> {
    match entry.at("id"@).text() {
        Some(id) => Some((id, entry.at("architecture"@).at("tokenizer"@).text())),
        None => None,
    }
}

/// The tokenizers of the models of a catalog; the last entry of a model counts.
pub open spec fn tokenizers(entries: Seq<JsonView>) -> Map<Seq<char>, Option<Seq<char>>>
    decreases entries.len(),
{
    if entries.len() == 0 {
        Map::empty()
    } else {
        let before = tokenizers(entries.drop_last());
        match catalog_entry(entries.last()) {
            Some(e) => before.insert(e.0, e.1),
            None => before,
        }
    }
}

/// The entries of a catalog.
pub open spec fn catalog_entries(body: JsonView) -> Seq<JsonView> {
    match body.at("data"@).items() {
        Some(items) => items,
        None => Seq::empty(),
    }
}

/// The tokenizers that a table has, by model.
pub open spec fn table_view(table: Map<Seq<char>, Option<String>>) -> Map<
    Seq<char>,
    Option<Seq<char>>,
> {
    table.map_values(|t: Option<String>| text_option(t))
}

fn text_below(entry: &Json, outer: &str, inner: &str) -> (r: Option<String>)
    ensures
        text_option(r) == entry@.at(outer@).at(inner@).text(),
{
    match entry.get(outer) {
        Some(below) => match below.text_at(inner) {
            Some(t) => Some(t.to_owned()),
            None => None,
        },
        None => None,
    }
}

/// The models of a catalog with their tokenizers; an error where there are none.
pub fn read_catalog(body: &Json) -> (r: Result<Table<Option<String>>, String>)
    ensures
        match r {
            Ok(table) => table_view(table@) == tokenizers(catalog_entries(body@)) && tokenizers(
                catalog_entries(body@),
            ) != Map::<Seq<char>, Option<Seq<char>>>::empty(),
            Err(e) => tokenizers(catalog_entries(body@)) == Map::<
                Seq<char>,
                Option<Seq<char>>,
            >::empty() && e@ == "OpenRouter model catalog preflight returned no models"@,
        },
{
    let mut table: Table<Option<String>> = Table::new();
    let ghost all = catalog_entries(body@);
    proof {
        assert(all.take(0) =~= Seq::empty());
        assert(table_view(table@) =~= Map::empty());
    }
    let data = match body.get("data") {
        Some(d) => d.as_array(),
        None => None,
    };
    match data {
        Some(items) => {
            assert(all == json_views(items@));
            let mut i: usize = 0;
            while i < items.len()
                invariant
                    i <= items@.len(),
                    all == json_views(items@),
                    table_view(table@) == tokenizers(all.take(i as int)),
                decreases items.len() - i,
            {
                assert(all.take(i + 1).drop_last() =~= all.take(i as int));
                assert(all.take(i + 1).last() == items@[i as int]@);
                match items[i].text_at("id") {
                    Some(id) => {
                        let tokenizer = text_below(&items[i], "architecture", "tokenizer");
                        let ghost before = table_view(table@);
                        let ghost view = text_option(tokenizer);
                        table = table.with(id.to_owned(), tokenizer);
                        assert(table_view(table@) =~= before.insert(id@, view));
                    },
                    None => {},
                }
                i = i + 1;
            }
            assert(all.take(items@.len() as int) =~= all);
        },
        None => {
            assert(all =~= Seq::empty());
        },
    }
    if table.is_empty() {
        assert(table_view(table@) =~= Map::empty());
        return Err("OpenRouter model catalog preflight returned no models".to_owned());
    }
    proof {
        let name = choose|name: Seq<char>| table@.contains_key(name);
        if forall|name: Seq<char>| !table@.contains_key(name) {
            assert(table@ =~= Map::empty());
        }
        assert(table_view(table@).contains_key(name));
    }
    Ok(table)
}

/// The request that has a model count a text.
pub open spec fn count_request(model: Seq<char>, content: Seq<char>) -> JsonView {
    JsonView::Object(
        map![
            "model"@ => JsonView::Text(model),
            "messages"@ => JsonView::Array(
                seq![
                    JsonView::Object(
                        map![
                            "role"@ => JsonView::Text("user"@),
                            "content"@ => JsonView::Text(content),
                        ],
                    ),
                ],
            ),
            "max_tokens"@ => JsonView::Number(unsigned_number(1)),
            "stream"@ => JsonView::Bool(false),
        ],
    )
}

/// The request that has a model count a text.
pub fn probe_request(model: &str, content: &str) -> (r: Json)
    ensures
        r@ == count_request(model@, content@),
{
    let mut message: Vec<(String, Json)> = Vec::new();
    proof {
        crate::json::lemma_no_fields(message@);
    }
    push_field(&mut message, "role", Json::text("user"));
    push_field(&mut message, "content", Json::text(content));
    assert(fields_map(message@) =~= map![
        "role"@ => JsonView::Text("user"@),
        "content"@ => JsonView::Text(content@),
    ]);
    let mut messages: Vec<Json> = Vec::new();
    let ghost user = JsonView::Object(fields_map(message@));
    messages.push(Json::Object(message));
    assert(json_views(messages@) =~= seq![user]);
    let mut fields: Vec<(String, Json)> = Vec::new();
    proof {
        crate::json::lemma_no_fields(fields@);
    }
    push_field(&mut fields, "model", Json::text(model));
    push_field(&mut fields, "messages", Json::Array(messages));
    push_field(&mut fields, "max_tokens", Json::uint(1));
    push_field(&mut fields, "stream", Json::Bool(false));
    assert(fields_map(fields@) =~= count_request(model@, content@)->Object_0);
    Json::Object(fields)
}

/// Whether a status is of a failure that may pass.
pub open spec fn is_transient(status: u16) -> bool {
    status == 429 || status == 500 || status == 502 || status == 503 || status == 504
}

/// Whether a status is of a failure that may pass.
pub fn transient_status(status: u16) -> (r: bool)
    ensures
        r == is_transient(status),
{
    status == 429 || status == 500 || status == 502 || status == 503 || status == 504
}

/// How many seconds to wait before a request is tried again: what the provider asks for,
/// else twice as long each time, up to a limit.
pub open spec fn delay_after(attempt: nat, retry_after: Option<u64>) -> u64 {
    match retry_after {
        Some(seconds) => seconds,
        None => if attempt == 0 {
            2
        } else if attempt == 1 {
            4
        } else if attempt == 2 {
            8
        } else if attempt == 3 {
            16
        } else {
            32
        },
    }
}

/// How many seconds to wait before a request is tried again.
pub fn retry_delay(attempt: usize, retry_after: Option<u64>) -> (r: u64)
    ensures
        r == delay_after(attempt as nat, retry_after),
{
    match retry_after {
        Some(seconds) => seconds,
        None => if attempt == 0 {
            2
        } else if attempt == 1 {
            4
        } else if attempt == 2 {
            8
        } else if attempt == 3 {
            16
        } else {
            32
        },
    }
}

/// What is done about a response.
pub enum ResponseStep {
    /// It is read.
    Decode,
    /// The request is tried again after so many seconds, and the user is told.
    Retry { seconds: u64, notice: String },
    /// It is an error.
    Fail(String),
}

/// What is done about a response, as a mathematical object.
pub enum StepView {
    Decode,
    Retry { seconds: u64, notice: Seq<char> },
    Fail(Seq<char>),
}

impl View for ResponseStep {
    type V = StepView;

    open spec fn view(&self) -> StepView {
        match self {
            ResponseStep::Decode => StepView::Decode,
            ResponseStep::Retry { seconds, notice } => StepView::Retry {
                seconds: *seconds,
                notice: notice@,
            },
            ResponseStep::Fail(e) => StepView::Fail(e@),
        }
    }
}

/// What is done about a response: a successful one is read, a failure that may pass is
/// tried again while there are attempts left, and any other is an error.
pub open spec fn response_step(
    model: Seq<char>,
    attempt: nat,
    status: u16,
    retry_after: Option<u64>,
    body: Seq<char>,
) -> StepView {
    if 200 <= status < 300 {
        StepView::Decode
    } else if is_transient(status) && attempt + 1 < MAX_REQUEST_ATTEMPTS {
        let seconds = delay_after(attempt, retry_after);
        StepView::Retry {
            seconds,
            notice: model + " returned "@ + status_line(status) + "; retrying in "@ + decimal(
                seconds as nat,
            ) + "s ("@ + decimal(attempt + 2) + "/6)..."@,
        }
    } else {
        StepView::Fail(
            "OpenRouter request for "@ + model + " failed ("@ + status_line(status) + "): "@ + body,
        )
    }
}

/// What is done about a response.
pub fn after_response(
    model: &str,
    attempt: usize,
    status: u16,
    retry_after: Option<u64>,
    body: &str,
) -> (r: ResponseStep)
    requires
        is_status(status as int),
    ensures
        r@ == response_step(model@, attempt as nat, status, retry_after, body@),
{
    if 200 <= status && status < 300 {
        return ResponseStep::Decode;
    }
    let shown = status_text(status);
    if transient_status(status) && attempt < MAX_REQUEST_ATTEMPTS - 1 {
        let seconds = retry_delay(attempt, retry_after);
        let mut notice = model.to_owned();
        notice.append(" returned ");
        notice.append(shown.as_str());
        notice.append("; retrying in ");
        text::push_decimal(&mut notice, seconds);
        notice.append("s (");
        text::push_decimal(&mut notice, (attempt + 2) as u64);
        notice.append("/6)...");
        return ResponseStep::Retry { seconds, notice };
    }
    let mut e = "OpenRouter request for ".to_owned();
    e.append(model);
    e.append(" failed (");
    e.append(shown.as_str());
    e.append("): ");
    e.append(body);
    ResponseStep::Fail(e)
}

/// A request is not tried for ever: the last attempt is never followed by another.
pub proof fn law_attempts_end(
    model: Seq<char>,
    attempt: nat,
    status: u16,
    retry_after: Option<u64>,
    body: Seq<char>,
)
    requires
        attempt + 1 >= MAX_REQUEST_ATTEMPTS,
    ensures
        !(response_step(model, attempt, status, retry_after, body) is Retry),
{
}

/// The token counts of a response.
#[derive(Debug, Clone, Copy, PartialEq, Eq, Structural)]
pub struct CountedUsage {
    pub prompt_tokens: Option<u64>,
    pub input_tokens: Option<u64>,
}

/// The number of tokens that a response counts, or why there is none.
pub fn decode_usage(model: &str, usage: Option<CountedUsage>) -> (r: Result<u64, String>)
    ensures
        match usage {
            None => r matches Err(e) && e@ == "OpenRouter response for "@ + model@
                + " omitted usage"@,
            Some(u) => match (u.prompt_tokens, u.input_tokens) {
                (Some(n), _) => r == Ok::<u64, String>(n),
                (None, Some(n)) => r == Ok::<u64, String>(n),
                (None, None) => r matches Err(e) && e@ == "OpenRouter response for "@ + model@
                    + " omitted prompt token usage"@,
            },
        },
{
    match usage {
        None => {
            let mut e = "OpenRouter response for ".to_owned();
            e.append(model);
            e.append(" omitted usage");
            Err(e)
        },
        Some(u) => match (u.prompt_tokens, u.input_tokens) {
            (Some(n), _) => Ok(n),
            (None, Some(n)) => Ok(n),
            (None, None) => {
                let mut e = "OpenRouter response for ".to_owned();
                e.append(model);
                e.append(" omitted prompt token usage");
                Err(e)
            },
        },
    }
}

/// The number of tokens that a model counts for a text.
pub struct ProbeResult {
    pub name: String,
    pub description: String,
    pub prompt_tokens: u64,
    /// How many more they are than for an empty text.
    pub delta_tokens: i64,
}

/// The numbers of tokens that a model counts.
pub struct Fingerprint {
    pub model: String,
    pub tokenizer_family: Option<String>,
    pub baseline_prompt_tokens: u64,
    pub probes: Vec<ProbeResult>,
}

/// Whether a result is that of a text.
pub open spec fn is_result(
    r: ProbeResult,
    name: Seq<char>,
    count: u64,
    baseline: u64,
) -> bool {
    r.name@ == name && r.description@ == described(name) && r.prompt_tokens == count
        && r.delta_tokens == count - baseline
}

/// The numbers of tokens that a model counts, given what it counted for an empty text and
/// for each of the texts.
pub fn build_fingerprint(
    model: &str,
    tokenizer_family: Option<String>,
    baseline: u64,
    counts: &[u64],
) -> (r: Fingerprint)
    requires
        counts@.len() == probe_table().len(),
        baseline <= i64::MAX,
        forall|i: int| 0 <= i < counts@.len() ==> #[trigger] counts@[i] <= i64::MAX,
    ensures
        r.model@ == model@,
        r.tokenizer_family == tokenizer_family,
        r.baseline_prompt_tokens == baseline,
        r.probes@.len() == counts@.len(),
        forall|i: int|
            0 <= i < counts@.len() ==> is_result(
                #[trigger] r.probes@[i],
                probe_table()[i].0,
                counts@[i],
                baseline,
            ),
{
    let table = probes();
    let ghost all = probe_table();
    assert(probe_views(table@).len() == table@.len());
    let mut results: Vec<ProbeResult> = Vec::new();
    let mut i: usize = 0;
    while i < counts.len()
        invariant
            i <= counts@.len(),
            all == probe_table(),
            probe_views(table@) == all,
            counts@.len() == all.len(),
            table@.len() == all.len(),
            baseline <= i64::MAX,
            forall|k: int| 0 <= k < counts@.len() ==> #[trigger] counts@[k] <= i64::MAX,
            results@.len() == i,
            forall|k: int|
                0 <= k < i ==> is_result(#[trigger] results@[k], all[k].0, counts@[k], baseline),
        decreases counts.len() - i,
    {
        assert(all[i as int] == (table@[i as int].name@, table@[i as int].text@));
        assert(counts@[i as int] <= i64::MAX);
        let name = table[i].name;
        results.push(
            ProbeResult {
                name: name.to_owned(),
                description: probe_description(name).to_owned(),
                prompt_tokens: counts[i],
                delta_tokens: counts[i] as i64 - baseline as i64,
            },
        );
        i = i + 1;
    }
    Fingerprint {
        model: model.to_owned(),
        tokenizer_family,
        baseline_prompt_tokens: baseline,
        probes: results,
    }
}

/// A comparison of two models.
pub struct Comparison {
    pub left: String,
    pub right: String,
    pub matching_probes: usize,
    pub total_probes: usize,
    pub identical: bool,
}

/// How many of the first results of two models are the same.
pub open spec fn matches_among(a: Seq<ProbeResult>, b: Seq<ProbeResult>, n: int) -> nat
    decreases n,
{
    if n <= 0 {
        0
    } else {
        matches_among(a, b, n - 1) + if a[n - 1].delta_tokens == b[n - 1].delta_tokens {
            1nat
        } else {
            0nat
        }
    }
}

/// How many results of two models are compared.
pub open spec fn compared(a: Seq<ProbeResult>, b: Seq<ProbeResult>) -> nat {
    if a.len() <= b.len() {
        a.len()
    } else {
        b.len()
    }
}

/// Whether a comparison is that of two models.
pub open spec fn compares(c: Comparison, a: Fingerprint, b: Fingerprint) -> bool {
    let total = compared(a.probes@, b.probes@);
    let matching = matches_among(a.probes@, b.probes@, total as int);
    &&& c.left@ == a.model@
    &&& c.right@ == b.model@
    &&& c.matching_probes == matching
    &&& c.total_probes == total
    &&& c.identical == (matching == total)
}

fn compare(a: &Fingerprint, b: &Fingerprint) -> (r: Comparison)
    ensures
        compares(r, *a, *b),
{
    let total: usize = if a.probes.len() <= b.probes.len() {
        a.probes.len()
    } else {
        b.probes.len()
    };
    let mut matching: usize = 0;
    let mut i: usize = 0;
    while i < total
        invariant
            i <= total,
            total <= a.probes@.len(),
            total <= b.probes@.len(),
            matching <= i,
            matching == matches_among(a.probes@, b.probes@, i as int),
        decreases total - i,
    {
        if a.probes[i].delta_tokens == b.probes[i].delta_tokens {
            matching = matching + 1;
        }
        i = i + 1;
    }
    Comparison {
        left: a.model.clone(),
        right: b.model.clone(),
        matching_probes: matching,
        total_probes: total,
        identical: matching == total,
    }
}

/// The pairs of the first `n` of several, each with one that comes later.
pub open spec fn pairs(n: int, len: int) -> Seq<(int, int)>
    decreases n,
{
    if n <= 0 {
        Seq::empty()
    } else {
        pairs(n - 1, len) + Seq::new((len - n) as nat, |k: int| (n - 1, n + k))
    }
}

/// Compares each model with each that comes later.
pub fn compare_all(fingerprints: &[Fingerprint]) -> (r: Vec<Comparison>)
    ensures
        r@.len() == pairs(fingerprints@.len() as int, fingerprints@.len() as int).len(),
        forall|i: int|
            0 <= i < r@.len() ==> compares(
                #[trigger] r@[i],
                fingerprints@[pairs(
                    fingerprints@.len() as int,
                    fingerprints@.len() as int,
                )[i].0],
                fingerprints@[pairs(
                    fingerprints@.len() as int,
                    fingerprints@.len() as int,
                )[i].1],
            ),
{
    let mut out: Vec<Comparison> = Vec::new();
    let n = fingerprints.len();
    let ghost len = n as int;
    let mut i: usize = 0;
    while i < n
        invariant
            i <= n,
            n == fingerprints@.len(),
            len == n,
            out@.len() == pairs(i as int, len).len(),
            forall|k: int|
                0 <= k < out@.len() ==> compares(
                    #[trigger] out@[k],
                    fingerprints@[pairs(i as int, len)[k].0],
                    fingerprints@[pairs(i as int, len)[k].1],
                ),
        decreases n - i,
    {
        let ghost before = pairs(i as int, len);
        let ghost after = pairs(i + 1, len);
        assert(after =~= before + Seq::new((len - i - 1) as nat, |k: int| (i as int, i + 1 + k)));
        let mut j: usize = i + 1;
        while j < n
            invariant
                i < n,
                i + 1 <= j <= n,
                n == fingerprints@.len(),
                len == n,
                before == pairs(i as int, len),
                after == before + Seq::new((len - i - 1) as nat, |k: int| (i as int, i + 1 + k)),
                out@.len() == before.len() + (j - i - 1),
                forall|k: int|
                    0 <= k < out@.len() ==> compares(
                        #[trigger] out@[k],
                        fingerprints@[after[k].0],
                        fingerprints@[after[k].1],
                    ),
            decreases n - j,
        {
            assert(after[out@.len() as int] == (i as int, j as int));
            out.push(compare(&fingerprints[i], &fingerprints[j]));
            j = j + 1;
        }
        i = i + 1;
    }
    out
}

/// Models whose comparison is identical count the same for every text that both counted.
pub proof fn law_identical_means_same_counts(a: Seq<ProbeResult>, b: Seq<ProbeResult>, n: int)
    requires
        0 <= n <= a.len(),
        n <= b.len(),
        matches_among(a, b, n) == n,
    ensures
        forall|i: int| 0 <= i < n ==> (#[trigger] a[i]).delta_tokens == b[i].delta_tokens,
    decreases n,
{
    if n > 0 {
        lemma_matches_bounded(a, b, n - 1);
        law_identical_means_same_counts(a, b, n - 1);
    }
}

proof fn lemma_matches_bounded(a: Seq<ProbeResult>, b: Seq<ProbeResult>, n: int)
    requires
        0 <= n,
    ensures
        matches_among(a, b, n) <= n,
    decreases n,
{
    if n > 0 {
        lemma_matches_bounded(a, b, n - 1);
    }
}

/// The bytes that stand for the first texts.
pub open spec fn corpus_bytes(n: int) -> Seq<u8>
    decreases n,
{
    if n <= 0 {
        seq![1u8, 0, 0, 0] + encode_utf8(WRAPPER_PREFIX@) + seq![0u8] + encode_utf8(
            WRAPPER_SUFFIX@,
        )
    } else {
        corpus_bytes(n - 1) + seq![0u8] + encode_utf8(probe_table()[n - 1].0) + seq![0u8]
            + encode_utf8(probe_table()[n - 1].1)
    }
}

/// The digest of the texts and their wrapper.
pub open spec fn corpus_digest() -> Seq<char> {
    hex(sha256_digest(corpus_bytes(probe_table().len() as int)))
}

fn push_bytes(out: &mut Vec<u8>, bytes: &[u8])
    ensures
        final(out)@ == old(out)@ + bytes@,
{
    let ghost start = out@;
    let mut i: usize = 0;
    assert(start + bytes@.take(0) =~= start);
    while i < bytes.len()
        invariant
            i <= bytes@.len(),
            out@ == start + bytes@.take(i as int),
        decreases bytes.len() - i,
    {
        out.push(bytes[i]);
        i = i + 1;
        assert(out@ =~= start + bytes@.take(i as int));
    }
    assert(bytes@.take(bytes@.len() as int) =~= bytes@);
}

/// The digest of the texts and their wrapper. Progress that was made with other texts is
/// told from it.
pub fn corpus_hash() -> (r: String)
    ensures
        r@ == corpus_digest(),
{
    let table = probes();
    assert(probe_views(table@).len() == table@.len());
    let mut bytes: Vec<u8> = Vec::new();
    bytes.push(1);
    bytes.push(0);
    bytes.push(0);
    bytes.push(0);
    assert(bytes@ =~= seq![1u8, 0, 0, 0]);
    let zero: [u8; 1] = [0];
    assert(zero@ =~= seq![0u8]);
    push_bytes(&mut bytes, WRAPPER_PREFIX.as_bytes());
    push_bytes(&mut bytes, zero.as_slice());
    push_bytes(&mut bytes, WRAPPER_SUFFIX.as_bytes());
    let mut i: usize = 0;
    while i < table.len()
        invariant
            i <= table@.len(),
            probe_views(table@) == probe_table(),
            zero@ == seq![0u8],
            bytes@ == corpus_bytes(i as int),
        decreases table.len() - i,
    {
        assert(probe_table()[i as int] == (table@[i as int].name@, table@[i as int].text@));
        push_bytes(&mut bytes, zero.as_slice());
        push_bytes(&mut bytes, table[i].name.as_bytes());
        push_bytes(&mut bytes, zero.as_slice());
        push_bytes(&mut bytes, table[i].text.as_bytes());
        i = i + 1;
    }
    let digest = sha256(bytes.as_slice());
    hex_digest(digest.as_slice())
}

/// A digest in hexadecimal.
pub fn hex_digest(bytes: &[u8]) -> (r: String)
    ensures
        r@ == hex(bytes@),
{
    text::to_hex(bytes)
}

/// The bytes that stand for texts and a list of models.
pub open spec fn key_bytes(corpus: Seq<char>, models: Seq<Seq<char>>) -> Seq<u8>
    decreases models.len(),
{
    if models.len() == 0 {
        encode_utf8(corpus)
    } else {
        key_bytes(corpus, models.drop_last()) + seq![0u8] + encode_utf8(models.last())
    }
}

/// The file in which progress with a list of models is kept.
pub fn checkpoint_path(cache_dir: &str, models: &[String], corpus_hash: &str) -> (r: String)
    ensures
        r@ == joined_path(
            joined_path(joined_path(cache_dir@, "claux"@), "tokenizer-fingerprints"@),
            hex(sha256_digest(key_bytes(corpus_hash@, texts(models@)))) + ".json"@,
        ),
{
    let ghost all = texts(models@);
    let mut bytes: Vec<u8> = Vec::new();
    push_bytes(&mut bytes, corpus_hash.as_bytes());
    let zero: [u8; 1] = [0];
    assert(zero@ =~= seq![0u8]);
    assert(all.take(0) =~= Seq::empty());
    assert(bytes@ =~= key_bytes(corpus_hash@, all.take(0)));
    let mut i: usize = 0;
    while i < models.len()
        invariant
            i <= models@.len(),
            all == texts(models@),
            zero@ == seq![0u8],
            bytes@ == key_bytes(corpus_hash@, all.take(i as int)),
        decreases models.len() - i,
    {
        assert(all.take(i + 1).drop_last() =~= all.take(i as int));
        push_bytes(&mut bytes, zero.as_slice());
        push_bytes(&mut bytes, models[i].as_str().as_bytes());
        i = i + 1;
    }
    assert(all.take(models@.len() as int) =~= all);
    let digest = sha256(bytes.as_slice());
    let mut name = hex_digest(digest.as_slice());
    name.append(".json");
    let program = paths::join(cache_dir, "claux");
    let directory = paths::join(program.as_str(), "tokenizer-fingerprints");
    paths::join(directory.as_str(), name.as_str())
}

/// The models whose numbers are known.
pub open spec fn counted_models(fingerprints: Seq<Fingerprint>) -> Seq<Seq<char>> {
    fingerprints.map_values(|f: Fingerprint| f.model@)
}

/// Progress with a list of models.
pub struct Checkpoint {
    pub schema_version: u32,
    pub corpus_hash: String,
    pub models: Vec<String>,
    pub fingerprints: Vec<Fingerprint>,
}

/// What is wrong with progress that was kept, if something is.
pub open spec fn checkpoint_error(c: Checkpoint, models: Seq<Seq<char>>, corpus: Seq<char>) -> Option<
    Seq<char>,
> {
    let counted = counted_models(c.fingerprints@);
    if c.schema_version != CHECKPOINT_SCHEMA_VERSION {
        Some(
            "checkpoint schema is "@ + decimal(c.schema_version as nat) + ", expected 1"@,
        )
    } else if c.corpus_hash@ != corpus {
        Some("checkpoint belongs to a different tokenizer probe corpus"@)
    } else if texts(c.models@) != models {
        Some("checkpoint belongs to a different ordered model list"@)
    } else if !counted.no_duplicates() || exists|i: int|
        0 <= i < counted.len() && !models.contains(#[trigger] counted[i]) {
        Some("checkpoint contains duplicate or unexpected completed models"@)
    } else {
        None
    }
}

fn same_texts(a: &Vec<String>, b: &[String]) -> (r: bool)
    ensures
        r == (texts(a@) == texts(b@)),
{
    if a.len() != b.len() {
        assert(texts(a@).len() != texts(b@).len());
        return false;
    }
    let mut i: usize = 0;
    while i < a.len()
        invariant
            i <= a@.len(),
            a@.len() == b@.len(),
            forall|k: int| 0 <= k < i ==> #[trigger] texts(a@)[k] == texts(b@)[k],
        decreases a.len() - i,
    {
        if !text::same(a[i].as_str(), b[i].as_str()) {
            assert(texts(a@)[i as int] != texts(b@)[i as int]);
            return false;
        }
        i = i + 1;
    }
    assert(texts(a@) =~= texts(b@));
    true
}

fn lists(models: &[String], name: &str) -> (r: bool)
    ensures
        r == texts(models@).contains(name@),
{
    let mut i: usize = 0;
    while i < models.len()
        invariant
            i <= models@.len(),
            forall|k: int| 0 <= k < i ==> #[trigger] texts(models@)[k] != name@,
        decreases models.len() - i,
    {
        if text::same(models[i].as_str(), name) {
            assert(texts(models@)[i as int] == name@);
            return true;
        }
        i = i + 1;
    }
    false
}

fn find_fingerprint(fingerprints: &[Fingerprint], model: &str, n: usize) -> (r: Option<usize>)
    requires
        n <= fingerprints@.len(),
    ensures
        r matches Some(i) ==> i < n && fingerprints@[i as int].model@ == model@,
        r matches Some(i) ==> forall|k: int| 0 <= k < i ==> #[trigger] counted_models(fingerprints@)[k] != model@,
        r is None ==> forall|k: int|
            0 <= k < n ==> #[trigger] counted_models(fingerprints@)[k] != model@,
{
    let mut i: usize = 0;
    while i < n
        invariant
            i <= n,
            n <= fingerprints@.len(),
            forall|k: int| 0 <= k < i ==> #[trigger] counted_models(fingerprints@)[k] != model@,
        decreases n - i,
    {
        if text::same(fingerprints[i].model.as_str(), model) {
            return Some(i);
        }
        i = i + 1;
    }
    None
}

/// Whether progress that was kept can be gone on from.
pub fn check_checkpoint(c: &Checkpoint, models: &[String], corpus_hash: &str) -> (r: Result<
    (),
    String,
>)
    ensures
        r is Ok <==> checkpoint_error(*c, texts(models@), corpus_hash@) is None,
        r matches Err(e) ==> checkpoint_error(*c, texts(models@), corpus_hash@) == Some(e@),
{
    if c.schema_version != CHECKPOINT_SCHEMA_VERSION {
        let mut e = "checkpoint schema is ".to_owned();
        text::push_decimal(&mut e, c.schema_version as u64);
        e.append(", expected 1");
        return Err(e);
    }
    if !text::same(c.corpus_hash.as_str(), corpus_hash) {
        return Err("checkpoint belongs to a different tokenizer probe corpus".to_owned());
    }
    if !same_texts(&c.models, models) {
        return Err("checkpoint belongs to a different ordered model list".to_owned());
    }
    let ghost counted = counted_models(c.fingerprints@);
    let mut i: usize = 0;
    while i < c.fingerprints.len()
        invariant
            i <= c.fingerprints@.len(),
            counted == counted_models(c.fingerprints@),
            forall|k: int| 0 <= k < i ==> texts(models@).contains(#[trigger] counted[k]),
            forall|j: int, k: int|
                0 <= j < k < i ==> #[trigger] counted[j] != #[trigger] counted[k],
            c.schema_version == CHECKPOINT_SCHEMA_VERSION,
            c.corpus_hash@ == corpus_hash@,
            texts(c.models@) == texts(models@),
        decreases c.fingerprints.len() - i,
    {
        let name = c.fingerprints[i].model.as_str();
        assert(counted[i as int] == name@);
        match find_fingerprint(c.fingerprints.as_slice(), name, i) {
            Some(k) => {
                assert(counted[k as int] == counted[i as int]);
                assert(!counted.no_duplicates());
                return Err(
                    "checkpoint contains duplicate or unexpected completed models".to_owned(),
                );
            },
            None => {},
        }
        if !lists(models, name) {
            assert(!texts(models@).contains(counted[i as int]));
            return Err("checkpoint contains duplicate or unexpected completed models".to_owned());
        }
        i = i + 1;
    }
    assert(counted.no_duplicates());
    Ok(())
}

/// The place of the numbers of a model among others, where they are known.
pub fn position_of(fingerprints: &[Fingerprint], model: &str) -> (r: Option<usize>)
    ensures
        r is Some <==> counted_models(fingerprints@).contains(model@),
        r matches Some(i) ==> i < fingerprints@.len() && fingerprints@[i as int].model@ == model@
            && forall|k: int|
            0 <= k < i ==> #[trigger] counted_models(fingerprints@)[k] != model@,
{
    let r = find_fingerprint(fingerprints, model, fingerprints.len());
    proof {
        match r {
            Some(i) => assert(counted_models(fingerprints@)[i as int] == model@),
            None => {},
        }
    }
    r
}

/// The text in which what would end a cell or a code span is escaped.
pub open spec fn escaped(s: Seq<char>) -> Seq<char>
    decreases s.len(),
{
    if s.len() == 0 {
        Seq::empty()
    } else if s.last() == '|' || s.last() == '`' {
        escaped(s.drop_last()).push('\\').push(s.last())
    } else {
        escaped(s.drop_last()).push(s.last())
    }
}

/// The text in which what would end a cell or a code span is escaped.
pub fn markdown_escape(value: &str) -> (r: String)
    ensures
        r@ == escaped(value@),
{
    let chars = text::chars_of(value);
    let mut out = String::new();
    assert(chars@.take(0) =~= Seq::empty());
    let mut i: usize = 0;
    while i < chars.len()
        invariant
            i <= chars@.len(),
            out@ == escaped(chars@.take(i as int)),
        decreases chars.len() - i,
    {
        assert(chars@.take(i + 1).drop_last() =~= chars@.take(i as int));
        let c = chars[i];
        if c == '|' || c == '`' {
            out.push('\\');
        }
        out.push(c);
        i = i + 1;
    }
    assert(chars@.take(chars@.len() as int) =~= chars@);
    out
}

/// What is said of a comparison that is identical.
pub open spec fn identity_note(c: Comparison) -> Seq<char> {
    if c.identical {
        " — identical fingerprint"@
    } else {
        ""@
    }
}

fn note_of(c: &Comparison) -> (r: &'static str)
    ensures
        r@ == identity_note(*c),
{
    if c.identical {
        " — identical fingerprint"
    } else {
        ""
    }
}

/// The tokenizer of a model as it is shown.
pub open spec fn family_of(f: Fingerprint) -> Seq<char> {
    match f.tokenizer_family {
        Some(family) => family@,
        None => "unknown"@,
    }
}

fn shown_family(f: &Fingerprint) -> (r: &str)
    ensures
        r@ == family_of(*f),
{
    match &f.tokenizer_family {
        Some(family) => family.as_str(),
        None => "unknown",
    }
}

/// What is reported: the numbers of models, what each cost, their comparisons, and the
/// share of each comparison that matches, in percent. Costs and shares are given as they
/// are shown.
pub struct Report {
    pub method: &'static str,
    pub fingerprints: Vec<Fingerprint>,
    pub costs: Vec<String>,
    pub comparisons: Vec<Comparison>,
    pub percents: Vec<String>,
}

/// Whether each model has a cost and each comparison a share.
pub open spec fn is_complete(report: Report) -> bool {
    report.costs@.len() == report.fingerprints@.len() && report.percents@.len()
        == report.comparisons@.len()
}

/// The line of a model in a plain report.
pub open spec fn text_model_line(f: Fingerprint, cost: Seq<char>) -> Seq<char> {
    padded(f.model@, 42) + " "@ + padded(family_of(f), 11) + " "@ + right_aligned(
        decimal(f.baseline_prompt_tokens as nat),
        8,
    ) + "   "@ + right_aligned(cost, 9) + "\n"@
}

/// The line of a comparison in a plain report.
pub open spec fn text_comparison_line(c: Comparison, percent: Seq<char>) -> Seq<char> {
    c.left@ + " vs "@ + c.right@ + ": "@ + decimal(c.matching_probes as nat) + "/"@ + decimal(
        c.total_probes as nat,
    ) + " deltas match ("@ + percent + "%)"@ + identity_note(c) + "\n"@
}

/// The lines of models, behind what stands before them.
pub open spec fn text_models(start: Seq<char>, f: Seq<Fingerprint>, costs: Seq<Seq<char>>) -> Seq<char>
    decreases f.len(),
{
    if f.len() == 0 || costs.len() == 0 {
        start
    } else {
        text_models(start, f.drop_last(), costs.drop_last()) + text_model_line(
            f.last(),
            costs.last(),
        )
    }
}

/// The lines of comparisons, behind what stands before them.
pub open spec fn text_comparisons(
    start: Seq<char>,
    c: Seq<Comparison>,
    percents: Seq<Seq<char>>,
) -> Seq<char>
    decreases c.len(),
{
    if c.len() == 0 || percents.len() == 0 {
        start
    } else {
        text_comparisons(start, c.drop_last(), percents.drop_last()) + text_comparison_line(
            c.last(),
            percents.last(),
        )
    }
}

/// The beginning of a plain report.
pub open spec fn text_heading(method: Seq<char>) -> Seq<char> {
    "TOKENIZER FINGERPRINT\nmethod: "@ + method
        + "\n\nmodel                                      family      baseline   cost\n-----------------------------------------------------------------------\n"@
}

/// A plain report.
pub open spec fn plain_report(report: Report) -> Seq<char> {
    let models = text_models(text_heading(report.method@), report.fingerprints@, texts(report.costs@));
    text_comparisons(models + "\n"@, report.comparisons@, texts(report.percents@))
        + "\nMatching deltas are evidence of shared tokenization behavior, not proof of model identity.\n"@
}

fn model_line(f: &Fingerprint, cost: &str) -> (r: String)
    ensures
        r@ == text_model_line(*f, cost@),
{
    let baseline = text::to_decimal(f.baseline_prompt_tokens);
    let mut out = String::new();
    text::push_padded(&mut out, f.model.as_str(), 42);
    assert(out@ =~= padded(f.model@, 42));
    out.append(" ");
    text::push_padded(&mut out, shown_family(f), 11);
    out.append(" ");
    text::push_right_aligned(&mut out, baseline.as_str(), 8);
    out.append("   ");
    text::push_right_aligned(&mut out, cost, 9);
    out.append("\n");
    out
}

fn comparison_line(c: &Comparison, percent: &str) -> (r: String)
    ensures
        r@ == text_comparison_line(*c, percent@),
{
    let mut out = c.left.clone();
    out.append(" vs ");
    out.append(c.right.as_str());
    out.append(": ");
    text::push_decimal(&mut out, c.matching_probes as u64);
    out.append("/");
    text::push_decimal(&mut out, c.total_probes as u64);
    out.append(" deltas match (");
    out.append(percent);
    out.append("%)");
    out.append(note_of(c));
    out.append("\n");
    out
}

/// A plain report.
pub fn text_report(report: &Report) -> (r: String)
    requires
        is_complete(*report),
    ensures
        r@ == plain_report(*report),
{
    let ghost f = report.fingerprints@;
    let ghost costs = texts(report.costs@);
    let ghost c = report.comparisons@;
    let ghost percents = texts(report.percents@);
    let mut out = "TOKENIZER FINGERPRINT\nmethod: ".to_owned();
    out.append(report.method);
    out.append(
        "\n\nmodel                                      family      baseline   cost\n-----------------------------------------------------------------------\n",
    );
    let ghost heading = out@;
    let mut i: usize = 0;
    while i < report.fingerprints.len()
        invariant
            i <= report.fingerprints@.len(),
            is_complete(*report),
            f == report.fingerprints@,
            costs == texts(report.costs@),
            out@ == text_models(heading, f.take(i as int), costs.take(i as int)),
        decreases report.fingerprints.len() - i,
    {
        assert(f.take(i + 1).drop_last() =~= f.take(i as int));
        assert(costs.take(i + 1).drop_last() =~= costs.take(i as int));
        let line = model_line(&report.fingerprints[i], report.costs[i].as_str());
        out.append(line.as_str());
        i = i + 1;
    }
    assert(f.take(i as int) =~= f);
    assert(costs.take(i as int) =~= costs);
    out.append("\n");
    let ghost start = out@;
    i = 0;
    while i < report.comparisons.len()
        invariant
            i <= report.comparisons@.len(),
            is_complete(*report),
            c == report.comparisons@,
            percents == texts(report.percents@),
            out@ == text_comparisons(start, c.take(i as int), percents.take(i as int)),
        decreases report.comparisons.len() - i,
    {
        assert(c.take(i + 1).drop_last() =~= c.take(i as int));
        assert(percents.take(i + 1).drop_last() =~= percents.take(i as int));
        let line = comparison_line(&report.comparisons[i], report.percents[i].as_str());
        out.append(line.as_str());
        i = i + 1;
    }
    assert(c.take(i as int) =~= c);
    assert(percents.take(i as int) =~= percents);
    out.append(
        "\nMatching deltas are evidence of shared tokenization behavior, not proof of model identity.\n",
    );
    out
}

/// The row of a model in a Markdown report.
pub open spec fn markdown_model_row(f: Fingerprint, cost: Seq<char>) -> Seq<char> {
    "| `"@ + escaped(f.model@) + "` | "@ + family_of(f) + " | "@ + decimal(
        f.baseline_prompt_tokens as nat,
    ) + " | "@ + cost + " |\n"@
}

/// The item of a comparison in a Markdown report.
pub open spec fn markdown_comparison(c: Comparison, percent: Seq<char>) -> Seq<char> {
    "- `"@ + escaped(c.left@) + "` vs `"@ + escaped(c.right@) + "`: **"@ + decimal(
        c.matching_probes as nat,
    ) + "/"@ + decimal(c.total_probes as nat) + " deltas match ("@ + percent + "%)**"@
        + identity_note(c) + "\n"@
}

/// The rows of models, behind what stands before them.
pub open spec fn markdown_models(start: Seq<char>, f: Seq<Fingerprint>, costs: Seq<Seq<char>>) -> Seq<
    char,
>
    decreases f.len(),
{
    if f.len() == 0 || costs.len() == 0 {
        start
    } else {
        markdown_models(start, f.drop_last(), costs.drop_last()) + markdown_model_row(
            f.last(),
            costs.last(),
        )
    }
}

/// The items of comparisons, behind what stands before them.
pub open spec fn markdown_comparisons(
    start: Seq<char>,
    c: Seq<Comparison>,
    percents: Seq<Seq<char>>,
) -> Seq<char>
    decreases c.len(),
{
    if c.len() == 0 || percents.len() == 0 {
        start
    } else {
        markdown_comparisons(start, c.drop_last(), percents.drop_last()) + markdown_comparison(
            c.last(),
            percents.last(),
        )
    }
}

/// The heading of a column for each model, behind what stands before them.
pub open spec fn model_columns(start: Seq<char>, f: Seq<Fingerprint>) -> Seq<char>
    decreases f.len(),
{
    if f.len() == 0 {
        start
    } else {
        model_columns(start, f.drop_last()) + " `"@ + escaped(f.last().model@) + "` |"@
    }
}

/// The rule below a column for each model, behind what stands before them.
pub open spec fn column_rules(start: Seq<char>, n: nat) -> Seq<char>
    decreases n,
{
    if n == 0 {
        start
    } else {
        column_rules(start, (n - 1) as nat) + "---:|"@
    }
}

/// The result of a model in a row.
pub open spec fn delta_cell(f: Fingerprint, row: int) -> Seq<char> {
    if row < f.probes@.len() {
        signed_decimal(f.probes@[row].delta_tokens as int)
    } else {
        "n/a"@
    }
}

/// The results of models in a row, behind what stands before them.
pub open spec fn delta_cells(start: Seq<char>, f: Seq<Fingerprint>, row: int) -> Seq<char>
    decreases f.len(),
{
    if f.len() == 0 {
        start
    } else {
        delta_cells(start, f.drop_last(), row) + " "@ + delta_cell(f.last(), row) + " |"@
    }
}

/// The row of a text.
pub open spec fn delta_row(f: Seq<Fingerprint>, row: int) -> Seq<char> {
    let probe = f[0].probes@[row];
    delta_cells(
        "| "@ + escaped(probe.name@) + " | "@ + escaped(probe.description@) + " |"@,
        f,
        row,
    ) + "\n"@
}

/// The first rows, behind what stands before them.
pub open spec fn delta_rows(start: Seq<char>, f: Seq<Fingerprint>, n: int) -> Seq<char>
    decreases n,
{
    if n <= 0 {
        start
    } else {
        delta_rows(start, f, n - 1) + delta_row(f, n - 1)
    }
}

/// How many rows there are: one for each text of the first model.
pub open spec fn row_count(f: Seq<Fingerprint>) -> int {
    if f.len() == 0 {
        0
    } else {
        f[0].probes@.len() as int
    }
}

/// The part of a Markdown report on models and comparisons.
pub open spec fn markdown_summary(report: Report) -> Seq<char> {
    let heading = "# Tokenizer Fingerprint\n\n**Method:** "@ + report.method@
        + "\n\n## Models\n\n| Model | Metadata family | Baseline prompt tokens | Probe cost |\n|---|---:|---:|---:|\n"@;
    let models = markdown_models(heading, report.fingerprints@, texts(report.costs@));
    markdown_comparisons(
        models + "\n## Comparisons\n\n"@,
        report.comparisons@,
        texts(report.percents@),
    )
        + "\n> Matching deltas are evidence of shared tokenization behavior, not proof of model identity.\n\n## Probe deltas\n\n| Probe | What it checks |"@
}

/// A report in Markdown.
pub open spec fn report_in_markdown(report: Report) -> Seq<char> {
    let f = report.fingerprints@;
    let columns = model_columns(markdown_summary(report), f);
    let rules = column_rules(columns + "\n|---|---|"@, f.len());
    delta_rows(rules + "\n"@, f, row_count(f))
}

fn model_row(f: &Fingerprint, cost: &str) -> (r: String)
    ensures
        r@ == markdown_model_row(*f, cost@),
{
    let model = markdown_escape(f.model.as_str());
    let mut out = "| `".to_owned();
    out.append(model.as_str());
    out.append("` | ");
    out.append(shown_family(f));
    out.append(" | ");
    text::push_decimal(&mut out, f.baseline_prompt_tokens);
    out.append(" | ");
    out.append(cost);
    out.append(" |\n");
    out
}

fn comparison_item(c: &Comparison, percent: &str) -> (r: String)
    ensures
        r@ == markdown_comparison(*c, percent@),
{
    let left = markdown_escape(c.left.as_str());
    let right = markdown_escape(c.right.as_str());
    let mut out = "- `".to_owned();
    out.append(left.as_str());
    out.append("` vs `");
    out.append(right.as_str());
    out.append("`: **");
    text::push_decimal(&mut out, c.matching_probes as u64);
    out.append("/");
    text::push_decimal(&mut out, c.total_probes as u64);
    out.append(" deltas match (");
    out.append(percent);
    out.append("%)**");
    out.append(note_of(c));
    out.append("\n");
    out
}

fn summarize_in_markdown(report: &Report) -> (r: String)
    requires
        is_complete(*report),
    ensures
        r@ == markdown_summary(*report),
{
    let ghost f = report.fingerprints@;
    let ghost costs = texts(report.costs@);
    let ghost c = report.comparisons@;
    let ghost percents = texts(report.percents@);
    let mut out = "# Tokenizer Fingerprint\n\n**Method:** ".to_owned();
    out.append(report.method);
    out.append(
        "\n\n## Models\n\n| Model | Metadata family | Baseline prompt tokens | Probe cost |\n|---|---:|---:|---:|\n",
    );
    let ghost heading = out@;
    let mut i: usize = 0;
    while i < report.fingerprints.len()
        invariant
            i <= report.fingerprints@.len(),
            is_complete(*report),
            f == report.fingerprints@,
            costs == texts(report.costs@),
            out@ == markdown_models(heading, f.take(i as int), costs.take(i as int)),
        decreases report.fingerprints.len() - i,
    {
        assert(f.take(i + 1).drop_last() =~= f.take(i as int));
        assert(costs.take(i + 1).drop_last() =~= costs.take(i as int));
        let row = model_row(&report.fingerprints[i], report.costs[i].as_str());
        out.append(row.as_str());
        i = i + 1;
    }
    assert(f.take(i as int) =~= f);
    assert(costs.take(i as int) =~= costs);
    out.append("\n## Comparisons\n\n");
    let ghost start = out@;
    i = 0;
    while i < report.comparisons.len()
        invariant
            i <= report.comparisons@.len(),
            is_complete(*report),
            c == report.comparisons@,
            percents == texts(report.percents@),
            out@ == markdown_comparisons(start, c.take(i as int), percents.take(i as int)),
        decreases report.comparisons.len() - i,
    {
        assert(c.take(i + 1).drop_last() =~= c.take(i as int));
        assert(percents.take(i + 1).drop_last() =~= percents.take(i as int));
        let item = comparison_item(&report.comparisons[i], report.percents[i].as_str());
        out.append(item.as_str());
        i = i + 1;
    }
    assert(c.take(i as int) =~= c);
    assert(percents.take(i as int) =~= percents);
    out.append(
        "\n> Matching deltas are evidence of shared tokenization behavior, not proof of model identity.\n\n## Probe deltas\n\n| Probe | What it checks |",
    );
    out
}

fn probe_row(fingerprints: &Vec<Fingerprint>, row: usize) -> (r: String)
    requires
        fingerprints@.len() > 0,
        row < fingerprints@[0].probes@.len(),
    ensures
        r@ == delta_row(fingerprints@, row as int),
{
    let ghost f = fingerprints@;
    let name = markdown_escape(fingerprints[0].probes[row].name.as_str());
    let description = markdown_escape(fingerprints[0].probes[row].description.as_str());
    let mut out = "| ".to_owned();
    out.append(name.as_str());
    out.append(" | ");
    out.append(description.as_str());
    out.append(" |");
    let ghost start = out@;
    assert(f.take(0) =~= Seq::empty());
    let mut i: usize = 0;
    while i < fingerprints.len()
        invariant
            i <= fingerprints@.len(),
            f == fingerprints@,
            out@ == delta_cells(start, f.take(i as int), row as int),
        decreases fingerprints.len() - i,
    {
        assert(f.take(i + 1).drop_last() =~= f.take(i as int));
        let cell = if row < fingerprints[i].probes.len() {
            text::to_signed_decimal(fingerprints[i].probes[row].delta_tokens)
        } else {
            "n/a".to_owned()
        };
        out.append(" ");
        out.append(cell.as_str());
        out.append(" |");
        i = i + 1;
    }
    assert(f.take(i as int) =~= f);
    out.append("\n");
    out
}

/// A report in Markdown.
pub fn markdown_report(report: &Report) -> (r: String)
    requires
        is_complete(*report),
    ensures
        r@ == report_in_markdown(*report),
{
    let ghost f = report.fingerprints@;
    let mut out = summarize_in_markdown(report);
    let ghost summary = out@;
    assert(f.take(0) =~= Seq::empty());
    let mut i: usize = 0;
    while i < report.fingerprints.len()
        invariant
            i <= report.fingerprints@.len(),
            f == report.fingerprints@,
            out@ == model_columns(summary, f.take(i as int)),
        decreases report.fingerprints.len() - i,
    {
        assert(f.take(i + 1).drop_last() =~= f.take(i as int));
        let model = markdown_escape(report.fingerprints[i].model.as_str());
        out.append(" `");
        out.append(model.as_str());
        out.append("` |");
        i = i + 1;
    }
    assert(f.take(i as int) =~= f);
    out.append("\n|---|---|");
    let ghost start = out@;
    i = 0;
    while i < report.fingerprints.len()
        invariant
            i <= report.fingerprints@.len(),
            out@ == column_rules(start, i as nat),
        decreases report.fingerprints.len() - i,
    {
        out.append("---:|");
        i = i + 1;
    }
    out.append("\n");
    let ghost rules = out@;
    let rows: usize = if report.fingerprints.len() == 0 {
        0
    } else {
        report.fingerprints[0].probes.len()
    };
    i = 0;
    while i < rows
        invariant
            i <= rows,
            f == report.fingerprints@,
            rows == row_count(f),
            out@ == delta_rows(rules, f, i as int),
        decreases rows - i,
    {
        let row = probe_row(&report.fingerprints, i);
        out.append(row.as_str());
        i = i + 1;
    }
    out
}

} // verus!
