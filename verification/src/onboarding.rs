//! The configuration that a first run writes.

use vstd::prelude::*;
use vstd::string::{StrSliceExecFns, StringExecFns};
use crate::api::error::str_option;
use crate::api::types::text_option;
use crate::cli::ConfigProvider;
use crate::defaults::{Defaults, DefaultsView};
use crate::document::{
    copy_item, document_items, document_text, document_with_copy, document_with_entry,
    document_with_string, document_with_table, has_entry, holds, is_from_text, is_table, is_value,
    is_whole, new_items, parse_document, parsed_document, print_document, read_keys, read_string,
    reads_as, set_entry, set_string, set_table, takes_header, text_at, with_copy, with_entry, ItemView, Items,
    NEW_DOCUMENT,
};
use crate::text;
use crate::text::{
    ascii_lower, decimal, is_blank, joined, lower_char, pair_views, push_decimal_wide,
    split_parts, texts,
};

verus! {

/// Whether a character is an ASCII letter or digit.
pub open spec fn is_alphanumeric(c: char) -> bool {
    'a' <= c <= 'z' || 'A' <= c <= 'Z' || '0' <= c <= '9'
}

/// A character of a name: a lowercase letter, a digit, or a hyphen for anything else.
pub open spec fn name_char(c: char) -> char {
    if is_alphanumeric(c) {
        ascii_lower(c)
    } else {
        '-'
    }
}

/// A name made of a text: its letters and digits, with single hyphens between them.
pub open spec fn slugged(s: Seq<char>) -> Seq<char> {
    let parts = split_parts(s.map_values(|c: char| name_char(c)), "-"@).filter(
        |p: Seq<char>| p.len() > 0,
    );
    let name = joined(parts, "-"@);
    if name.len() == 0 {
        "model"@
    } else {
        name
    }
}

/// A name made of a text.
pub fn slug(value: &str) -> (r: String)
    ensures
        r@ == slugged(value@),
{
    let chars = text::chars_of(value);
    let ghost mapped = value@.map_values(|c: char| name_char(c));
    let mut hyphenated = String::new();
    let mut i: usize = 0;
    assert(hyphenated@ =~= mapped.take(0));
    while i < chars.len()
        invariant
            i <= chars@.len(),
            chars@ == value@,
            mapped == value@.map_values(|c: char| name_char(c)),
            hyphenated@ == mapped.take(i as int),
        decreases chars.len() - i,
    {
        let c = chars[i];
        let named = if ('a' <= c && c <= 'z') || ('A' <= c && c <= 'Z') || ('0' <= c && c <= '9') {
            lower_char(c)
        } else {
            '-'
        };
        hyphenated.push(named);
        i = i + 1;
        assert(hyphenated@ =~= mapped.take(i as int));
    }
    assert(mapped.take(chars@.len() as int) =~= mapped);
    proof {
        reveal_strlit("-");
        reveal(Seq::filter);
    }
    let all = text::split(hyphenated.as_str(), "-");
    let ghost parts = texts(all@);
    let ghost filled = |p: Seq<char>| p.len() > 0;
    let mut kept: Vec<String> = Vec::new();
    assert(texts(kept@) =~= parts.take(0).filter(filled));
    let mut k: usize = 0;
    while k < all.len()
        invariant
            k <= all@.len(),
            parts == texts(all@),
            filled == (|p: Seq<char>| p.len() > 0),
            texts(kept@) == parts.take(k as int).filter(filled),
        decreases all.len() - k,
    {
        proof {
            reveal(Seq::filter);
            assert(parts.take(k + 1).drop_last() =~= parts.take(k as int));
            assert(parts.take(k + 1).last() == all@[k as int]@);
        }
        if all[k].as_str().unicode_len() > 0 {
            let ghost before = texts(kept@);
            kept.push(all[k].clone());
            assert(texts(kept@) =~= before.push(all@[k as int]@));
        }
        k = k + 1;
    }
    assert(parts.take(all@.len() as int) =~= parts);
    let name = text::join(kept.as_slice(), "-");
    if name.as_str().unicode_len() == 0 {
        "model".to_owned()
    } else {
        name
    }
}

/// What is written for a provider.
pub struct ProviderSpecification {
    pub id: &'static str,
    pub kind: &'static str,
    pub base_url: Option<&'static str>,
    pub protocol: &'static str,
    pub api_key_env: &'static str,
    pub model: String,
}

/// What is written for a provider, as a mathematical object.
pub struct SpecificationView {
    pub id: Seq<char>,
    pub kind: Seq<char>,
    pub base_url: Option<Seq<char>>,
    pub protocol: Seq<char>,
    pub api_key_env: Seq<char>,
    pub model: Seq<char>,
}

impl View for ProviderSpecification {
    type V = SpecificationView;

    open spec fn view(&self) -> SpecificationView {
        SpecificationView {
            id: self.id@,
            kind: self.kind@,
            base_url: str_option(self.base_url),
            protocol: self.protocol@,
            api_key_env: self.api_key_env@,
            model: self.model@,
        }
    }
}

/// What is written for a provider; its usual model where none is asked for.
pub open spec fn specification(
    provider: ConfigProvider,
    model: Option<Seq<char>>,
    defaults: DefaultsView,
) -> SpecificationView {
    match provider {
        ConfigProvider::Anthropic => SpecificationView {
            id: "anthropic"@,
            kind: "anthropic"@,
            base_url: None,
            protocol: "chat_completions"@,
            api_key_env: "ANTHROPIC_API_KEY"@,
            model: or_usual(model, defaults.model),
        },
        ConfigProvider::Openai => SpecificationView {
            id: "openai"@,
            kind: "openai"@,
            base_url: Some("https://api.openai.com/v1"@),
            protocol: "responses"@,
            api_key_env: "OPENAI_API_KEY"@,
            model: or_usual(model, "gpt-5.6-sol"@),
        },
        ConfigProvider::OpenRouter => SpecificationView {
            id: "openrouter"@,
            kind: "openai"@,
            base_url: Some("https://openrouter.ai/api/v1"@),
            protocol: "chat_completions"@,
            api_key_env: "OPENROUTER_API_KEY"@,
            model: or_usual(model, defaults.routed_model),
        },
        ConfigProvider::Ollama => SpecificationView {
            id: "ollama"@,
            kind: "openai"@,
            base_url: Some("http://localhost:11434/v1"@),
            protocol: "chat_completions"@,
            api_key_env: "OLLAMA_API_KEY"@,
            model: or_usual(model, "llama3"@),
        },
    }
}

/// The model that is asked for, or the usual one.
pub open spec fn or_usual(model: Option<Seq<char>>, usual: Seq<char>) -> Seq<char> {
    match model {
        Some(m) => m,
        None => usual,
    }
}

impl ProviderSpecification {
    /// What is written for a provider; its usual model where none is asked for.
    pub fn new(provider: ConfigProvider, model: Option<&str>, defaults: &Defaults) -> (r:
        ProviderSpecification)
        ensures
            r@ == specification(provider, str_option(model), defaults@),
    {
        let usual = match provider {
            ConfigProvider::Anthropic => defaults.model.as_str(),
            ConfigProvider::Openai => "gpt-5.6-sol",
            ConfigProvider::OpenRouter => defaults.routed_model.as_str(),
            ConfigProvider::Ollama => "llama3",
        };
        let model = match model {
            Some(m) => m.to_owned(),
            None => usual.to_owned(),
        };
        match provider {
            ConfigProvider::Anthropic => ProviderSpecification {
                id: "anthropic",
                kind: "anthropic",
                base_url: None,
                protocol: "chat_completions",
                api_key_env: "ANTHROPIC_API_KEY",
                model,
            },
            ConfigProvider::Openai => ProviderSpecification {
                id: "openai",
                kind: "openai",
                base_url: Some("https://api.openai.com/v1"),
                protocol: "responses",
                api_key_env: "OPENAI_API_KEY",
                model,
            },
            ConfigProvider::OpenRouter => ProviderSpecification {
                id: "openrouter",
                kind: "openai",
                base_url: Some("https://openrouter.ai/api/v1"),
                protocol: "chat_completions",
                api_key_env: "OPENROUTER_API_KEY",
                model,
            },
            ConfigProvider::Ollama => ProviderSpecification {
                id: "ollama",
                kind: "openai",
                base_url: Some("http://localhost:11434/v1"),
                protocol: "chat_completions",
                api_key_env: "OLLAMA_API_KEY",
                model,
            },
        }
    }
}

/// The names that are tried in turn: a name, and then the name with a number.
pub open spec fn candidate(base: Seq<char>, k: nat) -> Seq<char> {
    if k <= 1 {
        base
    } else {
        base + "-"@ + decimal(k)
    }
}

/// Whether a name can be used: it is free, or what has it is what is wanted.
pub open spec fn usable(name: Seq<char>, taken: Seq<Seq<char>>, wanted: Seq<bool>) -> bool {
    !taken.contains(name) || (exists|i: int|
        0 <= i < taken.len() && #[trigger] taken[i] == name && wanted[i])
}

/// Whether a number gives the first name that can be used.
pub open spec fn is_first_usable(
    k: nat,
    base: Seq<char>,
    taken: Seq<Seq<char>>,
    wanted: Seq<bool>,
) -> bool {
    &&& k >= 1
    &&& usable(candidate(base, k), taken, wanted)
    &&& forall|j: nat| 1 <= j < k ==> !usable(#[trigger] candidate(base, j), taken, wanted)
}

/// The first name that can be used.
pub open spec fn first_usable(
    base: Seq<char>,
    taken: Seq<Seq<char>>,
    wanted: Seq<bool>,
) -> Seq<char> {
    candidate(base, choose|k: nat| is_first_usable(k, base, taken, wanted))
}

proof fn lemma_digit_distinct(x: int, y: int)
    requires
        0 <= x < 10,
        0 <= y < 10,
        text::digit(x) == text::digit(y),
    ensures
        x == y,
{
    assert(text::digit(x) as int == '0' as int + x);
    assert(text::digit(y) as int == '0' as int + y);
}

proof fn lemma_decimal_distinct(a: nat, b: nat)
    requires
        decimal(a) == decimal(b),
    ensures
        a == b,
    decreases a,
{
    if a >= 10 && b >= 10 {
        assert(decimal(a).drop_last() =~= decimal(a / 10));
        assert(decimal(b).drop_last() =~= decimal(b / 10));
        lemma_decimal_distinct(a / 10, b / 10);
        assert(decimal(a).last() == text::digit((a % 10) as int));
        assert(decimal(b).last() == text::digit((b % 10) as int));
        lemma_digit_distinct((a % 10) as int, (b % 10) as int);
    } else if a >= 10 {
        assert(decimal(a / 10).len() > 0);
        assert(decimal(a).len() > 1);
    } else if b >= 10 {
        assert(decimal(b / 10).len() > 0);
        assert(decimal(b).len() > 1);
    } else {
        assert(decimal(a)[0] == text::digit(a as int));
        assert(decimal(b)[0] == text::digit(b as int));
        lemma_digit_distinct(a as int, b as int);
    }
}

proof fn lemma_candidates_distinct(base: Seq<char>, a: nat, b: nat)
    requires
        a >= 1,
        b >= 1,
        candidate(base, a) == candidate(base, b),
    ensures
        a == b,
{
    reveal_strlit("-");
    if a > 1 && b > 1 {
        let x = base + "-"@ + decimal(a);
        let y = base + "-"@ + decimal(b);
        let n = (base.len() + 1) as int;
        assert(x.skip(n) =~= decimal(a));
        assert(y.skip(n) =~= decimal(b));
        lemma_decimal_distinct(a, b);
    } else if a > 1 {
        assert(candidate(base, a).len() > base.len());
    } else if b > 1 {
        assert(candidate(base, b).len() > base.len());
    }
}

pub(crate) proof fn lemma_some_usable(base: Seq<char>, taken: Seq<Seq<char>>, wanted: Seq<bool>)
    requires
        forall|j: nat|
            1 <= j <= taken.len() ==> !usable(#[trigger] candidate(base, j), taken, wanted),
    ensures
        usable(candidate(base, taken.len() + 1), taken, wanted),
{
    let n = taken.len();
    if !usable(candidate(base, n + 1), taken, wanted) {
        let tried = Seq::new(n + 1, |i: int| candidate(base, (i + 1) as nat));
        assert(tried.no_duplicates()) by {
            assert forall|i: int, j: int|
                0 <= i < tried.len() && 0 <= j < tried.len() && i != j implies tried[i]
                != tried[j] by {
                if tried[i] == tried[j] {
                    lemma_candidates_distinct(base, (i + 1) as nat, (j + 1) as nat);
                }
            }
        }
        assert forall|x: Seq<char>| #[trigger] tried.to_set().contains(x) implies taken.to_set().contains(
            x,
        ) by {
            assert(tried.contains(x));
            let i = choose|i: int| 0 <= i < tried.len() && tried[i] == x;
            let j = (i + 1) as nat;
            assert(x == candidate(base, j));
            assert(!usable(candidate(base, j), taken, wanted));
            assert(taken.contains(x));
        }
        tried.unique_seq_to_set();
        taken.lemma_cardinality_of_set();
        vstd::seq_lib::seq_to_set_is_finite(taken);
        vstd::set_lib::lemma_len_subset(tried.to_set(), taken.to_set());
    }
}

proof fn lemma_first_usable(k: nat, base: Seq<char>, taken: Seq<Seq<char>>, wanted: Seq<bool>)
    requires
        is_first_usable(k, base, taken, wanted),
    ensures
        first_usable(base, taken, wanted) == candidate(base, k),
{
    let c = choose|c: nat| is_first_usable(c, base, taken, wanted);
    assert(is_first_usable(c, base, taken, wanted));
    if c < k {
        assert(!usable(candidate(base, c), taken, wanted));
    } else if k < c {
        assert(!usable(candidate(base, k), taken, wanted));
    }
}

fn make_candidate(base: &str, k: u128) -> (r: String)
    ensures
        r@ == candidate(base@, k as nat),
{
    let mut name = base.to_owned();
    if k > 1 {
        name.append("-");
        push_decimal_wide(&mut name, k);
    }
    name
}

fn can_use(name: &str, taken: &Vec<String>, wanted: &Vec<bool>) -> (r: bool)
    requires
        taken@.len() == wanted@.len(),
    ensures
        r == usable(name@, texts(taken@), wanted@),
{
    let ghost all = texts(taken@);
    let mut found = false;
    let mut i: usize = 0;
    while i < taken.len()
        invariant
            i <= taken@.len(),
            taken@.len() == wanted@.len(),
            all == texts(taken@),
            found <==> exists|k: int| 0 <= k < i && #[trigger] all[k] == name@,
            forall|k: int| 0 <= k < i && #[trigger] all[k] == name@ ==> !wanted@[k],
        decreases taken.len() - i,
    {
        if text::same(taken[i].as_str(), name) {
            assert(all[i as int] == name@);
            if wanted[i] {
                return true;
            }
            found = true;
        }
        i = i + 1;
    }
    assert(found == all.contains(name@));
    !found
}

/// The first name that can be used: a free one, or one of what is wanted.
pub fn unique_table_name(base: &str, taken: &Vec<String>, wanted: &Vec<bool>) -> (r: String)
    requires
        taken@.len() == wanted@.len(),
    ensures
        r@ == first_usable(base@, texts(taken@), wanted@),
        exists|k: nat|
            is_first_usable(k, base@, texts(taken@), wanted@) && r@ == #[trigger] candidate(
                base@,
                k,
            ),
{
    let ghost all = texts(taken@);
    let n = taken.len();
    let mut k: u128 = 1;
    while k <= n as u128
        invariant
            1 <= k <= n + 1,
            n == taken@.len(),
            all == texts(taken@),
            taken@.len() == wanted@.len(),
            forall|j: nat| 1 <= j < k ==> !usable(#[trigger] candidate(base@, j), all, wanted@),
        decreases n + 1 - k,
    {
        let name = make_candidate(base, k);
        if can_use(name.as_str(), taken, wanted) {
            proof {
                assert(is_first_usable(k as nat, base@, all, wanted@));
                lemma_first_usable(k as nat, base@, all, wanted@);
            }
            return name;
        }
        k = k + 1;
    }
    proof {
        lemma_some_usable(base@, all, wanted@);
        assert(is_first_usable(k as nat, base@, all, wanted@));
        lemma_first_usable(k as nat, base@, all, wanted@);
    }
    make_candidate(base, k)
}

/// The string at the top of a document.
pub open spec fn top_string(items: Items, key: Seq<char>) -> Option<Seq<char>> {
    text_at(items, seq![key])
}

/// The string of an entry of a table.
pub open spec fn entry_string(
    items: Items,
    table: Seq<char>,
    name: Seq<char>,
    key: Seq<char>,
) -> Option<Seq<char>> {
    text_at(items, seq![table, name, key])
}

/// Whether an entry of a table has two strings.
pub open spec fn entry_wanted(
    items: Items,
    table: Seq<char>,
    name: Seq<char>,
    first: (Seq<char>, Option<Seq<char>>),
    second: (Seq<char>, Option<Seq<char>>),
) -> bool {
    entry_string(items, table, name, first.0) == first.1 && entry_string(
        items,
        table,
        name,
        second.0,
    ) == second.1
}

/// Whether a number gives the first name that is free in a table, or whose entry has two
/// strings.
pub open spec fn is_first_entry(
    k: nat,
    base: Seq<char>,
    items: Items,
    table: Seq<char>,
    first: (Seq<char>, Option<Seq<char>>),
    second: (Seq<char>, Option<Seq<char>>),
) -> bool {
    &&& k >= 1
    &&& fits_entry(candidate(base, k), items, table, first, second)
    &&& forall|j: nat|
        1 <= j < k ==> !fits_entry(#[trigger] candidate(base, j), items, table, first, second)
}

/// Whether a name is free in a table, or its entry has two strings.
pub open spec fn fits_entry(
    name: Seq<char>,
    items: Items,
    table: Seq<char>,
    first: (Seq<char>, Option<Seq<char>>),
    second: (Seq<char>, Option<Seq<char>>),
) -> bool {
    !has_entry(items, table, name) || entry_wanted(items, table, name, first, second)
}

/// The first name that is free in a table, or whose entry has two strings.
pub open spec fn entry_name(
    base: Seq<char>,
    items: Items,
    table: Seq<char>,
    first: (Seq<char>, Option<Seq<char>>),
    second: (Seq<char>, Option<Seq<char>>),
) -> Seq<char> {
    candidate(base, choose|k: nat| is_first_entry(k, base, items, table, first, second))
}

pub(crate) proof fn lemma_entry_name(
    k: nat,
    base: Seq<char>,
    items: Items,
    table: Seq<char>,
    first: (Seq<char>, Option<Seq<char>>),
    second: (Seq<char>, Option<Seq<char>>),
)
    requires
        is_first_entry(k, base, items, table, first, second),
    ensures
        entry_name(base, items, table, first, second) == candidate(base, k),
{
    let c = choose|c: nat| is_first_entry(c, base, items, table, first, second);
    assert(is_first_entry(c, base, items, table, first, second));
    if c < k {
        assert(!fits_entry(candidate(base, c), items, table, first, second));
    } else if k < c {
        assert(!fits_entry(candidate(base, k), items, table, first, second));
    }
}

fn top(document: &toml_edit::DocumentMut, key: &str) -> (r: Option<String>)
    ensures
        text_option(r) == top_string(document_items(*document), key@),
{
    let path: [&str; 1] = [key];
    assert(path@.map_values(|k: &str| k@) =~= seq![key@]);
    read_string(document, path.as_slice())
}

fn in_entry(document: &toml_edit::DocumentMut, table: &str, name: &str, key: &str) -> (r: Option<
    String,
>)
    ensures
        text_option(r) == entry_string(document_items(*document), table@, name@, key@),
{
    let path: [&str; 3] = [table, name, key];
    assert(path@.map_values(|k: &str| k@) =~= seq![table@, name@, key@]);
    read_string(document, path.as_slice())
}

fn has_key(document: &toml_edit::DocumentMut, key: &str) -> (r: bool)
    ensures
        r == document_items(*document).dom().contains(seq![key@]),
{
    let path: [&str; 1] = [key];
    assert(path@.map_values(|k: &str| k@) =~= seq![key@]);
    holds(document, path.as_slice())
}

fn lists_entry(document: &toml_edit::DocumentMut, table: &str, name: &str) -> (r: bool)
    ensures
        r == has_entry(document_items(*document), table@, name@),
{
    let path: [&str; 2] = [table, name];
    assert(path@.map_values(|k: &str| k@) =~= seq![table@, name@]);
    holds(document, path.as_slice())
}

fn entry_names(document: &toml_edit::DocumentMut, table: &str) -> (r: Vec<String>)
    ensures
        forall|name: Seq<char>| #[trigger]
            texts(r@).contains(name) <==> has_entry(document_items(*document), table@, name),
{
    let ghost items = document_items(*document);
    let mut out: Vec<String> = Vec::new();
    assert(texts(out@) =~= Seq::empty());
    match read_keys(document, table) {
        Some(keys) => {
            let mut i: usize = 0;
            while i < keys.len()
                invariant
                    i <= keys@.len(),
                    items == document_items(*document),
                    forall|name: Seq<char>| #[trigger]
                        texts(out@).contains(name) <==> has_entry(items, table@, name) && exists|
                            k: int,
                        | 0 <= k < i && #[trigger] keys@[k]@ == name,
                decreases keys.len() - i,
            {
                let ghost before = texts(out@);
                let ghost name = keys@[i as int]@;
                if lists_entry(document, table, keys[i].as_str()) {
                    out.push(keys[i].clone());
                    assert(texts(out@) =~= before.push(name));
                }
                proof {
                    assert forall|n: Seq<char>| #[trigger]
                        texts(out@).contains(n) <==> has_entry(items, table@, n) && exists|
                            k: int,
                        | 0 <= k < i + 1 && #[trigger] keys@[k]@ == n by {
                        lemma_push_contains(before, name, n);
                        if exists|k: int| 0 <= k < i + 1 && #[trigger] keys@[k]@ == n {
                            let k = choose|k: int| 0 <= k < i + 1 && #[trigger] keys@[k]@ == n;
                            if k < i {
                                assert(keys@[k]@ == n);
                            }
                        }
                    }
                }
                i = i + 1;
            }
            proof {
                assert forall|n: Seq<char>| #[trigger]
                    texts(out@).contains(n) <==> has_entry(items, table@, n) by {
                    if has_entry(items, table@, n) {
                        assert(texts(keys@).contains(n));
                        let k = choose|k: int| 0 <= k < keys@.len() && texts(keys@)[k] == n;
                        assert(keys@[k]@ == n);
                    }
                }
            }
        },
        None => {},
    }
    out
}

pub(crate) proof fn lemma_push_contains(s: Seq<Seq<char>>, x: Seq<char>, y: Seq<char>)
    ensures
        s.push(x).contains(y) <==> s.contains(y) || x == y,
{
    if s.contains(y) {
        let k = choose|k: int| 0 <= k < s.len() && s[k] == y;
        assert(s.push(x)[k] == y);
    }
    assert(s.push(x)[s.len() as int] == x);
    if s.push(x).contains(y) {
        let k = choose|k: int| 0 <= k < s.push(x).len() && s.push(x)[k] == y;
        if k < s.len() {
            assert(s[k] == y);
        }
    }
}

fn same_str(a: &Option<String>, b: &Option<&str>) -> (r: bool)
    ensures
        r == (text_option(*a) == str_option(*b)),
{
    match (a, b) {
        (Some(x), Some(y)) => text::same(x.as_str(), y),
        (None, None) => true,
        _ => false,
    }
}

fn choose_name(
    document: &toml_edit::DocumentMut,
    base: &str,
    table: &str,
    first: (&str, Option<&str>),
    second: (&str, Option<&str>),
) -> (r: String)
    ensures
        r@ == entry_name(
            base@,
            document_items(*document),
            table@,
            (first.0@, str_option(first.1)),
            (second.0@, str_option(second.1)),
        ),
{
    let ghost items = document_items(*document);
    let ghost one = (first.0@, str_option(first.1));
    let ghost two = (second.0@, str_option(second.1));
    let names = entry_names(document, table);
    let mut wanted: Vec<bool> = Vec::new();
    let mut i: usize = 0;
    while i < names.len()
        invariant
            i <= names@.len(),
            wanted@.len() == i,
            items == document_items(*document),
            one == (first.0@, str_option(first.1)),
            two == (second.0@, str_option(second.1)),
            forall|k: int|
                0 <= k < i ==> #[trigger] wanted@[k] == entry_wanted(
                    items,
                    table@,
                    names@[k]@,
                    one,
                    two,
                ),
        decreases names.len() - i,
    {
        let a = in_entry(document, table, names[i].as_str(), first.0);
        let b = in_entry(document, table, names[i].as_str(), second.0);
        wanted.push(same_str(&a, &first.1) && same_str(&b, &second.1));
        i = i + 1;
    }
    let name = unique_table_name(base, &names, &wanted);
    proof {
        let taken = texts(names@);
        let k = choose|k: nat|
            is_first_usable(k, base@, taken, wanted@) && name@ == #[trigger] candidate(base@, k);
        assert forall|n: Seq<char>| #[trigger] usable(n, taken, wanted@) <==> fits_entry(
            n,
            items,
            table@,
            one,
            two,
        ) by {
            if taken.contains(n) {
                let j = choose|j: int| 0 <= j < taken.len() && taken[j] == n;
                assert(wanted@[j] == entry_wanted(items, table@, names@[j]@, one, two));
                if usable(n, taken, wanted@) {
                    let m = choose|m: int|
                        0 <= m < taken.len() && #[trigger] taken[m] == n && wanted@[m];
                    assert(wanted@[m] == entry_wanted(items, table@, names@[m]@, one, two));
                }
            }
        }
        assert forall|j: nat| 1 <= j < k implies !fits_entry(
            #[trigger] candidate(base@, j),
            items,
            table@,
            one,
            two,
        ) by {
            assert(!usable(candidate(base@, j), taken, wanted@));
        }
        assert(usable(candidate(base@, k), taken, wanted@));
        assert(is_first_entry(k, base@, items, table@, one, two));
        lemma_entry_name(k, base@, items, table@, one, two);
    }
    name
}

/// A document with a table, which is added where it is missing.
pub open spec fn ensured_table(document: toml_edit::DocumentMut, table: Seq<char>) ->
    toml_edit::DocumentMut {
    if document_items(document).dom().contains(seq![table]) {
        document
    } else {
        document_with_table(document, table)
    }
}

/// Items with a table, which is added where it is missing.
pub open spec fn table_items(items: Items, table: Seq<char>) -> Items {
    if items.dom().contains(seq![table]) {
        items
    } else {
        items.insert(seq![table], ItemView::Table)
    }
}

fn ensure_table(document: &mut toml_edit::DocumentMut, table: &str)
    ensures
        *final(document) == ensured_table(*old(document), table@),
        document_items(*final(document)) == table_items(document_items(*old(document)), table@),
        is_from_text(*old(document)) ==> is_from_text(*final(document)),
{
    if !has_key(document, table) {
        set_table(document, table);
    }
}

/// A document with a default profile, which is set where there is none.
pub open spec fn ensured_default(document: toml_edit::DocumentMut, profile: Seq<char>) ->
    toml_edit::DocumentMut {
    if document_items(document).dom().contains(seq!["default_profile"@]) {
        document
    } else {
        document_with_string(document, "default_profile"@, profile)
    }
}

/// Items with a default profile, which is set where there is none.
pub open spec fn default_items(items: Items, profile: Seq<char>) -> Items {
    if items.dom().contains(seq!["default_profile"@]) {
        items
    } else {
        items.insert(seq!["default_profile"@], ItemView::Text(profile))
    }
}

fn ensure_default(document: &mut toml_edit::DocumentMut, profile: &str)
    ensures
        *final(document) == ensured_default(*old(document), profile@),
        document_items(*final(document)) == default_items(
            document_items(*old(document)),
            profile@,
        ),
        is_from_text(*old(document)) ==> is_from_text(*final(document)),
{
    if !has_key(document, "default_profile") {
        set_string(document, "default_profile", profile);
    }
}

/// A document with a copy of one of its items, where it has that item.
pub open spec fn copied(
    document: toml_edit::DocumentMut,
    source: Seq<char>,
    table: Seq<char>,
    name: Seq<char>,
    key: Seq<char>,
) -> toml_edit::DocumentMut {
    if document_items(document).dom().contains(seq![source]) {
        document_with_copy(document, source, table, name, key)
    } else {
        document
    }
}

/// Items with a copy of one of them, where it is there.
pub open spec fn copied_items(
    items: Items,
    source: Seq<char>,
    table: Seq<char>,
    name: Seq<char>,
    key: Seq<char>,
) -> Items {
    if items.dom().contains(seq![source]) {
        with_copy(items, source, table, name, key)
    } else {
        items
    }
}

/// Whether an item at the top is a value, where it is there.
pub open spec fn is_plain(items: Items, key: Seq<char>) -> bool {
    items.dom().contains(seq![key]) ==> is_value(items[seq![key]])
}

fn copy_value(
    document: &mut toml_edit::DocumentMut,
    source: &str,
    table: &str,
    name: &str,
    key: &str,
)
    requires
        is_table(document_items(*old(document)), seq![table@]),
        has_entry(document_items(*old(document)), table@, name@),
        document_items(*old(document))[seq![table@, name@]] is Table,
    ensures
        *final(document) == copied(*old(document), source@, table@, name@, key@),
        document_items(*final(document)) == copied_items(
            document_items(*old(document)),
            source@,
            table@,
            name@,
            key@,
        ),
        is_table(document_items(*final(document)), seq![table@]),
        has_entry(document_items(*final(document)), table@, name@),
        document_items(*final(document))[seq![table@, name@]] is Table,
        forall|k: Seq<char>| #[trigger]
            is_plain(document_items(*old(document)), k) ==> is_plain(
                document_items(*final(document)),
                k,
            ),
        is_from_text(*old(document)) && is_plain(document_items(*old(document)), source@)
            ==> is_from_text(*final(document)),
{
    let ghost items = document_items(*document);
    if has_key(document, source) {
        copy_item(document, source, table, name, key);
        proof {
            let target = seq![table@, name@, key@];
            lemma_longer(target, seq![table@]);
            lemma_longer(target, seq![table@, name@]);
            assert forall|k: Seq<char>| #[trigger] is_plain(items, k) implies is_plain(
                document_items(*document),
                k,
            ) by {
                lemma_longer(target, seq![k]);
            }
        }
    }
}

proof fn lemma_longer(below: Seq<Seq<char>>, path: Seq<Seq<char>>)
    ensures
        below.len() > path.len() ==> !below.is_prefix_of(path),
{
}

fn push_text_field(fields: &mut Vec<(String, String)>, key: &str, value: &str)
    ensures
        pair_views(final(fields)@) == pair_views(old(fields)@).push((key@, value@)),
{
    fields.push((key.to_owned(), value.to_owned()));
    assert(pair_views(fields@) =~= pair_views(old(fields)@).push((key@, value@)));
}

/// The string, or another where there is none.
pub open spec fn text_or(s: Option<Seq<char>>, other: Seq<char>) -> Seq<char> {
    match s {
        Some(t) => t,
        None => other,
    }
}

/// The model that a document configures without a profile, where it has no profiles.
pub open spec fn legacy_model(items: Items) -> Option<Seq<char>> {
    match top_string(items, "model"@) {
        Some(model) => if is_blank(model) || (exists|name: Seq<char>|
            has_entry(items, "model_profiles"@, name)) {
            None
        } else {
            Some(model)
        },
        None => None,
    }
}

/// The provider of a model that is configured without a profile.
pub open spec fn legacy_provider(items: Items) -> Seq<char> {
    if top_string(items, "openai_base_url"@) is Some {
        match top_string(items, "openai_provider_name"@) {
            Some(name) => slugged(name),
            None => "openai"@,
        }
    } else {
        "anthropic"@
    }
}

/// The strings of the provider of a model that is configured without a profile.
pub open spec fn legacy_provider_fields(items: Items) -> Seq<(Seq<char>, Seq<char>)> {
    match top_string(items, "openai_base_url"@) {
        Some(url) => seq![
            ("type"@, "openai"@),
            ("base_url"@, url),
            ("name"@, text_or(top_string(items, "openai_provider_name"@), "openai"@)),
            ("protocol"@, text_or(top_string(items, "openai_protocol"@), "chat_completions"@)),
        ],
        None => seq![("type"@, "anthropic"@), ("name"@, "anthropic"@)],
    }
}

/// The items that hold the credentials of a model that is configured without a profile.
pub open spec fn credential_keys(items: Items) -> (Seq<char>, Seq<char>, Seq<char>) {
    if top_string(items, "openai_base_url"@) is Some {
        ("openai_api_key"@, "openai_api_key_env"@, "openai_api_key_cmd"@)
    } else {
        ("api_key"@, "api_key_env"@, "api_key_cmd"@)
    }
}

/// The name of the profile of a model that is configured without one.
pub open spec fn legacy_profile(items: Items, model: Seq<char>) -> Seq<char> {
    legacy_provider(items) + "-"@ + slugged(model)
}

/// The strings of the profile of a model that is configured without one.
pub open spec fn legacy_fields(items: Items, model: Seq<char>) -> Seq<(Seq<char>, Seq<char>)> {
    seq![("provider"@, legacy_provider(items)), ("model"@, model), ("display_name"@, model)]
}

/// A document with a provider and a profile for the model that it configures without one.
pub open spec fn with_legacy_profile(document: toml_edit::DocumentMut, model: Seq<char>) ->
    toml_edit::DocumentMut {
    let items = document_items(document);
    let provider = legacy_provider(items);
    let profile = legacy_profile(items, model);
    let (key, env, cmd) = credential_keys(items);
    let b = ensured_table(ensured_table(document, "providers"@), "model_profiles"@);
    let c = document_with_entry(b, "providers"@, provider, legacy_provider_fields(items));
    let d = copied(c, key, "providers"@, provider, "api_key"@);
    let e = copied(d, env, "providers"@, provider, "api_key_env"@);
    let f = copied(e, cmd, "providers"@, provider, "api_key_cmd"@);
    let g = document_with_entry(f, "model_profiles"@, profile, legacy_fields(items, model));
    let h = copied(
        g,
        "openai_reasoning_effort"@,
        "model_profiles"@,
        profile,
        "reasoning_effort"@,
    );
    ensured_default(h, profile)
}

/// Items with an entry of strings in a table, and with copies of other items in it, where
/// those are there.
pub open spec fn filled_items(
    items: Items,
    table: Seq<char>,
    name: Seq<char>,
    fields: Seq<(Seq<char>, Seq<char>)>,
    copies: Seq<(Seq<char>, Seq<char>)>,
) -> Items
    decreases copies.len(),
{
    if copies.len() == 0 {
        with_entry(items, table, name, fields)
    } else {
        copied_items(
            filled_items(items, table, name, fields, copies.drop_last()),
            copies.last().0,
            table,
            name,
            copies.last().1,
        )
    }
}

/// The credentials of a model that is configured without a profile, and what they are called
/// in a provider.
pub open spec fn credential_copies(items: Items) -> Seq<(Seq<char>, Seq<char>)> {
    let (key, env, cmd) = credential_keys(items);
    seq![(key, "api_key"@), (env, "api_key_env"@), (cmd, "api_key_cmd"@)]
}

/// The effort of a model that is configured without a profile, and what it is called in one.
pub open spec fn effort_copies() -> Seq<(Seq<char>, Seq<char>)> {
    seq![("openai_reasoning_effort"@, "reasoning_effort"@)]
}

/// Items with a provider and a profile for the model that they configure without one.
pub open spec fn legacy_items(items: Items, model: Seq<char>) -> Items {
    let profile = legacy_profile(items, model);
    let provided = filled_items(
        table_items(table_items(items, "providers"@), "model_profiles"@),
        "providers"@,
        legacy_provider(items),
        legacy_provider_fields(items),
        credential_copies(items),
    );
    default_items(
        filled_items(
            provided,
            "model_profiles"@,
            profile,
            legacy_fields(items, model),
            effort_copies(),
        ),
        profile,
    )
}

proof fn lemma_filled_steps(
    items: Items,
    table: Seq<char>,
    name: Seq<char>,
    fields: Seq<(Seq<char>, Seq<char>)>,
    a: (Seq<char>, Seq<char>),
    b: (Seq<char>, Seq<char>),
    c: (Seq<char>, Seq<char>),
)
    ensures
        ({
            let x = with_entry(items, table, name, fields);
            let y = copied_items(x, a.0, table, name, a.1);
            let z = copied_items(y, b.0, table, name, b.1);
            &&& filled_items(items, table, name, fields, seq![a]) == y
            &&& filled_items(items, table, name, fields, seq![a, b, c]) == copied_items(
                z,
                c.0,
                table,
                name,
                c.1,
            )
        }),
{
    reveal_with_fuel(filled_items, 4);
    assert(seq![a, b, c].drop_last() =~= seq![a, b]);
    assert(seq![a, b].drop_last() =~= seq![a]);
    assert(seq![a].drop_last() =~= Seq::empty());
}

/// A document in which every model has a profile.
pub open spec fn migrated(document: toml_edit::DocumentMut) -> toml_edit::DocumentMut {
    match legacy_model(document_items(document)) {
        Some(model) => with_legacy_profile(document, model),
        None => document,
    }
}

/// Items in which every model has a profile.
pub open spec fn migrated_items(items: Items) -> Items {
    match legacy_model(items) {
        Some(model) => legacy_items(items, model),
        None => items,
    }
}

/// Whether the tables of providers and profiles are tables, where they are there.
pub open spec fn has_open_tables(items: Items) -> bool {
    &&& items.dom().contains(seq!["providers"@]) ==> is_table(items, seq!["providers"@])
    &&& items.dom().contains(seq!["model_profiles"@]) ==> is_table(items, seq!["model_profiles"@])
}

/// Whether what is copied for a model that is configured without a profile is no table.
pub open spec fn has_plain_sources(items: Items) -> bool {
    &&& is_plain(items, "api_key"@)
    &&& is_plain(items, "api_key_env"@)
    &&& is_plain(items, "api_key_cmd"@)
    &&& is_plain(items, "openai_api_key"@)
    &&& is_plain(items, "openai_api_key_env"@)
    &&& is_plain(items, "openai_api_key_cmd"@)
    &&& is_plain(items, "openai_reasoning_effort"@)
}

fn legacy_strings(document: &toml_edit::DocumentMut) -> (r: Vec<(String, String)>)
    ensures
        pair_views(r@) == legacy_provider_fields(document_items(*document)),
{
    let mut fields: Vec<(String, String)> = Vec::new();
    assert(pair_views(fields@) =~= Seq::empty());
    match top(document, "openai_base_url") {
        Some(url) => {
            let name = match top(document, "openai_provider_name") {
                Some(n) => n,
                None => "openai".to_owned(),
            };
            let protocol = match top(document, "openai_protocol") {
                Some(p) => p,
                None => "chat_completions".to_owned(),
            };
            push_text_field(&mut fields, "type", "openai");
            push_text_field(&mut fields, "base_url", url.as_str());
            push_text_field(&mut fields, "name", name.as_str());
            push_text_field(&mut fields, "protocol", protocol.as_str());
        },
        None => {
            push_text_field(&mut fields, "type", "anthropic");
            push_text_field(&mut fields, "name", "anthropic");
        },
    }
    assert(pair_views(fields@) =~= legacy_provider_fields(document_items(*document)));
    fields
}

fn legacy_provider_id(document: &toml_edit::DocumentMut) -> (r: String)
    ensures
        r@ == legacy_provider(document_items(*document)),
{
    if top(document, "openai_base_url").is_some() {
        match top(document, "openai_provider_name") {
            Some(name) => slug(name.as_str()),
            None => "openai".to_owned(),
        }
    } else {
        "anthropic".to_owned()
    }
}

proof fn lemma_plain_kept(before: Items, after: Items)
    requires
        forall|k: Seq<char>| #[trigger] is_plain(before, k) ==> is_plain(after, k),
    ensures
        has_plain_sources(before) ==> has_plain_sources(after),
{
}

proof fn lemma_sources_plain(items: Items)
    ensures
        has_plain_sources(items) ==> has_plain_sources(
            table_items(table_items(items, "providers"@), "model_profiles"@),
        ),
{
    reveal_strlit("providers");
    reveal_strlit("model_profiles");
    reveal_strlit("api_key");
    reveal_strlit("api_key_env");
    reveal_strlit("api_key_cmd");
    reveal_strlit("openai_api_key");
    reveal_strlit("openai_api_key_env");
    reveal_strlit("openai_api_key_cmd");
    reveal_strlit("openai_reasoning_effort");
    let after = table_items(table_items(items, "providers"@), "model_profiles"@);
    assert forall|k: Seq<char>| k != "providers"@ && k != "model_profiles"@ && #[trigger] is_plain(
        items,
        k,
    ) implies is_plain(after, k) by {
        assert(seq![k][0] == k);
        assert(seq!["providers"@][0] == "providers"@);
        assert(seq!["model_profiles"@][0] == "model_profiles"@);
    }
    assert("providers"@[0] == 'p');
    assert("model_profiles"@[0] == 'm');
    assert("api_key"@[0] == 'a');
    assert("api_key_env"@[0] == 'a');
    assert("api_key_cmd"@[0] == 'a');
    assert("openai_api_key"@[0] == 'o');
    assert("openai_api_key_env"@[0] == 'o');
    assert("openai_api_key_cmd"@[0] == 'o');
    assert("openai_reasoning_effort"@[0] == 'o');
}

proof fn lemma_entry_set(
    items: Items,
    table: Seq<char>,
    name: Seq<char>,
    fields: Seq<(Seq<char>, Seq<char>)>,
)
    ensures
        ({
            let after = with_entry(items, table, name, fields);
            &&& has_entry(after, table, name)
            &&& after[seq![table, name]] is Table
            &&& forall|key: Seq<char>|
                #![trigger after.dom().contains(seq![key])]
                #![trigger after[seq![key]]]
                after.dom().contains(seq![key]) == items.dom().contains(seq![key]) && (
                items.dom().contains(seq![key]) ==> after[seq![key]] == items[seq![key]])
            &&& forall|k: Seq<char>| #[trigger] is_plain(items, k) ==> is_plain(after, k)
        }),
{
    let entry = seq![table, name];
    let after = with_entry(items, table, name, fields);
    assert(entry.is_prefix_of(entry));
    assert forall|key: Seq<char>|
        #![trigger after.dom().contains(seq![key])]
        #![trigger after[seq![key]]]
        after.dom().contains(seq![key]) == items.dom().contains(seq![key]) && (
        items.dom().contains(seq![key]) ==> after[seq![key]] == items[seq![key]]) by {
        lemma_longer(entry, seq![key]);
    }
    assert forall|k: Seq<char>| #[trigger] is_plain(items, k) implies is_plain(after, k) by {
        assert(after.dom().contains(seq![k]) == items.dom().contains(seq![k]));
        lemma_longer(entry, seq![k]);
    }
}

/// Gives a model that a document configures without a profile a provider and a profile.
pub fn migrate_legacy_model(document: &mut toml_edit::DocumentMut)
    requires
        legacy_model(document_items(*old(document))) is Some ==> has_open_tables(
            document_items(*old(document)),
        ),
    ensures
        *final(document) == migrated(*old(document)),
        document_items(*final(document)) == migrated_items(document_items(*old(document))),
        is_from_text(*old(document)) && keeps_layout(document_items(*old(document)))
            ==> is_from_text(*final(document)),
{
    let ghost items = document_items(*document);
    let model = match top(document, "model") {
        Some(m) => m,
        None => return ,
    };
    let profiles = entry_names(document, "model_profiles");
    assert(texts(profiles@).len() == profiles@.len());
    if profiles.len() > 0 {
        assert(texts(profiles@).contains(texts(profiles@)[0]));
        return ;
    }
    proof {
        assert forall|name: Seq<char>| !has_entry(items, "model_profiles"@, name) by {
            if has_entry(items, "model_profiles"@, name) {
                assert(texts(profiles@).contains(name));
            }
        }
    }
    if text::blank(model.as_str()) {
        return ;
    }
    assert(legacy_model(items) == Some(model@));
    let openai = top(document, "openai_base_url").is_some();
    let provider = legacy_provider_id(document);
    let provider_strings = legacy_strings(document);
    let mut profile = provider.clone();
    let name = slug(model.as_str());
    profile.append("-");
    profile.append(name.as_str());
    let mut fields: Vec<(String, String)> = Vec::new();
    assert(pair_views(fields@) =~= Seq::empty());
    push_text_field(&mut fields, "provider", provider.as_str());
    push_text_field(&mut fields, "model", model.as_str());
    push_text_field(&mut fields, "display_name", model.as_str());
    assert(pair_views(fields@) =~= legacy_fields(items, model@));
    let (key, env, cmd) = if openai {
        ("openai_api_key", "openai_api_key_env", "openai_api_key_cmd")
    } else {
        ("api_key", "api_key_env", "api_key_cmd")
    };
    proof {
        lemma_names_differ();
        lemma_sources_plain(items);
    }
    ensure_table(document, "providers");
    ensure_table(document, "model_profiles");
    let ghost b = document_items(*document);
    assert(is_table(b, seq!["providers"@]));
    assert(is_table(b, seq!["model_profiles"@]));
    proof {
        lemma_entry_set(b, "providers"@, provider@, pair_views(provider_strings@));
    }
    set_entry(document, "providers", provider.as_str(), provider_strings.as_slice());
    let ghost c = document_items(*document);
    assert(is_table(c, seq!["providers"@]) && is_table(c, seq!["model_profiles"@])) by {
        assert(c.dom().contains(seq!["providers"@]));
        assert(c.dom().contains(seq!["model_profiles"@]));
    }
    proof {
        lemma_entry_elsewhere(
            b,
            "providers"@,
            provider@,
            legacy_provider_fields(items),
            "model_profiles"@,
            profile@,
        );
    }
    copy_value(document, key, "providers", provider.as_str(), "api_key");
    let ghost d = document_items(*document);
    copy_value(document, env, "providers", provider.as_str(), "api_key_env");
    let ghost e = document_items(*document);
    copy_value(document, cmd, "providers", provider.as_str(), "api_key_cmd");
    let ghost f = document_items(*document);
    proof {
        lemma_plain_kept(b, c);
        lemma_plain_kept(c, d);
        lemma_plain_kept(d, e);
        lemma_plain_kept(e, f);
        lemma_copy_top(c, key@, "providers"@, provider@, "api_key"@, "model_profiles"@);
        lemma_copy_top(d, env@, "providers"@, provider@, "api_key_env"@, "model_profiles"@);
        lemma_copy_top(e, cmd@, "providers"@, provider@, "api_key_cmd"@, "model_profiles"@);
        lemma_copy_elsewhere(c, key@, provider@, "api_key"@, profile@);
        lemma_copy_elsewhere(d, env@, provider@, "api_key_env"@, profile@);
        lemma_copy_elsewhere(e, cmd@, provider@, "api_key_cmd"@, profile@);
        assert(!has_entry(items, "model_profiles"@, profile@));
        assert(!has_entry(f, "model_profiles"@, profile@));
        lemma_entry_set(f, "model_profiles"@, profile@, pair_views(fields@));
    }
    set_entry(document, "model_profiles", profile.as_str(), fields.as_slice());
    let ghost g = document_items(*document);
    proof {
        let none = (Seq::<char>::empty(), Seq::<char>::empty());
        lemma_filled_steps(
            b,
            "providers"@,
            provider@,
            legacy_provider_fields(items),
            (key@, "api_key"@),
            (env@, "api_key_env"@),
            (cmd@, "api_key_cmd"@),
        );
        lemma_filled_steps(
            f,
            "model_profiles"@,
            profile@,
            legacy_fields(items, model@),
            ("openai_reasoning_effort"@, "reasoning_effort"@),
            none,
            none,
        );
        lemma_plain_kept(f, g);
        assert(g.dom().contains(seq!["model_profiles"@]));
    }
    copy_value(
        document,
        "openai_reasoning_effort",
        "model_profiles",
        profile.as_str(),
        "reasoning_effort",
    );
    ensure_default(document, profile.as_str());
}

proof fn lemma_copy_top(
    items: Items,
    source: Seq<char>,
    table: Seq<char>,
    name: Seq<char>,
    key: Seq<char>,
    other: Seq<char>,
)
    ensures
        ({
            let after = copied_items(items, source, table, name, key);
            &&& after.dom().contains(seq![other]) == items.dom().contains(seq![other])
            &&& items.dom().contains(seq![other]) ==> after[seq![other]] == items[seq![other]]
        }),
{
    lemma_longer(seq![table, name, key], seq![other]);
}

proof fn lemma_entry_elsewhere(
    items: Items,
    table: Seq<char>,
    name: Seq<char>,
    fields: Seq<(Seq<char>, Seq<char>)>,
    other: Seq<char>,
    entry: Seq<char>,
)
    requires
        table != other,
    ensures
        has_entry(with_entry(items, table, name, fields), other, entry) == has_entry(
            items,
            other,
            entry,
        ),
{
    let path = seq![other, entry];
    if seq![table, name].is_prefix_of(path) {
        assert(path.subrange(0, 2)[0] == path[0]);
    }
}

proof fn lemma_copy_elsewhere(
    items: Items,
    source: Seq<char>,
    name: Seq<char>,
    key: Seq<char>,
    entry: Seq<char>,
)
    ensures
        has_entry(
            copied_items(items, source, "providers"@, name, key),
            "model_profiles"@,
            entry,
        ) == has_entry(items, "model_profiles"@, entry),
{
    lemma_longer(seq!["providers"@, name, key], seq!["model_profiles"@, entry]);
}

pub(crate) proof fn lemma_names_differ()
    ensures
        "providers"@ != "model_profiles"@,
        "providers"@ != "default_profile"@,
        "model_profiles"@ != "default_profile"@,
        seq!["providers"@] != seq!["model_profiles"@],
        seq!["providers"@] != seq!["default_profile"@],
        seq!["model_profiles"@] != seq!["default_profile"@],
{
    reveal_strlit("providers");
    reveal_strlit("model_profiles");
    reveal_strlit("default_profile");
    assert("providers"@.len() == 9);
    assert("model_profiles"@.len() == 14);
    assert("default_profile"@.len() == 15);
    assert(seq!["providers"@][0] == "providers"@);
    assert(seq!["model_profiles"@][0] == "model_profiles"@);
    assert(seq!["default_profile"@][0] == "default_profile"@);
}

/// The name under which a provider is configured: that of the same provider, or a free
/// one.
pub open spec fn provider_name_for(items: Items, s: SpecificationView) -> Seq<char> {
    entry_name(
        s.id,
        items,
        "providers"@,
        ("type"@, Some(s.kind)),
        ("base_url"@, s.base_url),
    )
}

/// The strings of a provider.
pub open spec fn provider_fields(s: SpecificationView) -> Seq<(Seq<char>, Seq<char>)> {
    match s.base_url {
        Some(url) => seq![
            ("type"@, s.kind),
            ("base_url"@, url),
            ("name"@, s.id),
            ("protocol"@, s.protocol),
            ("api_key_env"@, s.api_key_env),
        ],
        None => seq![
            ("type"@, s.kind),
            ("name"@, s.id),
            ("protocol"@, s.protocol),
            ("api_key_env"@, s.api_key_env),
        ],
    }
}

/// The name of a profile: that of the same model of the same provider, or a free one.
pub open spec fn profile_name_for(items: Items, s: SpecificationView, provider: Seq<char>) -> Seq<
    char,
> {
    entry_name(
        s.id + "-"@ + slugged(s.model),
        items,
        "model_profiles"@,
        ("provider"@, Some(provider)),
        ("model"@, Some(s.model)),
    )
}

/// The strings of a profile.
pub open spec fn profile_fields(s: SpecificationView, provider: Seq<char>) -> Seq<
    (Seq<char>, Seq<char>),
> {
    seq![("provider"@, provider), ("model"@, s.model), ("display_name"@, s.model)]
}

/// A document with an entry, which is added where its name is free.
pub open spec fn ensured_entry(
    document: toml_edit::DocumentMut,
    table: Seq<char>,
    name: Seq<char>,
    fields: Seq<(Seq<char>, Seq<char>)>,
) -> toml_edit::DocumentMut {
    if has_entry(document_items(document), table, name) {
        document
    } else {
        document_with_entry(document, table, name, fields)
    }
}

/// Items with an entry, which is added where its name is free.
pub open spec fn entry_items(
    items: Items,
    table: Seq<char>,
    name: Seq<char>,
    fields: Seq<(Seq<char>, Seq<char>)>,
) -> Items {
    if has_entry(items, table, name) {
        items
    } else {
        with_entry(items, table, name, fields)
    }
}

/// A document with a provider and a profile of it.
pub open spec fn with_profile(document: toml_edit::DocumentMut, s: SpecificationView) ->
    toml_edit::DocumentMut {
    let provider = provider_name_for(document_items(document), s);
    let a = ensured_entry(document, "providers"@, provider, provider_fields(s));
    let profile = profile_name_for(document_items(a), s, provider);
    let b = ensured_entry(a, "model_profiles"@, profile, profile_fields(s, provider));
    ensured_default(b, profile)
}

/// Items with a provider and a profile of it.
pub open spec fn profile_items(items: Items, s: SpecificationView) -> Items {
    let provider = provider_name_for(items, s);
    let a = entry_items(items, "providers"@, provider, provider_fields(s));
    let profile = profile_name_for(a, s, provider);
    let b = entry_items(a, "model_profiles"@, profile, profile_fields(s, provider));
    default_items(b, profile)
}

/// A document with a profile for a model of a provider: what it holds is kept, and a model
/// that it configures without a profile gets one.
pub open spec fn added_document(document: toml_edit::DocumentMut, s: SpecificationView) ->
    toml_edit::DocumentMut {
    with_profile(
        ensured_table(ensured_table(migrated(document), "providers"@), "model_profiles"@),
        s,
    )
}

/// Items in which every model has a profile, with the tables of providers and profiles.
pub open spec fn prepared_items(items: Items) -> Items {
    table_items(table_items(migrated_items(items), "providers"@), "model_profiles"@)
}

/// Items with a profile for a model of a provider.
pub open spec fn added_items(items: Items, s: SpecificationView) -> Items {
    profile_items(prepared_items(items), s)
}

fn ensure_entry(
    document: &mut toml_edit::DocumentMut,
    table: &str,
    name: &str,
    fields: &Vec<(String, String)>,
)
    requires
        is_table(document_items(*old(document)), seq![table@]),
    ensures
        *final(document) == ensured_entry(*old(document), table@, name@, pair_views(fields@)),
        document_items(*final(document)) == entry_items(
            document_items(*old(document)),
            table@,
            name@,
            pair_views(fields@),
        ),
        is_from_text(*old(document)) ==> is_from_text(*final(document)),
{
    if !lists_entry(document, table, name) {
        set_entry(document, table, name, fields.as_slice());
    }
}

fn fields_of(s: &ProviderSpecification) -> (r: Vec<(String, String)>)
    ensures
        pair_views(r@) == provider_fields(s@),
{
    let mut fields: Vec<(String, String)> = Vec::new();
    assert(pair_views(fields@) =~= Seq::empty());
    push_text_field(&mut fields, "type", s.kind);
    match s.base_url {
        Some(url) => push_text_field(&mut fields, "base_url", url),
        None => {},
    }
    push_text_field(&mut fields, "name", s.id);
    push_text_field(&mut fields, "protocol", s.protocol);
    push_text_field(&mut fields, "api_key_env", s.api_key_env);
    assert(pair_views(fields@) =~= provider_fields(s@));
    fields
}

fn add_profile(document: &mut toml_edit::DocumentMut, s: &ProviderSpecification)
    requires
        is_table(document_items(*old(document)), seq!["providers"@]),
        is_table(document_items(*old(document)), seq!["model_profiles"@]),
    ensures
        *final(document) == with_profile(*old(document), s@),
        document_items(*final(document)) == profile_items(document_items(*old(document)), s@),
        is_from_text(*old(document)) ==> is_from_text(*final(document)),
{
    let ghost items = document_items(*document);
    let provider = choose_name(
        document,
        s.id,
        "providers",
        ("type", Some(s.kind)),
        ("base_url", s.base_url),
    );
    let provider_strings = fields_of(s);
    proof {
        lemma_entry_set(items, "providers"@, provider@, provider_fields(s@));
        assert(items.dom().contains(seq!["model_profiles"@]));
    }
    ensure_entry(document, "providers", provider.as_str(), &provider_strings);
    assert(is_table(document_items(*document), seq!["model_profiles"@])) by {
        let after = with_entry(items, "providers"@, provider@, provider_fields(s@));
        assert(after.dom().contains(seq!["model_profiles"@]));
    }
    let model_name = slug(s.model.as_str());
    let mut base = s.id.to_owned();
    base.append("-");
    base.append(model_name.as_str());
    let profile = choose_name(
        document,
        base.as_str(),
        "model_profiles",
        ("provider", Some(provider.as_str())),
        ("model", Some(s.model.as_str())),
    );
    let mut fields: Vec<(String, String)> = Vec::new();
    assert(pair_views(fields@) =~= Seq::empty());
    push_text_field(&mut fields, "provider", provider.as_str());
    push_text_field(&mut fields, "model", s.model.as_str());
    push_text_field(&mut fields, "display_name", s.model.as_str());
    assert(pair_views(fields@) =~= profile_fields(s@, provider@));
    ensure_entry(document, "model_profiles", profile.as_str(), &fields);
    ensure_default(document, profile.as_str());
}

/// The document that a configuration stands for: a new one where it is blank.
pub open spec fn document_of(existing: Seq<char>) -> Option<toml_edit::DocumentMut> {
    parsed_document(
        if is_blank(existing) {
            NEW_DOCUMENT@
        } else {
            existing
        },
    )
}

/// Why a configuration takes no profile, where that is so: it does not hold what a
/// configuration holds, or is no document.
pub open spec fn refusal(existing: Seq<char>, valid: bool) -> Option<Seq<char>> {
    if !is_blank(existing) && !valid {
        Some("existing claux configuration is invalid"@)
    } else {
        match document_of(existing) {
            Some(document) => if has_open_tables(document_items(document)) {
                None
            } else {
                Some("existing claux configuration is invalid"@)
            },
            None => Some("existing configuration is invalid TOML"@),
        }
    }
}

/// Whether what is set for a model that is configured without a profile leaves a document
/// that can be read again: no table is copied, and its provider is not there already as the
/// value of a key. Where it is, whatever stands in front of that key comes into a header.
pub open spec fn keeps_layout(items: Items) -> bool {
    legacy_model(items) is Some ==> has_plain_sources(items) && takes_header(
        items,
        "providers"@,
        legacy_provider(items),
    )
}

/// Whether a text is that of a document with a profile added, which is read again from it
/// where its layout is kept.
pub open spec fn is_added(
    text: Seq<char>,
    document: toml_edit::DocumentMut,
    s: SpecificationView,
) -> bool {
    let items = document_items(document);
    &&& text == document_text(added_document(document, s))
    &&& is_whole(items)
    &&& document_items(added_document(document, s)) == added_items(items, s)
    &&& keeps_layout(items) ==> reads_as(text, added_items(items, s))
    &&& top_string(added_items(items, s), "default_profile"@) is Some ==> !is_blank(text)
}

/// The configuration with a profile for a model of a provider. What the configuration
/// holds is kept; a model that it names without a profile gets one. `valid` tells whether
/// the text holds what a configuration holds; one that does not is refused.
pub fn add_model_profile(
    existing: &str,
    valid: bool,
    provider: ConfigProvider,
    model: Option<&str>,
    defaults: &Defaults,
) -> (r: Result<String, String>)
    ensures
        match refusal(existing@, valid) {
            Some(why) => r matches Err(e) && e@ == why,
            None => r matches Ok(t) && (document_of(existing@) matches Some(document) && is_added(
                t@,
                document,
                specification(provider, str_option(model), defaults@),
            )),
        },
        is_blank(existing@) ==> r is Ok && (document_of(existing@) matches Some(document)
            && document_items(document) == new_items()),
{
    let fresh = text::blank(existing);
    if !fresh && !valid {
        return Err("existing claux configuration is invalid".to_owned());
    }
    let start = if fresh {
        NEW_DOCUMENT
    } else {
        existing
    };
    let mut document = match parse_document(start) {
        Some(d) => d,
        None => return Err("existing configuration is invalid TOML".to_owned()),
    };
    let ghost items = document_items(document);
    proof {
        if fresh {
            lemma_new_items_open();
        }
    }
    if !takes_entries(&document, "providers") || !takes_entries(&document, "model_profiles") {
        return Err("existing claux configuration is invalid".to_owned());
    }
    let s = ProviderSpecification::new(provider, model, defaults);
    proof {
        lemma_names_differ();
        lemma_prepared_open(items);
    }
    migrate_legacy_model(&mut document);
    ensure_table(&mut document, "providers");
    ensure_table(&mut document, "model_profiles");
    add_profile(&mut document, &s);
    let text = print_document(&document);
    proof {
        let added = document_items(document);
        if top_string(added, "default_profile"@) is Some {
            assert(text_at(added, seq!["default_profile"@]) is Some);
        }
    }
    Ok(text)
}

fn takes_entries(document: &toml_edit::DocumentMut, table: &str) -> (r: bool)
    ensures
        r == (document_items(*document).dom().contains(seq![table@]) ==> is_table(
            document_items(*document),
            seq![table@],
        )),
{
    !has_key(document, table) || read_keys(document, table).is_some()
}

proof fn lemma_new_items_open()
    ensures
        has_open_tables(new_items()),
{
    reveal_strlit("providers");
    reveal_strlit("model_profiles");
    reveal_strlit("permission_mode");
    reveal_strlit("max_tokens");
    reveal_strlit("auto_compact_threshold");
    assert("providers"@.len() == 9);
    assert("model_profiles"@.len() == 14);
    assert("permission_mode"@.len() == 15);
    assert("max_tokens"@.len() == 10);
    assert("auto_compact_threshold"@.len() == 22);
    assert(seq!["providers"@][0] == "providers"@);
    assert(seq!["model_profiles"@][0] == "model_profiles"@);
    assert(seq!["permission_mode"@][0] == "permission_mode"@);
    assert(seq!["max_tokens"@][0] == "max_tokens"@);
    assert(seq!["auto_compact_threshold"@][0] == "auto_compact_threshold"@);
}

/// The item at the top under a key.
pub open spec fn top_item(items: Items, key: Seq<char>) -> Option<ItemView> {
    if items.dom().contains(seq![key]) {
        Some(items[seq![key]])
    } else {
        None
    }
}

proof fn lemma_entry_top(
    items: Items,
    table: Seq<char>,
    name: Seq<char>,
    fields: Seq<(Seq<char>, Seq<char>)>,
    key: Seq<char>,
)
    ensures
        top_item(with_entry(items, table, name, fields), key) == top_item(items, key),
{
    lemma_longer(seq![table, name], seq![key]);
}

proof fn lemma_copied_top(
    items: Items,
    source: Seq<char>,
    table: Seq<char>,
    name: Seq<char>,
    target: Seq<char>,
    key: Seq<char>,
)
    ensures
        top_item(copied_items(items, source, table, name, target), key) == top_item(items, key),
{
    lemma_longer(seq![table, name, target], seq![key]);
}

proof fn lemma_set_top(items: Items, set: Seq<char>, item: ItemView, key: Seq<char>)
    ensures
        top_item(items.insert(seq![set], item), key) == if key == set {
            Some(item)
        } else {
            top_item(items, key)
        },
{
    assert(seq![set][0] == set);
    assert(seq![key][0] == key);
}

proof fn lemma_filled_top(
    items: Items,
    table: Seq<char>,
    name: Seq<char>,
    fields: Seq<(Seq<char>, Seq<char>)>,
    copies: Seq<(Seq<char>, Seq<char>)>,
    key: Seq<char>,
)
    ensures
        top_item(filled_items(items, table, name, fields, copies), key) == top_item(items, key),
    decreases copies.len(),
{
    if copies.len() == 0 {
        lemma_entry_top(items, table, name, fields, key);
    } else {
        let init = copies.drop_last();
        lemma_filled_top(items, table, name, fields, init, key);
        lemma_copied_top(
            filled_items(items, table, name, fields, init),
            copies.last().0,
            table,
            name,
            copies.last().1,
            key,
        );
    }
}

pub(crate) proof fn lemma_legacy_top(items: Items, model: Seq<char>, key: Seq<char>)
    ensures
        top_item(items, key) is Some ==> top_item(legacy_items(items, model), key) == top_item(
            items,
            key,
        ),
        key == "providers"@ || key == "model_profiles"@ ==> (top_item(items, key) is None
            ==> top_item(legacy_items(items, model), key) == Some(ItemView::Table)),
{
    let provider = legacy_provider(items);
    let profile = legacy_profile(items, model);
    let a = table_items(items, "providers"@);
    let b = table_items(a, "model_profiles"@);
    let fields = legacy_provider_fields(items);
    let copies = credential_copies(items);
    let f = filled_items(b, "providers"@, provider, fields, copies);
    let own = legacy_fields(items, model);
    let h = filled_items(f, "model_profiles"@, profile, own, effort_copies());
    lemma_names_differ();
    lemma_set_top(items, "providers"@, ItemView::Table, key);
    lemma_set_top(a, "model_profiles"@, ItemView::Table, key);
    lemma_filled_top(b, "providers"@, provider, fields, copies, key);
    lemma_filled_top(f, "model_profiles"@, profile, own, effort_copies(), key);
    lemma_set_top(h, "default_profile"@, ItemView::Text(profile), key);
}

pub(crate) proof fn lemma_prepared_top(items: Items, key: Seq<char>)
    ensures
        top_item(items, key) is Some ==> top_item(prepared_items(items), key) == top_item(
            items,
            key,
        ),
        key == "providers"@ || key == "model_profiles"@ ==> (top_item(items, key) is None
            ==> top_item(prepared_items(items), key) == Some(ItemView::Table)),
        key == "providers"@ || key == "model_profiles"@ ==> (top_item(migrated_items(items), key)
            is Some ==> top_item(prepared_items(items), key) == top_item(
            migrated_items(items),
            key,
        )),
{
    let m = migrated_items(items);
    let a = table_items(m, "providers"@);
    if legacy_model(items) is Some {
        lemma_legacy_top(items, legacy_model(items)->Some_0, key);
    }
    lemma_names_differ();
    lemma_set_top(m, "providers"@, ItemView::Table, key);
    lemma_set_top(a, "model_profiles"@, ItemView::Table, key);
}

pub(crate) proof fn lemma_prepared_open(items: Items)
    requires
        has_open_tables(items),
    ensures
        is_table(prepared_items(items), seq!["providers"@]),
        is_table(prepared_items(items), seq!["model_profiles"@]),
{
    lemma_prepared_top(items, "providers"@);
    lemma_prepared_top(items, "model_profiles"@);
    assert(top_item(prepared_items(items), "providers"@) is Some);
    assert(top_item(prepared_items(items), "model_profiles"@) is Some);
}

/// The configuration of a first run.
pub fn config_template(provider: ConfigProvider, model: Option<&str>, defaults: &Defaults) -> (r:
    String)
    ensures
        document_of(""@) matches Some(document) && document_items(document) == new_items()
            && is_added(
            r@,
            document,
            specification(provider, str_option(model), defaults@),
        ),
{
    proof {
        reveal_strlit("");
        assert(""@ =~= Seq::empty());
        assert(is_blank(""@));
    }
    match add_model_profile("", true, provider, model, defaults) {
        Ok(text) => text,
        Err(why) => {
            assert(false);
            why
        },
    }
}

/// The configuration that is kept when one is written.
pub open spec fn kept_configuration(existing: Option<Seq<char>>, force: bool) -> Seq<char> {
    match existing {
        Some(text) => if force {
            ""@
        } else {
            text
        },
        None => ""@,
    }
}

/// The configuration file that a first run, or a further one, writes. What is there is
/// kept unless it is to be replaced; a link is never replaced.
pub fn init_config(
    path: &str,
    is_symlink: bool,
    existing: Option<&str>,
    valid: bool,
    provider: ConfigProvider,
    model: Option<&str>,
    force: bool,
    defaults: &Defaults,
) -> (r: Result<String, String>)
    ensures
        ({
            let kept = kept_configuration(str_option(existing), force);
            if is_symlink {
                r matches Err(e) && e@ == "refusing to replace symlink "@ + path@
            } else {
                match refusal(kept, valid) {
                    Some(why) => r matches Err(e) && e@ == why,
                    None => r matches Ok(t) && (document_of(kept) matches Some(document)
                        && is_added(
                        t@,
                        document,
                        specification(provider, str_option(model), defaults@),
                    )),
                }
            }
        }),
        !is_symlink && is_blank(kept_configuration(str_option(existing), force)) ==> r is Ok,
{
    if is_symlink {
        let mut e = "refusing to replace symlink ".to_owned();
        e.append(path);
        return Err(e);
    }
    let kept = match existing {
        Some(text) => if force {
            ""
        } else {
            text
        },
        None => "",
    };
    add_model_profile(kept, valid, provider, model, defaults)
}

/// A provider that is configured already is found again: a name is only passed over where
/// another provider has it.
pub proof fn law_same_entry_found(
    base: Seq<char>,
    items: Items,
    table: Seq<char>,
    first: (Seq<char>, Option<Seq<char>>),
    second: (Seq<char>, Option<Seq<char>>),
)
    requires
        entry_wanted(items, table, base, first, second),
    ensures
        entry_name(base, items, table, first, second) == base,
{
    assert(fits_entry(candidate(base, 1), items, table, first, second));
    assert(is_first_entry(1, base, items, table, first, second));
    lemma_entry_name(1, base, items, table, first, second);
}

/// No secret is written: what is written of a provider names the environment variable that
/// holds its key, and never a key.
pub proof fn law_no_secret_written(s: SpecificationView)
    ensures
        forall|i: int|
            0 <= i < provider_fields(s).len() ==> (#[trigger] provider_fields(s)[i]).0
                != "api_key"@,
        provider_fields(s).contains(("api_key_env"@, s.api_key_env)),
{
    reveal_strlit("api_key");
    reveal_strlit("type");
    reveal_strlit("base_url");
    reveal_strlit("name");
    reveal_strlit("protocol");
    reveal_strlit("api_key_env");
    let fields = provider_fields(s);
    assert("api_key"@.len() == 7);
    assert("base_url"@.len() == 8);
    assert("protocol"@.len() == 8);
    assert("api_key_env"@.len() == 11);
    assert("type"@.len() == 4);
    assert("name"@.len() == 4);
    assert(fields[fields.len() - 1] == ("api_key_env"@, s.api_key_env));
}

} // verus!
