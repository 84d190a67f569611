//! Credentials: where they are kept, and how they are obtained.

use vstd::prelude::*;
use vstd::string::{StrSliceExecFns, StringExecFns};
use vstd::utf8::encode_utf8;
use base64::Engine as _;
use sha2::Digest as _;
use crate::api::error::{is_status, status_line, status_text, str_option};
use crate::api::types::text_option;
use crate::image_input::MAX_ENCODED_INPUT;
use crate::json::{
    fields_map, parsed_json, push_field, Json, JsonView,
};
use crate::paths;
use crate::paths::joined_path;
use crate::text;
use crate::text::{byte_len, decimal, digit, is_blank, pair_views, trimmed, words_of};

verus! {

/// Where the user authorizes the program.
pub const OPENROUTER_AUTH_URL: &'static str = "https://openrouter.ai/auth";

/// Where an authorization code is exchanged for a key.
pub const OPENROUTER_EXCHANGE_URL: &'static str = "https://openrouter.ai/api/v1/auth/keys";

/// How many seconds the program waits for an authorization.
pub const CALLBACK_TIMEOUT_SECS: u64 = 600;

/// The SHA-256 digest of bytes.
pub uninterp spec fn sha256_digest(bytes: Seq<u8>) -> Seq<u8>;

/// `sha2::Sha256::digest` gives the digest of bytes, which is 32 bytes long.
#[verifier::external_body]
pub(crate) fn sha256(bytes: &[u8]) -> (r: Vec<u8>)
    ensures
        r@ == sha256_digest(bytes@),
        r@.len() == 32,
{
    sha2::Sha256::digest(bytes).to_vec()
}

/// The text that encodes bytes in base64, with the alphabet that is safe in URLs and
/// without padding.
pub uninterp spec fn base64url_text(bytes: Seq<u8>) -> Seq<char>;

/// `base64::engine::general_purpose::URL_SAFE_NO_PAD` encodes each three bytes in four
/// characters, and what is left of them at the end in one more character than it has bytes.
/// More bytes than the limit could take up more than can be allocated, which would panic.
#[verifier::external_body]
pub(crate) fn encode_base64url(bytes: &[u8]) -> (r: String)
    requires
        bytes@.len() <= MAX_ENCODED_INPUT,
    ensures
        r@ == base64url_text(bytes@),
        r@.len() == (bytes@.len() * 4 + 2) / 3,
{
    base64::engine::general_purpose::URL_SAFE_NO_PAD.encode(bytes)
}

/// A URL with pairs appended to its query, or why it is no URL.
pub uninterp spec fn url_with_query(base: Seq<char>, pairs: Seq<(Seq<char>, Seq<char>)>) -> Result<
    Seq<char>,
    Seq<char>,
>;

/// `url::Url::parse` reads a URL, and `url::Url::query_pairs_mut` appends encoded pairs to
/// its query. A URL whose query or whose fragment would begin beyond four gibibytes would
/// panic.
#[verifier::external_body]
pub(crate) fn append_query(base: &str, pairs: &[(String, String)]) -> (r: Result<String, String>)
    requires
        base@.len() <= 4096,
        !base@.contains('#'),
    ensures
        url_with_query(base@, pair_views(pairs@)) == (match r {
            Ok(url) => Ok::<Seq<char>, Seq<char>>(url@),
            Err(e) => Err(e@),
        }),
{
    let mut url = url::Url::parse(base).map_err(|e| e.to_string())?;
    url.query_pairs_mut().extend_pairs(pairs);
    Ok(url.to_string())
}

/// The path and the decoded query of a URL, or why it is no URL.
pub uninterp spec fn url_parts(text: Seq<char>) -> Result<
    (Seq<char>, Seq<(Seq<char>, Seq<char>)>),
    Seq<char>,
>;

/// `url::Url::parse` reads a URL; `url::Url::path` and `url::Url::query_pairs` give its
/// path and its decoded query.
#[verifier::external_body]
pub(crate) fn split_url(text: &str) -> (r: Result<(String, Vec<(String, String)>), String>)
    ensures
        url_parts(text@) == (match r {
            Ok(parts) => Ok::<(Seq<char>, Seq<(Seq<char>, Seq<char>)>), Seq<char>>(
                (parts.0@, pair_views(parts.1@)),
            ),
            Err(e) => Err(e@),
        }),
{
    let url = url::Url::parse(text).map_err(|e| e.to_string())?;
    let query = url.query_pairs().into_owned().collect();
    Ok((url.path().to_owned(), query))
}

/// Whether a character may stand in the name of a credential.
pub open spec fn is_name_char(c: char) -> bool {
    'a' <= c <= 'z' || 'A' <= c <= 'Z' || '0' <= c <= '9' || c == '.' || c == '_' || c == '-'
}

/// Whether a name may be that of a credential. It names a file, so it is made of letters,
/// digits, dots, underscores and hyphens only.
pub open spec fn is_credential_name(name: Seq<char>) -> bool {
    name.len() > 0 && forall|i: int| 0 <= i < name.len() ==> is_name_char(#[trigger] name[i])
}

fn valid_name(name: &str) -> (r: bool)
    ensures
        r == is_credential_name(name@),
{
    let a = text::chars_of(name);
    let mut i: usize = 0;
    while i < a.len()
        invariant
            i <= a@.len(),
            a@ == name@,
            forall|k: int| 0 <= k < i ==> is_name_char(#[trigger] name@[k]),
        decreases a.len() - i,
    {
        let c = a[i];
        let fits = ('a' <= c && c <= 'z') || ('A' <= c && c <= 'Z') || ('0' <= c && c <= '9') || c
            == '.' || c == '_' || c == '-';
        if !fits {
            assert(!is_name_char(name@[i as int]));
            return false;
        }
        i = i + 1;
    }
    a.len() > 0
}

/// The directory of credentials: the one that is set, or one in the user's configuration.
pub open spec fn credential_root(set: Option<Seq<char>>, config: Option<Seq<char>>) -> Option<
    Seq<char>,
> {
    match set {
        Some(directory) => Some(directory),
        None => match config {
            Some(directory) => Some(joined_path(joined_path(directory, "claux"@), "credentials"@)),
            None => None,
        },
    }
}

/// The file of a credential, or why there is none.
pub open spec fn credential_path(
    provider: Seq<char>,
    set: Option<Seq<char>>,
    config: Option<Seq<char>>,
) -> Result<Seq<char>, Seq<char>> {
    if !is_credential_name(provider) {
        Err("invalid provider credential name: "@ + provider)
    } else {
        match credential_root(set, config) {
            Some(root) => Ok(joined_path(root, provider)),
            None => Err("could not determine the user configuration directory"@),
        }
    }
}

/// The file of a credential, given the directory that is set and that of the user's
/// configuration.
pub fn provider_credential_path(
    provider: &str,
    set: Option<&str>,
    config: Option<&str>,
) -> (r: Result<String, String>)
    ensures
        credential_path(provider@, str_option(set), str_option(config)) == (match r {
            Ok(path) => Ok::<Seq<char>, Seq<char>>(path@),
            Err(e) => Err(e@),
        }),
{
    if !valid_name(provider) {
        let mut e = "invalid provider credential name: ".to_owned();
        e.append(provider);
        return Err(e);
    }
    let root = match set {
        Some(directory) => directory.to_owned(),
        None => match config {
            Some(directory) => {
                let program = paths::join(directory, "claux");
                paths::join(program.as_str(), "credentials")
            },
            None => return Err(
                "could not determine the user configuration directory".to_owned(),
            ),
        },
    };
    Ok(paths::join(root.as_str(), provider))
}

/// The name of a credential is one component of a path: it holds no slash.
pub proof fn law_credential_name_is_one_component(provider: Seq<char>)
    requires
        is_credential_name(provider),
    ensures
        forall|i: int| 0 <= i < provider.len() ==> #[trigger] provider[i] != '/',
        !paths::is_absolute(provider),
{
    assert forall|i: int| 0 <= i < provider.len() implies #[trigger] provider[i] != '/' by {
        assert(is_name_char(provider[i]));
    }
}

/// The octal numeral of a number.
pub open spec fn octal(n: nat) -> Seq<char>
    decreases n,
{
    if n < 8 {
        seq![digit(n as int)]
    } else {
        octal(n / 8).push(digit((n % 8) as int))
    }
}

fn push_octal(out: &mut String, n: u32)
    ensures
        final(out)@ == old(out)@ + octal(n as nat),
    decreases n,
{
    if n >= 8 {
        push_octal(out, n / 8);
    }
    let ghost before = out@;
    text::push_decimal(out, (n % 8) as u64);
    proof {
        assert(decimal((n % 8) as nat) == seq![digit((n % 8) as int)]);
        assert(out@ =~= old(out)@ + octal(n as nat));
    }
}

/// What the file of a credential is.
pub enum CredentialFile {
    /// It is not there.
    Missing,
    /// It cannot be opened.
    Unopened,
    /// What it holds, and its mode.
    Opened { contents: String, mode: u32 },
}

/// The credential in a file, or why it is not used. A file that others can access is
/// refused.
pub open spec fn stored_key(path: Seq<char>, file: CredentialFile) -> Result<
    Option<Seq<char>>,
    Seq<char>,
> {
    match file {
        CredentialFile::Missing => Ok(None),
        CredentialFile::Unopened => Err("open "@ + path),
        CredentialFile::Opened { contents, mode } => if mode % 64 != 0 {
            Err(
                "credential file "@ + path + " is accessible by other users (mode "@ + octal(
                    (mode % 512) as nat,
                ) + "); run `chmod 600 "@ + path + "`"@,
            )
        } else if is_blank(contents@) {
            Ok(None)
        } else {
            Ok(Some(trimmed(contents@)))
        },
    }
}

/// The credential in a file, or why it is not used.
pub fn read_provider_key(path: &str, file: &CredentialFile) -> (r: Result<Option<String>, String>)
    ensures
        stored_key(path@, *file) == (match r {
            Ok(key) => Ok::<Option<Seq<char>>, Seq<char>>(text_option(key)),
            Err(e) => Err(e@),
        }),
{
    match file {
        CredentialFile::Missing => Ok(None),
        CredentialFile::Unopened => {
            let mut e = "open ".to_owned();
            e.append(path);
            Err(e)
        },
        CredentialFile::Opened { contents, mode } => {
            if *mode % 64 != 0 {
                let mut e = "credential file ".to_owned();
                e.append(path);
                e.append(" is accessible by other users (mode ");
                push_octal(&mut e, *mode % 512);
                e.append("); run `chmod 600 ");
                e.append(path);
                e.append("`");
                return Err(e);
            }
            if text::blank(contents.as_str()) {
                Ok(None)
            } else {
                Ok(Some(text::trim(contents.as_str()).to_owned()))
            }
        },
    }
}

/// The OpenRouter credential in its file, or why it is not used.
pub fn read_openrouter_key(path: &str, file: &CredentialFile) -> (r: Result<Option<String>, String>)
    ensures
        stored_key(path@, *file) == (match r {
            Ok(key) => Ok::<Option<Seq<char>>, Seq<char>>(text_option(key)),
            Err(e) => Err(e@),
        }),
{
    read_provider_key(path, file)
}

/// What is written to the file of a credential: the credential and a line feed.
pub open spec fn credential_contents(key: Seq<char>) -> Seq<char> {
    key + "\n"@
}

/// What is written to the file of a credential.
pub fn credential_text(key: &str) -> (r: String)
    ensures
        r@ == credential_contents(key@),
{
    let mut out = key.to_owned();
    out.append("\n");
    out
}

/// A credential that was written to a private file is read back, without the whitespace
/// around it; one that is blank is read back as none.
pub proof fn law_credential_round_trip(path: Seq<char>, key: Seq<char>, contents: String, mode: u32)
    requires
        contents@ == credential_contents(key),
        mode % 64 == 0,
    ensures
        stored_key(path, CredentialFile::Opened { contents, mode }) == Ok::<
            Option<Seq<char>>,
            Seq<char>,
        >(
            if is_blank(key) {
                None
            } else {
                Some(trimmed(key))
            },
        ),
{
    lemma_trimmed_line(key);
}

proof fn lemma_trimmed_line(s: Seq<char>)
    ensures
        trimmed(s + "\n"@) == trimmed(s),
    decreases s.len(),
{
    reveal_strlit("\n");
    let line = s + "\n"@;
    if s.len() == 0 {
        assert(line.drop_first() =~= Seq::empty());
        assert(text::trimmed_start(line) == text::trimmed_start(Seq::<char>::empty()));
    } else if text::is_space(s[0]) {
        assert(line[0] == s[0]);
        assert(line.drop_first() =~= s.drop_first() + "\n"@);
        lemma_trimmed_line(s.drop_first());
    } else {
        assert(line[0] == s[0]);
        assert(line.last() == '\n');
        assert(line.drop_last() =~= s);
        assert(text::trimmed_end(line) == text::trimmed_end(s));
    }
}

/// Why there is no key to print.
pub fn missing_key(label: &str, provider: &str) -> (r: String)
    ensures
        r@ == label@ + " authentication is not configured; run `claux auth login "@ + provider@
            + "`"@,
{
    let mut out = label.to_owned();
    out.append(" authentication is not configured; run `claux auth login ");
    out.append(provider);
    out.append("`");
    out
}

/// Whether a credential is available, in words.
pub fn status_message(label: &str, path: &str, available: bool) -> (r: String)
    ensures
        r@ == if available {
            label@ + " authentication is available at "@ + path@ + "."@
        } else {
            label@ + " authentication is not configured."@
        },
{
    let mut out = label.to_owned();
    if available {
        out.append(" authentication is available at ");
        out.append(path);
        out.append(".");
    } else {
        out.append(" authentication is not configured.");
    }
    out
}

/// That a credential was saved, in words.
pub fn saved_message(label: &str, path: &str) -> (r: String)
    ensures
        r@ == label@ + " authentication saved to "@ + path@ + "."@,
{
    let mut out = label.to_owned();
    out.append(" authentication saved to ");
    out.append(path);
    out.append(".");
    out
}

/// What came of removing the file of a credential.
pub enum Removal {
    Removed,
    Missing,
    Failed,
}

/// What came of forgetting a credential: a message, or an error.
pub fn logout_provider(label: &str, path: &str, removal: &Removal) -> (r: Result<String, String>)
    ensures
        match *removal {
            Removal::Removed => r matches Ok(m) && m@ == "Removed "@ + label@
                + " authentication from "@ + path@ + "."@,
            Removal::Missing => r matches Ok(m) && m@ == label@
                + " authentication was not configured."@,
            Removal::Failed => r matches Err(e) && e@ == "remove "@ + path@,
        },
{
    match removal {
        Removal::Removed => {
            let mut out = "Removed ".to_owned();
            out.append(label);
            out.append(" authentication from ");
            out.append(path);
            out.append(".");
            Ok(out)
        },
        Removal::Missing => {
            let mut out = label.to_owned();
            out.append(" authentication was not configured.");
            Ok(out)
        },
        Removal::Failed => {
            let mut e = "remove ".to_owned();
            e.append(path);
            Err(e)
        },
    }
}

/// What came of forgetting the OpenRouter credential.
pub fn logout_openrouter(path: &str, removal: &Removal) -> (r: Result<String, String>)
    ensures
        match *removal {
            Removal::Removed => r matches Ok(m) && m@ == "Removed "@ + "OpenRouter"@
                + " authentication from "@ + path@ + "."@,
            Removal::Missing => r matches Ok(m) && m@ == "OpenRouter"@
                + " authentication was not configured."@,
            Removal::Failed => r matches Err(e) && e@ == "remove "@ + path@,
        },
{
    logout_provider("OpenRouter", path, removal)
}

/// A value that was entered, trimmed; an error where it is blank.
pub fn entered(value: &str, error: &str) -> (r: Result<String, String>)
    ensures
        r is Ok <==> !is_blank(value@),
        r matches Ok(v) ==> v@ == trimmed(value@),
        r matches Err(e) ==> e@ == error@,
{
    if text::blank(value) {
        Err(error.to_owned())
    } else {
        Ok(text::trim(value).to_owned())
    }
}

/// A key that was typed.
#[derive(Debug, Clone, Copy, PartialEq, Eq, Structural)]
pub enum KeyPress {
    Enter,
    Backspace,
    Character(char),
    Escape,
    Other,
}

/// What came of a key that was typed.
#[derive(Debug, Clone, Copy, PartialEq, Eq, Structural)]
pub enum EntryStatus {
    Going,
    Finished,
    Cancelled,
}

/// A secret that is being typed.
pub struct KeyEntry {
    chars: Vec<char>,
}

impl View for KeyEntry {
    type V = Seq<char>;

    closed spec fn view(&self) -> Seq<char> {
        self.chars@
    }
}

impl KeyEntry {
    /// Nothing typed.
    pub fn new() -> (r: KeyEntry)
        ensures
            r@ == Seq::<char>::empty(),
    {
        KeyEntry { chars: Vec::new() }
    }

    /// Takes a key that was typed.
    pub fn press(&mut self, key: KeyPress) -> (r: EntryStatus)
        ensures
            r == match key {
                KeyPress::Enter => EntryStatus::Finished,
                KeyPress::Escape => EntryStatus::Cancelled,
                _ => EntryStatus::Going,
            },
            final(self)@ == match key {
                KeyPress::Character(c) => old(self)@.push(c),
                KeyPress::Backspace => if old(self)@.len() > 0 {
                    old(self)@.drop_last()
                } else {
                    old(self)@
                },
                _ => old(self)@,
            },
    {
        match key {
            KeyPress::Enter => EntryStatus::Finished,
            KeyPress::Escape => EntryStatus::Cancelled,
            KeyPress::Character(c) => {
                self.chars.push(c);
                EntryStatus::Going
            },
            KeyPress::Backspace => {
                if self.chars.len() > 0 {
                    self.chars.pop();
                    assert(self.chars@ =~= old(self)@.drop_last());
                }
                EntryStatus::Going
            },
            KeyPress::Other => EntryStatus::Going,
        }
    }

    /// What was typed.
    pub fn text(&self) -> (r: String)
        ensures
            r@ == self@,
    {
        text::string_of(self.chars.as_slice())
    }
}

/// The challenge of a code verifier: its digest, in base64.
pub open spec fn challenge_of(verifier: Seq<char>) -> Seq<char> {
    base64url_text(sha256_digest(encode_utf8(verifier)))
}

/// The challenge of a code verifier.
pub fn code_challenge(verifier: &str) -> (r: String)
    ensures
        r@ == challenge_of(verifier@),
{
    let digest = sha256(verifier.as_bytes());
    encode_base64url(digest.as_slice())
}

fn push_pair(pairs: &mut Vec<(String, String)>, name: &str, value: &str)
    ensures
        pair_views(final(pairs)@) == pair_views(old(pairs)@).push((name@, value@)),
{
    pairs.push((name.to_owned(), value.to_owned()));
    assert(pair_views(pairs@) =~= pair_views(old(pairs)@).push((name@, value@)));
}

/// What came of making a URL.
pub open spec fn url_result(r: Result<String, String>) -> Result<Seq<char>, Seq<char>> {
    match r {
        Ok(url) => Ok(url@),
        Err(e) => Err(e@),
    }
}

/// Where the user authorizes the program and gets a code to paste.
pub fn headless_authorization_url(challenge: &str) -> (r: Result<String, String>)
    ensures
        url_result(r) == url_with_query(
            OPENROUTER_AUTH_URL@,
            seq![
                ("code_challenge"@, challenge@),
                ("code_challenge_method"@, "S256"@),
                ("key_label"@, "Claux"@),
            ],
        ),
{
    let mut pairs: Vec<(String, String)> = Vec::new();
    push_pair(&mut pairs, "code_challenge", challenge);
    push_pair(&mut pairs, "code_challenge_method", "S256");
    push_pair(&mut pairs, "key_label", "Claux");
    assert(pair_views(pairs@) =~= seq![
        ("code_challenge"@, challenge@),
        ("code_challenge_method"@, "S256"@),
        ("key_label"@, "Claux"@),
    ]);
    proof {
        reveal_strlit("https://openrouter.ai/auth");
    }
    append_query(OPENROUTER_AUTH_URL, pairs.as_slice())
}

/// Where the user authorizes the program, which is then called back.
pub fn callback_authorization_url(challenge: &str, callback: &str) -> (r: Result<String, String>)
    ensures
        url_result(r) == url_with_query(
            OPENROUTER_AUTH_URL@,
            seq![
                ("callback_url"@, callback@),
                ("code_challenge"@, challenge@),
                ("code_challenge_method"@, "S256"@),
            ],
        ),
{
    let mut pairs: Vec<(String, String)> = Vec::new();
    push_pair(&mut pairs, "callback_url", callback);
    push_pair(&mut pairs, "code_challenge", challenge);
    push_pair(&mut pairs, "code_challenge_method", "S256");
    assert(pair_views(pairs@) =~= seq![
        ("callback_url"@, callback@),
        ("code_challenge"@, challenge@),
        ("code_challenge_method"@, "S256"@),
    ]);
    proof {
        reveal_strlit("https://openrouter.ai/auth");
    }
    append_query(OPENROUTER_AUTH_URL, pairs.as_slice())
}

/// The first value of a name in a query.
pub open spec fn query_value(query: Seq<(Seq<char>, Seq<char>)>, name: Seq<char>) -> Option<
    Seq<char>,
>
    decreases query.len(),
{
    if query.len() == 0 {
        None
    } else if query[0].0 == name {
        Some(query[0].1)
    } else {
        query_value(query.drop_first(), name)
    }
}

fn find_value(query: &Vec<(String, String)>, name: &str) -> (r: Option<String>)
    ensures
        text_option(r) == query_value(pair_views(query@), name@),
{
    let ghost all = pair_views(query@);
    let mut i: usize = 0;
    assert(all.skip(0) =~= all);
    while i < query.len()
        invariant
            i <= query@.len(),
            all == pair_views(query@),
            query_value(all.skip(i as int), name@) == query_value(all, name@),
        decreases query.len() - i,
    {
        assert(all.skip(i as int)[0] == all[i as int]);
        assert(all.skip(i as int).drop_first() =~= all.skip(i + 1));
        if text::same(query[i].0.as_str(), name) {
            return Some(query[i].1.clone());
        }
        i = i + 1;
    }
    None
}

/// What the path and the query of a callback say: the code, or why there is none.
pub open spec fn callback_outcome(
    path: Seq<char>,
    query: Seq<(Seq<char>, Seq<char>)>,
    expected: Seq<char>,
) -> Result<Seq<char>, Seq<char>> {
    if path != expected {
        Err("unexpected OAuth callback path"@)
    } else {
        match query_value(query, "error"@) {
            Some(e) => Err("OpenRouter authorization failed: "@ + e),
            None => match query_value(query, "code"@) {
                Some(code) => if code.len() > 0 {
                    Ok(code)
                } else {
                    Err("OpenRouter callback did not contain an authorization code"@)
                },
                None => Err("OpenRouter callback did not contain an authorization code"@),
            },
        }
    }
}

/// What the path and the query of a callback say: the code, or why there is none.
pub fn read_callback(path: &str, query: &Vec<(String, String)>, expected: &str) -> (r: Result<
    String,
    String,
>)
    ensures
        url_result(r) == callback_outcome(path@, pair_views(query@), expected@),
{
    if !text::same(path, expected) {
        return Err("unexpected OAuth callback path".to_owned());
    }
    match find_value(query, "error") {
        Some(error) => {
            let mut e = "OpenRouter authorization failed: ".to_owned();
            e.append(error.as_str());
            return Err(e);
        },
        None => {},
    }
    match find_value(query, "code") {
        Some(code) => if code.as_str().unicode_len() > 0 {
            Ok(code)
        } else {
            Err("OpenRouter callback did not contain an authorization code".to_owned())
        },
        None => Err("OpenRouter callback did not contain an authorization code".to_owned()),
    }
}

/// What the request line of a callback says: the code, or why there is none.
pub open spec fn callback_code(request_line: Seq<char>, expected: Seq<char>) -> Result<
    Seq<char>,
    Seq<char>,
> {
    let words = words_of(request_line);
    if words.len() < 2 {
        Err("invalid OAuth callback request"@)
    } else {
        match url_parts("http://localhost"@ + words[1]) {
            Err(e) => Err(e),
            Ok(parts) => callback_outcome(parts.0, parts.1, expected),
        }
    }
}

/// What the request line of a callback says: the code, or why there is none.
pub fn parse_callback_request(request_line: &str, callback_path: &str) -> (r: Result<
    String,
    String,
>)
    ensures
        url_result(r) == callback_code(request_line@, callback_path@),
{
    let words = text::words(request_line);
    assert(crate::text::texts(words@).len() == words@.len());
    if words.len() < 2 {
        return Err("invalid OAuth callback request".to_owned());
    }
    assert(crate::text::texts(words@)[1] == words@[1]@);
    let mut url = "http://localhost".to_owned();
    url.append(words[1].as_str());
    match split_url(url.as_str()) {
        Ok(parts) => read_callback(parts.0.as_str(), &parts.1, callback_path),
        Err(e) => Err(e),
    }
}

/// The answer to a callback.
pub open spec fn callback_answer(success: bool) -> Seq<char> {
    let (status, message) = if success {
        ("200 OK"@, "OpenRouter is connected. You can close this window."@)
    } else {
        ("400 Bad Request"@, "Claux could not complete authentication."@)
    };
    let body = "<h1>"@ + message + "</h1>"@;
    "HTTP/1.1 "@ + status
        + "\r\nContent-Type: text/html; charset=utf-8\r\nContent-Length: "@ + decimal(byte_len(body))
        + "\r\nConnection: close\r\n\r\n"@ + body
}

/// The answer to a callback.
pub fn callback_reply(success: bool) -> (r: String)
    ensures
        r@ == callback_answer(success),
{
    let (status, message) = if success {
        ("200 OK", "OpenRouter is connected. You can close this window.")
    } else {
        ("400 Bad Request", "Claux could not complete authentication.")
    };
    let mut body = "<h1>".to_owned();
    body.append(message);
    body.append("</h1>");
    let mut out = "HTTP/1.1 ".to_owned();
    out.append(status);
    out.append("\r\nContent-Type: text/html; charset=utf-8\r\nContent-Length: ");
    text::push_decimal(&mut out, text::len_bytes(body.as_str()) as u64);
    out.append("\r\nConnection: close\r\n\r\n");
    out.append(body.as_str());
    out
}

/// The request that exchanges a code for a key.
pub fn exchange_request(code: &str, verifier: &str) -> (r: Json)
    ensures
        r@ == JsonView::Object(
            map![
                "code"@ => JsonView::Text(code@),
                "code_verifier"@ => JsonView::Text(verifier@),
                "code_challenge_method"@ => JsonView::Text("S256"@),
            ],
        ),
{
    let mut fields: Vec<(String, Json)> = Vec::new();
    proof {
        crate::json::lemma_no_fields(fields@);
    }
    push_field(&mut fields, "code", Json::text(code));
    push_field(&mut fields, "code_verifier", Json::text(verifier));
    push_field(&mut fields, "code_challenge_method", Json::text("S256"));
    assert(fields_map(fields@) =~= map![
        "code"@ => JsonView::Text(code@),
        "code_verifier"@ => JsonView::Text(verifier@),
        "code_challenge_method"@ => JsonView::Text("S256"@),
    ]);
    Json::Object(fields)
}

/// The key in the answer to an exchange, or why there is none.
pub open spec fn exchanged_key(status: u16, body: Seq<char>) -> Result<Seq<char>, Seq<char>> {
    if !(200 <= status < 300) {
        Err(
            "OpenRouter token exchange failed ("@ + status_line(status) + "): "@ + body,
        )
    } else {
        match parsed_json(body) {
            Err(_) => Err("decode OpenRouter token exchange response"@),
            Ok(answer) => match answer.at("key"@).text() {
                None => Err("decode OpenRouter token exchange response"@),
                Some(key) => if key.len() == 0 {
                    Err("OpenRouter token exchange returned an empty API key"@)
                } else {
                    Ok(key)
                },
            },
        }
    }
}

/// The key in the answer to an exchange, or why there is none.
pub fn read_exchange(status: u16, body: &str) -> (r: Result<String, String>)
    requires
        is_status(status as int),
    ensures
        url_result(r) == exchanged_key(status, body@),
{
    if !(200 <= status && status < 300) {
        let shown = status_text(status);
        let mut e = "OpenRouter token exchange failed (".to_owned();
        e.append(shown.as_str());
        e.append("): ");
        e.append(body);
        return Err(e);
    }
    match Json::parse(body) {
        Err(_) => Err("decode OpenRouter token exchange response".to_owned()),
        Ok(answer) => match answer.text_at("key") {
            None => Err("decode OpenRouter token exchange response".to_owned()),
            Some(key) => if key.unicode_len() == 0 {
                Err("OpenRouter token exchange returned an empty API key".to_owned())
            } else {
                Ok(key.to_owned())
            },
        },
    }
}

/// The token of a login that a file of logins holds, where it is one and holds one.
pub open spec fn stored_login(contents: Seq<char>) -> Option<Seq<char>> {
    match parsed_json(contents) {
        Ok(logins) => logins.at("claudeAiOauth"@).at("accessToken"@).text(),
        Err(_) => None,
    }
}

/// The token of a login that a file of logins holds, where it is one and holds one.
pub fn read_login_token(contents: &str) -> (r: Option<String>)
    ensures
        text_option(r) == stored_login(contents@),
{
    match Json::parse(contents) {
        Ok(logins) => match logins.get("claudeAiOauth") {
            Some(login) => match login.text_at("accessToken") {
                Some(token) => Some(token.to_owned()),
                None => None,
            },
            None => None,
        },
        Err(_) => None,
    }
}

} // verus!
