//! What a login comes to.

use vstd::prelude::*;
use crate::api::error::status_line;
use crate::auth::{
    callback_answer, callback_outcome, credential_path, exchanged_key, is_credential_name,
    query_value, stored_key, CredentialFile,
};
use crate::json::parsed_json;
use crate::paths::joined_path;
use crate::text::{byte_len, decimal, occurs};
use crate::text_laws::lemma_between;

verus! {

/// The value of a parameter is that of its first place in a query; parameters of other names
/// make no difference.
pub proof fn law_query_value(
    before: Seq<(Seq<char>, Seq<char>)>,
    name: Seq<char>,
    value: Seq<char>,
    rest: Seq<(Seq<char>, Seq<char>)>,
)
    requires
        forall|i: int| 0 <= i < before.len() ==> (#[trigger] before[i]).0 != name,
    ensures
        query_value(before, name) is None,
        query_value(before + seq![(name, value)] + rest, name) == Some(value),
    decreases before.len(),
{
    let all = before + seq![(name, value)] + rest;
    if before.len() == 0 {
        assert(all[0] == (name, value));
    } else {
        let others = before.drop_first();
        assert forall|i: int| 0 <= i < others.len() implies (#[trigger] others[i]).0 != name by {
            assert(others[i] == before[i + 1]);
        }
        law_query_value(others, name, value, rest);
        assert(all[0] == before[0]);
        assert(all.drop_first() =~= others + seq![(name, value)] + rest);
    }
}

/// A callback brings a code where it comes to the expected path, reports no error and has a code
/// that is not empty, and only there; the code is handed on as it is. A reported error is told.
pub proof fn law_callback(
    path: Seq<char>,
    query: Seq<(Seq<char>, Seq<char>)>,
    expected: Seq<char>,
)
    ensures
        ({
            let outcome = callback_outcome(path, query, expected);
            let code = query_value(query, "code"@);
            let error = query_value(query, "error"@);
            &&& outcome is Ok <==> path == expected && error is None && code is Some
                && code->Some_0.len() > 0
            &&& outcome matches Ok(c) ==> code == Some(c)
            &&& path == expected && error is Some ==> error->Some_0.is_suffix_of(outcome->Err_0)
        }),
{
    if let Some(e) = query_value(query, "error"@) {
        let told = "OpenRouter authorization failed: "@ + e;
        assert(told.subrange(told.len() - e.len(), told.len() as int) =~= e);
    }
}

/// A key comes of the exchange where the answer is a success that holds one, and it is that key;
/// what a server says to a failure is told.
pub proof fn law_exchange(status: u16, body: Seq<char>)
    ensures
        ({
            let outcome = exchanged_key(status, body);
            let success = 200 <= status <= 299;
            &&& outcome is Ok ==> success && parsed_json(body) is Ok
            &&& outcome matches Ok(key) ==> key.len() > 0 && parsed_json(body)->Ok_0.at(
                "key"@,
            ).text() == Some(key)
            &&& !success ==> outcome is Err && body.is_suffix_of(outcome->Err_0) && occurs(
                status_line(status),
                outcome->Err_0,
            )
            &&& success && parsed_json(body) is Ok && parsed_json(body)->Ok_0.at(
                "key"@,
            ).text() is Some && parsed_json(body)->Ok_0.at("key"@).text()->Some_0.len() > 0
                ==> outcome is Ok
        }),
{
    let told = "OpenRouter token exchange failed ("@ + status_line(status) + "): "@ + body;
    assert(told.subrange(told.len() - body.len(), told.len() as int) =~= body);
    lemma_between("OpenRouter token exchange failed ("@, status_line(status), "): "@ + body);
    assert(told =~= "OpenRouter token exchange failed ("@ + status_line(status) + ("): "@ + body));
}

/// The file of a credential lies in the directory that is set, and else in that of the
/// configuration; the names of two providers give two files.
pub proof fn law_credential_files(provider: Seq<char>, set: Seq<char>, config: Option<Seq<char>>)
    ensures
        is_credential_name(provider) ==> credential_path(provider, Some(set), config) == Ok::<
            Seq<char>,
            Seq<char>,
        >(joined_path(set, provider)),
        !is_credential_name(provider) ==> credential_path(provider, Some(set), config) is Err
            && provider.is_suffix_of(credential_path(provider, Some(set), config)->Err_0),
        credential_path(provider, None, None) is Err,
{
    let told = "invalid provider credential name: "@ + provider;
    assert(told.subrange(told.len() - provider.len(), told.len() as int) =~= provider);
}

/// A key is read only from a file that nobody else can open: any permission of the group or of
/// others is refused, whatever the file holds, and the message names the file.
pub proof fn law_private_credentials(path: Seq<char>, contents: String, mode: u32)
    ensures
        ({
            let outcome = stored_key(path, CredentialFile::Opened { contents, mode });
            &&& mode % 64 != 0 <==> outcome is Err
            &&& outcome matches Err(e) ==> occurs(path, e)
        }),
        stored_key(path, CredentialFile::Missing) == Ok::<Option<Seq<char>>, Seq<char>>(None),
        stored_key(path, CredentialFile::Unopened) is Err,
{
    let a = "credential file "@;
    let told = stored_key(path, CredentialFile::Opened { contents, mode })->Err_0;
    if mode % 64 != 0 {
        let behind = told.skip((a.len() + path.len()) as int);
        lemma_between(a, path, behind);
        assert(told =~= a + path + behind);
    }
}

proof fn lemma_answer(front: Seq<char>, length: Seq<char>, close: Seq<char>, body: Seq<char>)
    ensures
        body.is_suffix_of(front + length + close + body),
        occurs(length, front + length + close + body),
{
    let told = front + length + close + body;
    assert(told.subrange(told.len() - body.len(), told.len() as int) =~= body);
    lemma_between(front, length, close + body);
    assert(told =~= front + length + (close + body));
}

/// The page that the browser is shown.
pub open spec fn answer_page(success: bool) -> Seq<char> {
    let message = if success {
        "OpenRouter is connected. You can close this window."@
    } else {
        "Claux could not complete authentication."@
    };
    "<h1>"@ + message + "</h1>"@
}

/// The answer to the browser ends in its page, and announces exactly the length of that.
pub proof fn law_callback_answered(success: bool)
    ensures
        answer_page(success).is_suffix_of(callback_answer(success)),
        occurs(decimal(byte_len(answer_page(success))), callback_answer(success)),
{
    let status = if success {
        "200 OK"@
    } else {
        "400 Bad Request"@
    };
    lemma_answer(
        "HTTP/1.1 "@ + status
            + "\r\nContent-Type: text/html; charset=utf-8\r\nContent-Length: "@,
        decimal(byte_len(answer_page(success))),
        "\r\nConnection: close\r\n\r\n"@,
        answer_page(success),
    );
}

} // verus!
