//! The form in which sessions are stored.

use vstd::prelude::*;
use crate::api::types::{message_views, text_option, ContentView, Message, MessageContent, MessageView};
use crate::api::wire::{content_json, content_of_json, law_content_round_trip};
use crate::config::ModelBinding;
use crate::json::{is_readable, parsed_json, rendered_json, Json};

verus! {

/// What is stored of a session besides its messages.
#[derive(Debug)]
pub struct SessionInfo {
    pub id: String,
    pub model: String,
    pub name: Option<String>,
    pub project: String,
    pub message_count: i64,
    pub model_binding: Option<ModelBinding>,
}

/// The project of a session, where the store has none.
pub open spec fn project_or_default(project: Option<Seq<char>>) -> Seq<char> {
    match project {
        Some(p) => p,
        None => "uncategorized"@,
    }
}

impl SessionInfo {
    /// What is stored of a session, given its columns.
    pub fn from_columns(
        id: String,
        model: String,
        name: Option<String>,
        project: Option<String>,
        message_count: i64,
        model_binding: Option<ModelBinding>,
    ) -> (r: SessionInfo)
        ensures
            r.id == id,
            r.model == model,
            r.name == name,
            r.project@ == project_or_default(text_option(project)),
            r.message_count == message_count,
            r.model_binding == model_binding,
    {
        let project = match project {
            Some(p) => p,
            None => "uncategorized".to_owned(),
        };
        SessionInfo { id, model, name, project, message_count, model_binding }
    }
}

/// A message as it is stored.
#[derive(Debug)]
pub struct StoredMessage {
    pub role: String,
    pub content: String,
}

/// The content that a stored text stands for.
pub open spec fn stored_content(text: Seq<char>) -> Option<ContentView> {
    match parsed_json(text) {
        Ok(j) => content_of_json(j),
        Err(_) => None,
    }
}

/// The message that a stored one stands for.
pub open spec fn stored_message(row: StoredMessage) -> Option<MessageView> {
    match stored_content(row.content@) {
        Some(content) => Some(MessageView { role: row.role@, content }),
        None => None,
    }
}

/// The messages that stored ones stand for; nothing where one of them is not readable.
pub open spec fn stored_messages(rows: Seq<StoredMessage>) -> Option<Seq<MessageView>>
    decreases rows.len(),
{
    if rows.len() == 0 {
        Some(Seq::empty())
    } else {
        match (stored_messages(rows.drop_last()), stored_message(rows.last())) {
            (Some(before), Some(m)) => Some(before.push(m)),
            _ => None,
        }
    }
}

/// Whether a message is stored without loss.
pub open spec fn is_storable(message: MessageView) -> bool {
    is_readable(content_json(message.content), 127)
}

/// A message as it is stored: its role, and its content in JSON. It is read back as the
/// same message.
pub fn store_message(message: &Message) -> (r: StoredMessage)
    ensures
        r.role@ == message@.role,
        r.content@ == rendered_json(content_json(message@.content)),
        is_storable(message@) ==> stored_message(r) == Some(message@),
{
    let json = message.content.to_json();
    let content = json.render();
    proof {
        law_content_round_trip(message@.content);
    }
    StoredMessage { role: message.role.clone(), content }
}

/// Messages as they are stored, in order. They are read back as the same messages.
pub fn store_messages(messages: &[Message]) -> (r: Vec<StoredMessage>)
    ensures
        r@.len() == messages@.len(),
        forall|i: int|
            0 <= i < r@.len() ==> (#[trigger] r@[i]).role@ == messages@[i]@.role
                && r@[i].content@ == rendered_json(content_json(messages@[i]@.content)),
        (forall|i: int| 0 <= i < messages@.len() ==> is_storable(#[trigger] messages@[i]@))
            ==> stored_messages(r@) == Some(message_views(messages@)),
{
    let ghost all = message_views(messages@);
    let mut out: Vec<StoredMessage> = Vec::new();
    assert(all.take(0) =~= Seq::empty());
    let mut i: usize = 0;
    while i < messages.len()
        invariant
            i <= messages@.len(),
            all == message_views(messages@),
            out@.len() == i,
            forall|k: int|
                0 <= k < i ==> (#[trigger] out@[k]).role@ == messages@[k]@.role
                    && out@[k].content@ == rendered_json(content_json(messages@[k]@.content)),
            (forall|k: int| 0 <= k < messages@.len() ==> is_storable(#[trigger] messages@[k]@))
                ==> stored_messages(out@) == Some(all.take(i as int)),
        decreases messages.len() - i,
    {
        let ghost before = out@;
        let row = store_message(&messages[i]);
        out.push(row);
        proof {
            assert(out@.drop_last() =~= before);
            assert(all.take(i + 1) =~= all.take(i as int).push(messages@[i as int]@));
        }
        i = i + 1;
    }
    assert(all.take(messages@.len() as int) =~= all);
    out
}

/// The message that a stored one stands for.
pub fn load_message(row: &StoredMessage) -> (r: Option<Message>)
    ensures
        stored_message(*row) == (match r {
            Some(m) => Some(m@),
            None => None,
        }),
{
    match Json::parse(row.content.as_str()) {
        Ok(json) => match MessageContent::from_json(&json) {
            Some(content) => Some(Message { role: row.role.clone(), content }),
            None => None,
        },
        Err(_) => None,
    }
}

/// The messages that stored ones stand for; nothing where one of them is not readable.
pub fn load_messages(rows: &[StoredMessage]) -> (r: Option<Vec<Message>>)
    ensures
        stored_messages(rows@) == (match r {
            Some(messages) => Some(message_views(messages@)),
            None => None,
        }),
{
    let mut out: Vec<Message> = Vec::new();
    assert(rows@.take(0) =~= Seq::empty());
    assert(message_views(out@) =~= Seq::empty());
    let mut i: usize = 0;
    while i < rows.len()
        invariant
            i <= rows@.len(),
            stored_messages(rows@.take(i as int)) == Some(message_views(out@)),
        decreases rows.len() - i,
    {
        assert(rows@.take(i + 1).drop_last() =~= rows@.take(i as int));
        match load_message(&rows[i]) {
            Some(message) => {
                let ghost before = message_views(out@);
                let ghost view = message@;
                out.push(message);
                assert(message_views(out@) =~= before.push(view));
            },
            None => {
                proof {
                    lemma_unreadable(rows@, i + 1);
                }
                return None;
            },
        }
        i = i + 1;
    }
    assert(rows@.take(rows@.len() as int) =~= rows@);
    Some(out)
}

proof fn lemma_unreadable(rows: Seq<StoredMessage>, n: int)
    requires
        0 <= n <= rows.len(),
        stored_messages(rows.take(n)) is None,
    ensures
        stored_messages(rows) is None,
    decreases rows.len() - n,
{
    if n < rows.len() {
        assert(rows.take(n + 1).drop_last() =~= rows.take(n));
        lemma_unreadable(rows, n + 1);
    } else {
        assert(rows.take(n) =~= rows);
    }
}

} // verus!
