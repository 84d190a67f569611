//! What is kept of a chat completions stream in order to explain a failure of it.

use vstd::prelude::*;
use vstd::string::StringExecFns;
use vstd::utf8::{decode_utf8, valid_utf8};
use crate::api::types::text_option;
use crate::json::{
    fields_map, json_views, push_field, rendered_json, unsigned_number, Json, JsonView,
};
use crate::text;
use crate::text::{cut, pair_views, texts};

verus! {

/// How many frames are kept.
pub const MAX_DIAGNOSTIC_FRAMES: usize = 4;

/// How many bytes of a frame are kept.
pub const MAX_DIAGNOSTIC_FRAME_BYTES: usize = 2048;

/// The text of bytes, with the replacement character where they are no UTF-8.
pub uninterp spec fn lossy_text(bytes: Seq<u8>) -> Seq<char>;

/// `String::from_utf8_lossy` decodes bytes and replaces what is no UTF-8; well-formed UTF-8
/// is decoded as it is.
#[verifier::external_body]
pub(crate) fn decode_lossy(bytes: &[u8]) -> (r: String)
    ensures
        r@ == lossy_text(bytes@),
        valid_utf8(bytes@) ==> r@ == decode_utf8(bytes@),
{
    String::from_utf8_lossy(bytes).into_owned()
}

/// A response header: its name and, where that is text, its value.
pub struct Header {
    pub name: String,
    pub value: Option<String>,
}

/// A response header as a mathematical object.
pub struct HeaderView {
    pub name: Seq<char>,
    pub value: Option<Seq<char>>,
}

impl View for Header {
    type V = HeaderView;

    open spec fn view(&self) -> HeaderView {
        HeaderView { name: self.name@, value: text_option(self.value) }
    }
}

/// The views of a list of headers.
pub open spec fn header_views(headers: Seq<Header>) -> Seq<HeaderView> {
    Seq::new(headers.len(), |i: int| headers[i]@)
}

/// The value of the first header of that name, where it is text.
pub open spec fn header_value(headers: Seq<HeaderView>, name: Seq<char>) -> Option<Seq<char>>
    decreases headers.len(),
{
    if headers.len() == 0 {
        None
    } else if headers[0].name == name {
        headers[0].value
    } else {
        header_value(headers.drop_first(), name)
    }
}

/// The names of the headers that may be shown.
pub open spec fn safe_headers() -> Seq<Seq<char>> {
    seq!["content-type"@, "server"@, "x-request-id"@, "request-id"@, "cf-ray"@]
}

/// The headers of the given names that are there and are text.
pub open spec fn picked_headers(headers: Seq<HeaderView>, names: Seq<Seq<char>>) -> Seq<
    (Seq<char>, Seq<char>),
>
    decreases names.len(),
{
    if names.len() == 0 {
        Seq::empty()
    } else {
        let before = picked_headers(headers, names.drop_last());
        match header_value(headers, names.last()) {
            Some(value) => before.push((names.last(), value)),
            None => before,
        }
    }
}

/// What is kept of a stream.
pub struct OpenAIStreamDiagnostics {
    status: u16,
    headers: Vec<(String, String)>,
    final_frames: Vec<String>,
    partial_tail: Option<String>,
}

/// What is kept of a stream, as a mathematical object.
pub struct DiagnosticsView {
    pub status: u16,
    pub headers: Seq<(Seq<char>, Seq<char>)>,
    pub final_frames: Seq<Seq<char>>,
    pub partial_tail: Option<Seq<char>>,
}

impl View for OpenAIStreamDiagnostics {
    type V = DiagnosticsView;

    closed spec fn view(&self) -> DiagnosticsView {
        DiagnosticsView {
            status: self.status,
            headers: pair_views(self.headers@),
            final_frames: texts(self.final_frames@),
            partial_tail: text_option(self.partial_tail),
        }
    }
}

/// The object that pairs of strings make up: of two with one name the later one counts.
pub open spec fn string_object(pairs: Seq<(Seq<char>, Seq<char>)>) -> Map<Seq<char>, JsonView>
    decreases pairs.len(),
{
    if pairs.len() == 0 {
        Map::empty()
    } else {
        string_object(pairs.drop_last()).insert(pairs.last().0, JsonView::Text(pairs.last().1))
    }
}

/// String values, one by one.
pub open spec fn string_values(items: Seq<Seq<char>>) -> Seq<JsonView> {
    Seq::new(items.len(), |i: int| JsonView::Text(items[i]))
}

impl DiagnosticsView {
    /// What is kept after one more frame: the last few frames, each cut short.
    pub open spec fn with_frame(self, data: Seq<char>) -> DiagnosticsView {
        let frames = if self.final_frames.len() == MAX_DIAGNOSTIC_FRAMES {
            self.final_frames.drop_first()
        } else {
            self.final_frames
        };
        DiagnosticsView {
            final_frames: frames.push(cut(data, MAX_DIAGNOSTIC_FRAME_BYTES as int)),
            ..self
        }
    }

    /// What is kept when the stream ends with these bytes after its last line.
    pub open spec fn with_tail(self, bytes: Seq<u8>) -> DiagnosticsView {
        if bytes.len() == 0 {
            self
        } else {
            DiagnosticsView {
                partial_tail: Some(cut(lossy_text(bytes), MAX_DIAGNOSTIC_FRAME_BYTES as int)),
                ..self
            }
        }
    }

    /// The text in which it is shown.
    pub open spec fn rendered(self) -> Seq<char> {
        rendered_json(
            JsonView::Object(
                map![
                    "status"@ => JsonView::Number(unsigned_number(self.status as u64)),
                    "headers"@ => JsonView::Object(string_object(self.headers)),
                    "final_sse_frames"@ => JsonView::Array(string_values(self.final_frames)),
                    "partial_tail"@ => match self.partial_tail {
                        Some(t) => JsonView::Text(t),
                        None => JsonView::Null,
                    },
                ],
            ),
        )
    }
}

impl OpenAIStreamDiagnostics {
    /// Nothing has been received but the head of the response.
    pub fn from_response(status: u16, headers: &Vec<Header>) -> (r: OpenAIStreamDiagnostics)
        ensures
            r@ == (DiagnosticsView {
                status,
                headers: picked_headers(header_views(headers@), safe_headers()),
                final_frames: Seq::empty(),
                partial_tail: None,
            }),
    {
        let names: [&str; 5] = ["content-type", "server", "x-request-id", "request-id", "cf-ray"];
        let ghost wanted = safe_headers();
        let mut kept: Vec<(String, String)> = Vec::new();
        assert(pair_views(kept@) =~= picked_headers(header_views(headers@), wanted.take(0)));
        let mut i: usize = 0;
        while i < 5
            invariant
                i <= 5,
                wanted == safe_headers(),
                names@[0]@ == wanted[0],
                names@[1]@ == wanted[1],
                names@[2]@ == wanted[2],
                names@[3]@ == wanted[3],
                names@[4]@ == wanted[4],
                pair_views(kept@) == picked_headers(header_views(headers@), wanted.take(i as int)),
            decreases 5 - i,
        {
            let ghost part = wanted.take(i + 1);
            assert(part.drop_last() =~= wanted.take(i as int));
            assert(part.last() == wanted[i as int]);
            assert(names@[i as int]@ == wanted[i as int]);
            let ghost before = pair_views(kept@);
            match find_header(headers, names[i]) {
                Some(value) => {
                    kept.push((names[i].to_owned(), value));
                    assert(pair_views(kept@) =~= before.push((wanted[i as int], value@)));
                },
                None => {},
            }
            i = i + 1;
        }
        assert(wanted.take(5) =~= wanted);
        let none: Vec<String> = Vec::new();
        assert(texts(none@) =~= Seq::empty());
        OpenAIStreamDiagnostics { status, headers: kept, final_frames: none, partial_tail: None }
    }

    /// Keeps a frame, cut short, and of the frames only the last few.
    pub fn record_frame(&mut self, data: &str)
        ensures
            final(self)@ == old(self)@.with_frame(data@),
    {
        let frame = text::truncate_str(data, MAX_DIAGNOSTIC_FRAME_BYTES).to_owned();
        if self.final_frames.len() == MAX_DIAGNOSTIC_FRAMES {
            let dropped = self.final_frames.remove(0);
        }
        self.final_frames.push(frame);
        assert(texts(self.final_frames@) =~= old(self)@.with_frame(data@).final_frames);
    }

    /// Keeps what came after the last complete line.
    pub fn record_partial_tail(&mut self, bytes: &[u8])
        ensures
            final(self)@ == old(self)@.with_tail(bytes@),
    {
        if bytes.len() == 0 {
            return ;
        }
        let tail = decode_lossy(bytes);
        self.partial_tail = Some(
            text::truncate_str(tail.as_str(), MAX_DIAGNOSTIC_FRAME_BYTES).to_owned(),
        );
    }

    /// The text in which it is shown.
    pub fn render(&self) -> (r: String)
        ensures
            r@ == self@.rendered(),
    {
        let mut headers: Vec<(String, Json)> = Vec::new();
        let mut i: usize = 0;
        while i < self.headers.len()
            invariant
                i <= self.headers@.len(),
                fields_map(headers@) == string_object(pair_views(self.headers@).take(i as int)),
            decreases self.headers.len() - i,
        {
            let ghost part = pair_views(self.headers@).take(i + 1);
            assert(part.drop_last() =~= pair_views(self.headers@).take(i as int));
            assert(part.last() == (self.headers@[i as int].0@, self.headers@[i as int].1@));
            push_field(
                &mut headers,
                self.headers[i].0.as_str(),
                Json::text(self.headers[i].1.as_str()),
            );
            i = i + 1;
        }
        assert(pair_views(self.headers@).take(self.headers@.len() as int) =~= pair_views(
            self.headers@,
        ));
        let mut frames: Vec<Json> = Vec::new();
        let mut j: usize = 0;
        while j < self.final_frames.len()
            invariant
                j == frames@.len(),
                j <= self.final_frames@.len(),
                forall|k: int|
                    0 <= k < j ==> frames@[k]@ == JsonView::Text(self.final_frames@[k]@),
            decreases self.final_frames.len() - j,
        {
            frames.push(Json::text(self.final_frames[j].as_str()));
            j = j + 1;
        }
        assert(json_views(frames@) =~= string_values(texts(self.final_frames@)));
        let mut fields: Vec<(String, Json)> = Vec::new();
        push_field(&mut fields, "status", Json::uint(self.status as u64));
        push_field(&mut fields, "headers", Json::Object(headers));
        push_field(&mut fields, "final_sse_frames", Json::Array(frames));
        push_field(
            &mut fields,
            "partial_tail",
            match &self.partial_tail {
                Some(t) => Json::text(t.as_str()),
                None => Json::Null,
            },
        );
        Json::Object(fields).render()
    }
}

fn find_header(headers: &Vec<Header>, name: &str) -> (r: Option<String>)
    ensures
        text_option(r) == header_value(header_views(headers@), name@),
{
    let ghost all = header_views(headers@);
    assert(all.skip(0) =~= all);
    let mut i: usize = 0;
    while i < headers.len()
        invariant
            i <= headers@.len(),
            all == header_views(headers@),
            header_value(all.skip(i as int), name@) == header_value(all, name@),
        decreases headers.len() - i,
    {
        assert(all.skip(i as int)[0] == headers@[i as int]@);
        assert(all.skip(i as int).drop_first() =~= all.skip(i + 1));
        if text::same(headers[i].name.as_str(), name) {
            return match &headers[i].value {
                Some(v) => Some(v.clone()),
                None => None,
            };
        }
        i = i + 1;
    }
    None
}

/// Only headers that may be shown are kept of a response, whatever headers it has.
pub proof fn law_only_safe_headers(headers: Seq<HeaderView>, names: Seq<Seq<char>>)
    ensures
        forall|i: int|
            0 <= i < picked_headers(headers, names).len() ==> names.contains(
                (#[trigger] picked_headers(headers, names)[i]).0,
            ),
    decreases names.len(),
{
    if names.len() > 0 {
        let before = names.drop_last();
        law_only_safe_headers(headers, before);
        let picked = picked_headers(headers, names);
        assert forall|i: int| 0 <= i < picked.len() implies names.contains(
            (#[trigger] picked[i]).0,
        ) by {
            if i < picked_headers(headers, before).len() {
                assert(picked[i] == picked_headers(headers, before)[i]);
                let k = choose|k: int| 0 <= k < before.len() && before[k] == picked[i].0;
                assert(names[k] == picked[i].0);
            } else {
                assert(names[names.len() - 1] == picked[i].0);
            }
        }
    }
}

} // verus!
