//! Joining the fragments in which reasoning details are streamed.

use vstd::prelude::*;
use vstd::string::StringExecFns;
use crate::json::{field_views, fields_map, json_equal, json_views, set_field, Json, JsonView};
use crate::text;

verus! {

/// The field that holds the payload of a reasoning detail of the given type.
pub open spec fn payload_field(detail_type: Seq<char>) -> Option<Seq<char>> {
    if detail_type == "reasoning.text"@ {
        Some("text"@)
    } else if detail_type == "reasoning.encrypted"@ {
        Some("data"@)
    } else if detail_type == "reasoning.summary"@ {
        Some("summary"@)
    } else {
        None
    }
}

/// Whether two details disagree in a field: both have it, neither value is null, and
/// the values differ.
pub open spec fn disagree_in(
    current: Map<Seq<char>, JsonView>,
    incoming: Map<Seq<char>, JsonView>,
    key: Seq<char>,
) -> bool {
    &&& incoming.contains_key(key)
    &&& current.contains_key(key)
    &&& current[key] != JsonView::Null
    &&& incoming[key] != JsonView::Null
    &&& !json_equal(current[key], incoming[key])
}

/// Whether a fragment continues the detail before it: both have the same type, whose
/// payload is known, and no field but the payload disagrees.
pub open spec fn continues(current: JsonView, incoming: JsonView) -> bool {
    match (current, incoming) {
        (JsonView::Object(c), JsonView::Object(i)) => {
            &&& current.at("type"@).text() is Some
            &&& incoming.at("type"@).text() == current.at("type"@).text()
            &&& payload_field(current.at("type"@).text()->Some_0) is Some
            &&& forall|key: Seq<char>|
                key != payload_field(current.at("type"@).text()->Some_0)->Some_0
                    ==> !#[trigger] disagree_in(c, i, key)
        },
        _ => false,
    }
}

/// A detail after its payload was continued.
pub open spec fn with_payload(
    current: Map<Seq<char>, JsonView>,
    incoming: Map<Seq<char>, JsonView>,
    payload: Seq<char>,
) -> Map<Seq<char>, JsonView> {
    match (JsonView::Object(current).at(payload).text(), JsonView::Object(incoming).at(payload).text()) {
        (Some(a), Some(b)) => current.insert(payload, JsonView::Text(a + b)),
        (None, Some(b)) => current.insert(payload, JsonView::Text(b)),
        _ => current,
    }
}

/// A detail after the fields that it lacks, or that are null in it, were filled in.
pub open spec fn filled(
    current: Map<Seq<char>, JsonView>,
    incoming: Map<Seq<char>, JsonView>,
    payload: Seq<char>,
) -> Map<Seq<char>, JsonView> {
    Map::new(
        |key: Seq<char>|
            current.contains_key(key) || (key != payload && incoming.contains_key(key)),
        |key: Seq<char>|
            if key != payload && incoming.contains_key(key) && (!current.contains_key(key)
                || current[key] == JsonView::Null) {
                incoming[key]
            } else {
                current[key]
            },
    )
}

/// The detail that a detail and the fragment that continues it make up.
pub open spec fn merged_detail(current: JsonView, incoming: JsonView) -> JsonView {
    let payload = payload_field(current.at("type"@).text()->Some_0)->Some_0;
    let c = current->Object_0;
    let i = incoming->Object_0;
    JsonView::Object(filled(with_payload(c, i, payload), i, payload))
}

/// The name of the payload field of a detail.
fn payload_of(detail_type: &str) -> (r: Option<&'static str>)
    ensures
        r is Some <==> payload_field(detail_type@) is Some,
        r matches Some(f) ==> payload_field(detail_type@) == Some(f@),
{
    if text::same(detail_type, "reasoning.text") {
        Some("text")
    } else if text::same(detail_type, "reasoning.encrypted") {
        Some("data")
    } else if text::same(detail_type, "reasoning.summary") {
        Some("summary")
    } else {
        None
    }
}

proof fn lemma_has_listed(fields: Seq<(String, Json)>, key: Seq<char>)
    requires
        fields_map(fields).contains_key(key),
    ensures
        exists|i: int| 0 <= i < fields.len() && #[trigger] fields[i].0@ == key,
    decreases fields.len(),
{
    let views = field_views(fields);
    if fields.len() > 0 {
        let last = fields.len() - 1;
        if fields[last].0@ != key {
            assert(field_views(fields.drop_last()) =~= views.drop_last());
            lemma_has_listed(fields.drop_last(), key);
            let i = choose|i: int|
                0 <= i < fields.drop_last().len() && #[trigger] fields.drop_last()[i].0@ == key;
            assert(fields[i].0@ == key);
        }
    }
}

fn any_disagreement(current: &Json, incoming: &Json, payload: &str) -> (r: bool)
    requires
        current@ is Object,
        incoming@ is Object,
    ensures
        r == exists|key: Seq<char>|
            key != payload@ && #[trigger] disagree_in(current@->Object_0, incoming@->Object_0, key),
{
    match incoming {
        Json::Object(fields) => {
            let ghost c = current@->Object_0;
            let ghost m = incoming@->Object_0;
            let mut i: usize = 0;
            while i < fields.len()
                invariant
                    i <= fields@.len(),
                    m == fields_map(fields@),
                    incoming@ == JsonView::Object(m),
                    current@ == JsonView::Object(c),
                    forall|k: int|
                        0 <= k < i && #[trigger] fields@[k].0@ != payload@ ==> !disagree_in(
                            c,
                            m,
                            fields@[k].0@,
                        ),
                decreases fields.len() - i,
            {
                let key = fields[i].0.as_str();
                if !text::same(key, payload) {
                    match (current.get(key), incoming.get(key)) {
                        (Some(a), Some(b)) => {
                            if !a.is_null() && !b.is_null() && !a.equals(b) {
                                assert(disagree_in(c, m, key@));
                                return true;
                            }
                        },
                        _ => {},
                    }
                }
                i = i + 1;
            }
            proof {
                assert forall|key: Seq<char>| key != payload@ implies !#[trigger] disagree_in(
                    c,
                    m,
                    key,
                ) by {
                    if m.contains_key(key) {
                        lemma_has_listed(fields@, key);
                    }
                }
            }
            false
        },
        _ => false,
    }
}

/// Whether one of the first `n` fields has the name.
spec fn listed(fields: Seq<(String, Json)>, n: int, key: Seq<char>) -> bool {
    exists|k: int| 0 <= k < n && #[trigger] fields[k].0@ == key
}

/// Whether `map` has under a name what `goal` has there, if it is one of the names of
/// the first `n` fields, and else what `start` has there.
spec fn filled_at(
    map: Map<Seq<char>, JsonView>,
    start: Map<Seq<char>, JsonView>,
    goal: Map<Seq<char>, JsonView>,
    fields: Seq<(String, Json)>,
    n: int,
    key: Seq<char>,
) -> bool {
    let source = if listed(fields, n, key) {
        goal
    } else {
        start
    };
    &&& map.contains_key(key) == source.contains_key(key)
    &&& map.contains_key(key) ==> map[key] == source[key]
}

/// Whether the first `n` fields have been taken into account.
spec fn filled_so_far(
    map: Map<Seq<char>, JsonView>,
    start: Map<Seq<char>, JsonView>,
    goal: Map<Seq<char>, JsonView>,
    fields: Seq<(String, Json)>,
    n: int,
) -> bool {
    forall|key: Seq<char>| #[trigger] filled_at(map, start, goal, fields, n, key)
}

proof fn lemma_filled_step(
    before: Map<Seq<char>, JsonView>,
    after: Map<Seq<char>, JsonView>,
    start: Map<Seq<char>, JsonView>,
    m: Map<Seq<char>, JsonView>,
    payload: Seq<char>,
    fields: Seq<(String, Json)>,
    n: int,
)
    requires
        0 <= n < fields.len(),
        m == fields_map(fields),
        filled_so_far(before, start, filled(start, m, payload), fields, n),
        ({
            let key = fields[n].0@;
            after == if key != payload && (!before.contains_key(key) || before[key]
                == JsonView::Null) {
                before.insert(key, m[key])
            } else {
                before
            }
        }),
    ensures
        filled_so_far(after, start, filled(start, m, payload), fields, n + 1),
{
    lemma_listed_has(fields, n);
    let goal = filled(start, m, payload);
    let key = fields[n].0@;
    assert forall|other: Seq<char>| #[trigger]
        filled_at(after, start, goal, fields, n + 1, other) by {
        assert(filled_at(before, start, goal, fields, n, other));
        if other == key {
            assert(fields[n].0@ == other);
            assert(listed(fields, n + 1, other));
        } else {
            if listed(fields, n, other) {
                let k = choose|k: int| 0 <= k < n && #[trigger] fields[k].0@ == other;
                assert(0 <= k < n + 1 && fields[k].0@ == other);
            }
            if listed(fields, n + 1, other) {
                let k = choose|k: int| 0 <= k < n + 1 && #[trigger] fields[k].0@ == other;
                assert(0 <= k < n && fields[k].0@ == other);
            }
        }
    }
}

fn fill_missing(current: &mut Vec<(String, Json)>, incoming: &Json, payload: &str)
    requires
        incoming@ is Object,
    ensures
        fields_map(final(current)@) == filled(
            fields_map(old(current)@),
            incoming@->Object_0,
            payload@,
        ),
{
    let ghost start = fields_map(current@);
    let ghost m = incoming@->Object_0;
    let ghost goal = filled(start, m, payload@);
    match incoming {
        Json::Object(fields) => {
            let mut i: usize = 0;
            while i < fields.len()
                invariant
                    i <= fields@.len(),
                    m == fields_map(fields@),
                    incoming@ == JsonView::Object(m),
                    goal == filled(start, m, payload@),
                    filled_so_far(fields_map(current@), start, goal, fields@, i as int),
                decreases fields.len() - i,
            {
                let key = fields[i].0.as_str();
                let ghost before = fields_map(current@);
                proof {
                    lemma_listed_has(fields@, i as int);
                }
                if !text::same(key, payload) && lacks(current, key) {
                    match incoming.get(key) {
                        Some(v) => {
                            set_field(current, key, v.duplicate());
                        },
                        None => {},
                    }
                }
                proof {
                    lemma_filled_step(
                        before,
                        fields_map(current@),
                        start,
                        m,
                        payload@,
                        fields@,
                        i as int,
                    );
                }
                i = i + 1;
            }
            proof {
                let map = fields_map(current@);
                assert forall|key: Seq<char>|
                    #![trigger map.dom().contains(key)]
                    #![trigger goal.dom().contains(key)]
                    #![trigger map[key]]
                    map.dom().contains(key) == goal.dom().contains(key) && (map.dom().contains(key)
                        ==> map[key] == goal[key]) by {
                    assert(filled_at(map, start, goal, fields@, fields@.len() as int, key));
                    if m.contains_key(key) {
                        lemma_has_listed(fields@, key);
                    }
                }
                assert(map.dom() =~= goal.dom());
                assert(map =~= goal);
            }
        },
        _ => {},
    }
}

proof fn lemma_listed_has(fields: Seq<(String, Json)>, i: int)
    requires
        0 <= i < fields.len(),
    ensures
        fields_map(fields).contains_key(fields[i].0@),
    decreases fields.len(),
{
    let views = field_views(fields);
    if i < fields.len() - 1 {
        assert(field_views(fields.drop_last()) =~= views.drop_last());
        lemma_listed_has(fields.drop_last(), i);
        assert(fields.drop_last()[i] == fields[i]);
    }
}

/// Whether a list of fields has no such field, or null in it.
fn lacks(fields: &Vec<(String, Json)>, key: &str) -> (r: bool)
    ensures
        r == (!fields_map(fields@).contains_key(key@) || fields_map(fields@)[key@]
            == JsonView::Null),
{
    match find_field(fields, key) {
        Some(i) => fields[i].1.is_null(),
        None => true,
    }
}

/// The place of the field that counts under a name.
fn find_field(fields: &Vec<(String, Json)>, key: &str) -> (r: Option<usize>)
    ensures
        r is Some <==> fields_map(fields@).contains_key(key@),
        r matches Some(i) ==> i < fields@.len() && fields_map(fields@)[key@] == fields@[i as int].1@,
{
    let mut i: usize = fields.len();
    let ghost views = field_views(fields@);
    assert(views.take(i as int) =~= views);
    while i > 0
        invariant
            i <= fields@.len(),
            views == field_views(fields@),
            crate::json::object_of(views.take(i as int)).contains_key(key@) == fields_map(
                fields@,
            ).contains_key(key@),
            crate::json::object_of(views.take(i as int))[key@] == fields_map(fields@)[key@],
        decreases i,
    {
        proof {
            assert(views.take(i as int).drop_last() =~= views.take(i - 1));
            assert(views.take(i as int).last() == (fields@[i - 1].0@, fields@[i - 1].1@));
        }
        if text::same(fields[i - 1].0.as_str(), key) {
            return Some(i - 1);
        }
        i = i - 1;
    }
    None
}

/// Merges a streamed fragment into the reasoning detail before it. Only fragments of a
/// compatible identity are joined; a fragment that is not leaves the detail as it is.
pub fn merge_reasoning_detail_fragment(current: &mut Json, incoming: &Json) -> (r: bool)
    ensures
        r == continues(old(current)@, incoming@),
        final(current)@ == if r {
            merged_detail(old(current)@, incoming@)
        } else {
            old(current)@
        },
{
    let detail_type = match (&*current, incoming) {
        (Json::Object(_), Json::Object(_)) => match (
            current.text_at("type"),
            incoming.text_at("type"),
        ) {
            (Some(a), Some(b)) => if text::same(a, b) {
                a.to_owned()
            } else {
                return false;
            },
            _ => return false,
        },
        _ => return false,
    };
    let payload = match payload_of(detail_type.as_str()) {
        Some(f) => f,
        None => return false,
    };
    if any_disagreement(&*current, incoming, payload) {
        return false;
    }
    let joined: Option<String> = match (current.text_at(payload), incoming.text_at(payload)) {
        (Some(a), Some(b)) => {
            let mut both = a.to_owned();
            both.append(b);
            Some(both)
        },
        (None, Some(b)) => Some(b.to_owned()),
        _ => None,
    };
    match current {
        Json::Object(fields) => {
            match joined {
                Some(t) => {
                    set_field(fields, payload, Json::Text(t));
                },
                None => {},
            }
            fill_missing(fields, incoming, payload);
        },
        _ => {},
    }
    true
}

/// The details after one more fragment.
pub open spec fn with_fragment(details: Seq<JsonView>, fragment: JsonView) -> Seq<JsonView> {
    if details.len() > 0 && continues(details.last(), fragment) {
        details.drop_last().push(merged_detail(details.last(), fragment))
    } else {
        details.push(fragment)
    }
}

/// The details after more fragments.
pub open spec fn with_fragments(details: Seq<JsonView>, fragments: Seq<JsonView>) -> Seq<JsonView>
    decreases fragments.len(),
{
    if fragments.len() == 0 {
        details
    } else {
        with_fragment(with_fragments(details, fragments.drop_last()), fragments.last())
    }
}

/// Takes in streamed fragments: each one continues the last detail or becomes a detail
/// of its own.
pub fn append_reasoning_detail_chunk(accumulated: &mut Vec<Json>, incoming: &Vec<Json>)
    ensures
        json_views(final(accumulated)@) == with_fragments(
            json_views(old(accumulated)@),
            json_views(incoming@),
        ),
{
    let mut i: usize = 0;
    while i < incoming.len()
        invariant
            i <= incoming@.len(),
            json_views(accumulated@) == with_fragments(
                json_views(old(accumulated)@),
                json_views(incoming@).take(i as int),
            ),
        decreases incoming.len() - i,
    {
        let ghost before = json_views(accumulated@);
        let ghost part = json_views(incoming@).take(i + 1);
        assert(part.drop_last() =~= json_views(incoming@).take(i as int));
        assert(part.last() == incoming@[i as int]@);
        let mut merged = false;
        if accumulated.len() > 0 {
            let last: usize = accumulated.len() - 1;
            let ghost detail = accumulated@[last as int];
            merged = merge_reasoning_detail_fragment(&mut accumulated[last], &incoming[i]);
            assert(before.last() == detail@);
            if merged {
                assert(json_views(accumulated@) =~= with_fragment(before, incoming@[i as int]@));
            } else {
                assert(json_views(accumulated@) =~= before);
            }
        }
        if !merged {
            accumulated.push(incoming[i].duplicate());
            assert(json_views(accumulated@) =~= with_fragment(before, incoming@[i as int]@));
        }
        i = i + 1;
    }
    assert(json_views(incoming@).take(incoming@.len() as int) =~= json_views(incoming@));
}

} // verus!
