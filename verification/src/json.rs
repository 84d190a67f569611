//! JSON values as plain data.

use vstd::prelude::*;
use vstd::string::StringExecFns;
use crate::text;

verus! {

/// `serde_json::Number`: carried as it is, read through `as_u64`.
#[verifier::external_type_specification]
#[verifier::external_body]
pub struct ExNumber(serde_json::Number);

/// `serde_json::Value`: taken apart by `value_parts`, put together by `value_of_parts`.
#[verifier::external_type_specification]
#[verifier::external_body]
pub struct ExValue(serde_json::Value);

/// The unsigned integer that a JSON number stands for, where it stands for one.
pub uninterp spec fn number_u64(n: serde_json::Number) -> Option<u64>;

/// The JSON number that stands for an unsigned integer.
pub uninterp spec fn unsigned_number(n: u64) -> serde_json::Number;

/// What a `serde_json::Value` holds.
pub uninterp spec fn value_view(v: serde_json::Value) -> JsonView;

/// What `serde_json` reads in a text: a value, or the message of its error.
pub uninterp spec fn parsed_json(text: Seq<char>) -> Result<JsonView, Seq<char>>;

/// The text that `serde_json` writes for a value.
pub uninterp spec fn rendered_json(v: JsonView) -> Seq<char>;

/// Whether `serde_json` takes two values for equal.
pub uninterp spec fn json_equal(a: JsonView, b: JsonView) -> bool;

/// A JSON value. Of two fields with one name the later one counts.
pub enum Json {
    Null,
    Bool(bool),
    Number(serde_json::Number),
    Text(String),
    Array(Vec<Json>),
    Object(Vec<(String, Json)>),
}

/// A JSON value as a mathematical object.
pub enum JsonView {
    Null,
    Bool(bool),
    Number(serde_json::Number),
    Text(Seq<char>),
    Array(Seq<JsonView>),
    Object(Map<Seq<char>, JsonView>),
}

/// The map that a list of fields stands for: of two fields with one name the
/// later one counts.
pub open spec fn object_of(fields: Seq<(Seq<char>, JsonView)>) -> Map<Seq<char>, JsonView>
    decreases fields.len(),
{
    if fields.len() == 0 {
        Map::empty()
    } else {
        object_of(fields.drop_last()).insert(fields.last().0, fields.last().1)
    }
}

/// The mathematical object that a JSON value stands for.
pub open spec fn json_view(j: Json) -> JsonView
    decreases j,
{
    match j {
        Json::Null => JsonView::Null,
        Json::Bool(b) => JsonView::Bool(b),
        Json::Number(n) => JsonView::Number(n),
        Json::Text(s) => JsonView::Text(s@),
        Json::Array(items) => JsonView::Array(json_views(items@)),
        Json::Object(fields) => JsonView::Object(object_of(field_views(fields@))),
    }
}

/// The views of a list of values.
pub open spec fn json_views(items: Seq<Json>) -> Seq<JsonView>
    decreases items,
{
    Seq::new(
        items.len(),
        |i: int|
            if 0 <= i < items.len() {
                json_view(items[i])
            } else {
                JsonView::Null
            },
    )
}

/// The views of a list of fields.
pub open spec fn field_views(fields: Seq<(String, Json)>) -> Seq<(Seq<char>, JsonView)>
    decreases fields,
{
    Seq::new(
        fields.len(),
        |i: int|
            if 0 <= i < fields.len() {
                (fields[i].0@, json_view(fields[i].1))
            } else {
                (Seq::empty(), JsonView::Null)
            },
    )
}

impl View for Json {
    type V = JsonView;

    open spec fn view(&self) -> JsonView {
        json_view(*self)
    }
}

/// The map that a list of fields stands for.
pub open spec fn fields_map(fields: Seq<(String, Json)>) -> Map<Seq<char>, JsonView> {
    object_of(field_views(fields))
}

impl JsonView {
    /// The field of that name, where the value is an object that has one.
    pub open spec fn get(self, key: Seq<char>) -> Option<JsonView> {
        match self {
            JsonView::Object(m) => if m.contains_key(key) {
                Some(m[key])
            } else {
                None
            },
            _ => None,
        }
    }

    /// The field of that name, or null.
    pub open spec fn at(self, key: Seq<char>) -> JsonView {
        match self.get(key) {
            Some(v) => v,
            None => JsonView::Null,
        }
    }

    /// The characters of a string value.
    pub open spec fn text(self) -> Option<Seq<char>> {
        match self {
            JsonView::Text(s) => Some(s),
            _ => None,
        }
    }

    /// The unsigned integer of a number that stands for one.
    pub open spec fn uint(self) -> Option<u64> {
        match self {
            JsonView::Number(n) => number_u64(n),
            _ => None,
        }
    }

    /// The value of a boolean.
    pub open spec fn boolean(self) -> Option<bool> {
        match self {
            JsonView::Bool(b) => Some(b),
            _ => None,
        }
    }

    /// The items of an array.
    pub open spec fn items(self) -> Option<Seq<JsonView>> {
        match self {
            JsonView::Array(s) => Some(s),
            _ => None,
        }
    }
}

/// `serde_json::Number::as_u64` gives the unsigned integer that a number stands for.
pub assume_specification[ serde_json::Number::as_u64 ](n: &serde_json::Number) -> (r: Option<u64>)
    ensures
        r == number_u64(*n),
;

/// `serde_json::Number::from` gives the number that stands for an unsigned integer.
#[verifier::external_body]
pub(crate) fn number_of(n: u64) -> (r: serde_json::Number)
    ensures
        r == unsigned_number(n),
        number_u64(r) == Some(n),
{
    serde_json::Number::from(n)
}

/// `serde_json::Number::clone` gives an equal number.
pub assume_specification[ <serde_json::Number as Clone>::clone ](n: &serde_json::Number) -> (r:
    serde_json::Number)
    ensures
        r == *n,
;


/// A `serde_json::Value` taken apart one level deep.
pub enum JsonParts {
    Null,
    Bool(bool),
    Number(serde_json::Number),
    Text(String),
    Array(Vec<serde_json::Value>),
    Object(Vec<(String, serde_json::Value)>),
}

/// What a list of `serde_json` fields holds.
pub open spec fn value_fields(fields: Seq<(String, serde_json::Value)>) -> Seq<
    (Seq<char>, JsonView),
> {
    Seq::new(fields.len(), |i: int| (fields[i].0@, value_view(fields[i].1)))
}

/// What a list of `serde_json` values holds.
pub open spec fn value_items(items: Seq<serde_json::Value>) -> Seq<JsonView> {
    Seq::new(items.len(), |i: int| value_view(items[i]))
}

impl JsonParts {
    /// The value that the parts make up.
    pub open spec fn whole(self) -> JsonView {
        match self {
            JsonParts::Null => JsonView::Null,
            JsonParts::Bool(b) => JsonView::Bool(b),
            JsonParts::Number(n) => JsonView::Number(n),
            JsonParts::Text(s) => JsonView::Text(s@),
            JsonParts::Array(items) => JsonView::Array(value_items(items@)),
            JsonParts::Object(fields) => JsonView::Object(object_of(value_fields(fields@))),
        }
    }
}

/// Matches a `serde_json::Value` on its variants: the parts make up what it held,
/// and an object comes out with each name once.
#[verifier::external_body]
pub(crate) fn value_parts(v: serde_json::Value) -> (r: JsonParts)
    ensures
        r.whole() == value_view(v),
        r matches JsonParts::Object(fields) ==> (forall|i: int, j: int|
            0 <= i < j < fields@.len() ==> #[trigger] fields@[i].0@ != #[trigger] fields@[j].0@),
{
    match v {
        serde_json::Value::Null => JsonParts::Null,
        serde_json::Value::Bool(b) => JsonParts::Bool(b),
        serde_json::Value::Number(n) => JsonParts::Number(n),
        serde_json::Value::String(s) => JsonParts::Text(s),
        serde_json::Value::Array(items) => JsonParts::Array(items),
        serde_json::Value::Object(fields) => JsonParts::Object(fields.into_iter().collect()),
    }
}

/// Builds a `serde_json::Value` variant by variant. `serde_json::Map` keeps the
/// later of two fields with one name.
#[verifier::external_body]
pub(crate) fn value_of_parts(parts: JsonParts) -> (r: serde_json::Value)
    ensures
        value_view(r) == parts.whole(),
{
    match parts {
        JsonParts::Null => serde_json::Value::Null,
        JsonParts::Bool(b) => serde_json::Value::Bool(b),
        JsonParts::Number(n) => serde_json::Value::Number(n),
        JsonParts::Text(s) => serde_json::Value::String(s),
        JsonParts::Array(items) => serde_json::Value::Array(items),
        JsonParts::Object(fields) => serde_json::Value::Object(fields.into_iter().collect()),
    }
}

/// `serde_json::from_str` reads a text as one JSON value.
#[verifier::external_body]
pub(crate) fn parse_value(text: &str) -> (r: Result<serde_json::Value, String>)
    ensures
        parsed_json(text@) == (match r {
            Ok(v) => Ok::<JsonView, Seq<char>>(value_view(v)),
            Err(e) => Err::<JsonView, Seq<char>>(e@),
        }),
{
    serde_json::from_str::<serde_json::Value>(text).map_err(|e| e.to_string())
}

/// Whether the text of a value is read as that value again: its numbers are unsigned
/// integers, and arrays and objects are not nested deeper than the given depth.
pub open spec fn is_readable(v: JsonView, depth: nat) -> bool
    decreases depth,
{
    match v {
        JsonView::Number(n) => number_u64(n) is Some,
        JsonView::Array(items) => depth > 0 && forall|i: int|
            0 <= i < items.len() ==> is_readable(#[trigger] items[i], (depth - 1) as nat),
        JsonView::Object(fields) => depth > 0 && forall|k: Seq<char>|
            #[trigger] fields.contains_key(k) ==> is_readable(fields[k], (depth - 1) as nat),
        _ => true,
    }
}

/// `serde_json::Value::to_string` writes a value without spaces. `serde_json::from_str`
/// reads it as the same value where its numbers are unsigned integers and it is nested at
/// most 127 deep; a fraction may be read as a neighbouring one.
#[verifier::external_body]
pub(crate) fn render_value(v: &serde_json::Value) -> (r: String)
    ensures
        r@ == rendered_json(value_view(*v)),
        is_readable(value_view(*v), 127) ==> parsed_json(r@) is Ok && parsed_json(r@)->Ok_0
            == value_view(*v),
{
    v.to_string()
}

/// `serde_json::Value::eq` compares two values; it takes a value for equal to itself.
#[verifier::external_body]
pub(crate) fn values_equal(a: &serde_json::Value, b: &serde_json::Value) -> (r: bool)
    ensures
        r == json_equal(value_view(*a), value_view(*b)),
        value_view(*a) == value_view(*b) ==> r,
{
    a == b
}

proof fn lemma_object_of_finite(fields: Seq<(Seq<char>, JsonView)>)
    ensures
        object_of(fields).dom().finite(),
    decreases fields.len(),
{
    if fields.len() > 0 {
        lemma_object_of_finite(fields.drop_last());
    }
}

proof fn lemma_object_of_distinct(fields: Seq<(Seq<char>, JsonView)>, i: int)
    requires
        0 <= i < fields.len(),
        forall|a: int, b: int|
            0 <= a < b < fields.len() ==> #[trigger] fields[a].0 != #[trigger] fields[b].0,
    ensures
        object_of(fields).contains_key(fields[i].0),
        object_of(fields)[fields[i].0] == fields[i].1,
    decreases fields.len(),
{
    if i < fields.len() - 1 {
        assert(fields.drop_last()[i] == fields[i]);
        lemma_object_of_distinct(fields.drop_last(), i);
        assert(fields[i].0 != fields[fields.len() - 1].0);
    }
}

impl Json {
    /// The value that a `serde_json::Value` holds.
    pub fn from_value(v: serde_json::Value) -> (r: Json)
        ensures
            r@ == value_view(v),
        decreases value_view(v),
    {
        let ghost whole = value_view(v);
        let parts = value_parts(v);
        match parts {
            JsonParts::Null => Json::Null,
            JsonParts::Bool(b) => Json::Bool(b),
            JsonParts::Number(n) => Json::Number(n),
            JsonParts::Text(s) => Json::Text(s),
            JsonParts::Array(items) => {
                let ghost all = items@;
                let mut out: Vec<Json> = Vec::new();
                for item in it: items
                    invariant
                        it.seq() == all,
                        out@.len() == it.index(),
                        whole == value_view(v),
                        whole == JsonView::Array(value_items(all)),
                        forall|i: int| 0 <= i < out@.len() ==> out@[i]@ == value_view(all[i]),
                {
                    proof {
                        let k = out@.len() as int;
                        assert(decreases_to!(whole => whole->Array_0));
                        assert(decreases_to!(whole->Array_0 => whole->Array_0[k]));
                        assert(whole->Array_0[k] == value_view(item));
                    }
                    out.push(Json::from_value(item));
                }
                assert(json_views(out@) =~= value_items(all));
                Json::Array(out)
            },
            JsonParts::Object(fields) => {
                let ghost all = fields@;
                let mut out: Vec<(String, Json)> = Vec::new();
                for field in it: fields
                    invariant
                        it.seq() == all,
                        out@.len() == it.index(),
                        whole == value_view(v),
                        whole == JsonView::Object(object_of(value_fields(all))),
                        forall|a: int, b: int|
                            0 <= a < b < all.len() ==> #[trigger] all[a].0@ != #[trigger] all[b].0@,
                        forall|i: int|
                            0 <= i < out@.len() ==> out@[i].0@ == all[i].0@ && out@[i].1@
                                == value_view(all[i].1),
                {
                    proof {
                        let k = out@.len() as int;
                        let key = all[k].0@;
                        lemma_object_of_distinct(value_fields(all), k);
                        lemma_object_of_finite(value_fields(all));
                        assert(decreases_to!(whole => whole->Object_0));
                        assert(decreases_to!(whole->Object_0 => whole->Object_0[key]));
                        assert(whole->Object_0[key] == value_view(field.1));
                    }
                    let (key, value) = field;
                    out.push((key, Json::from_value(value)));
                }
                assert(field_views(out@) =~= value_fields(all));
                Json::Object(out)
            },
        }
    }

    /// The `serde_json::Value` that holds this value.
    pub fn to_value(&self) -> (r: serde_json::Value)
        ensures
            value_view(r) == self@,
        decreases self,
    {
        match self {
            Json::Null => value_of_parts(JsonParts::Null),
            Json::Bool(b) => value_of_parts(JsonParts::Bool(*b)),
            Json::Number(n) => value_of_parts(JsonParts::Number(n.clone())),
            Json::Text(s) => value_of_parts(JsonParts::Text(s.clone())),
            Json::Array(items) => {
                let mut out: Vec<serde_json::Value> = Vec::new();
                let mut i: usize = 0;
                while i < items.len()
                    invariant
                        i == out@.len(),
                        i <= items@.len(),
                        *self == Json::Array(*items),
                        forall|k: int| 0 <= k < i ==> value_view(out@[k]) == items@[k]@,
                    decreases items.len() - i,
                {
                    assert(decreases_to!(self => self->Array_0));
                    assert(decreases_to!(self->Array_0 => self->Array_0[i as int]));
                    out.push(items[i].to_value());
                    i = i + 1;
                }
                assert(value_items(out@) =~= json_views(items@));
                value_of_parts(JsonParts::Array(out))
            },
            Json::Object(fields) => {
                let mut out: Vec<(String, serde_json::Value)> = Vec::new();
                let mut i: usize = 0;
                while i < fields.len()
                    invariant
                        i == out@.len(),
                        i <= fields@.len(),
                        *self == Json::Object(*fields),
                        forall|k: int|
                            0 <= k < i ==> value_view(out@[k].1) == fields@[k].1@ && out@[k].0@
                                == fields@[k].0@,
                    decreases fields.len() - i,
                {
                    assert(decreases_to!(self => self->Object_0));
                    assert(decreases_to!(self->Object_0 => self->Object_0[i as int]));
                    out.push((fields[i].0.clone(), fields[i].1.to_value()));
                    i = i + 1;
                }
                assert(value_fields(out@) =~= field_views(fields@));
                value_of_parts(JsonParts::Object(out))
            },
        }
    }

    /// An equal value.
    pub fn duplicate(&self) -> (r: Json)
        ensures
            r@ == self@,
        decreases self,
    {
        match self {
            Json::Null => Json::Null,
            Json::Bool(b) => Json::Bool(*b),
            Json::Number(n) => Json::Number(n.clone()),
            Json::Text(s) => Json::Text(s.clone()),
            Json::Array(items) => {
                let mut out: Vec<Json> = Vec::new();
                let mut i: usize = 0;
                while i < items.len()
                    invariant
                        i == out@.len(),
                        i <= items@.len(),
                        *self == Json::Array(*items),
                        forall|k: int| 0 <= k < i ==> out@[k]@ == items@[k]@,
                    decreases items.len() - i,
                {
                    assert(decreases_to!(self => self->Array_0));
                    assert(decreases_to!(self->Array_0 => self->Array_0[i as int]));
                    out.push(items[i].duplicate());
                    i = i + 1;
                }
                assert(json_views(out@) =~= json_views(items@));
                Json::Array(out)
            },
            Json::Object(fields) => {
                let mut out: Vec<(String, Json)> = Vec::new();
                let mut i: usize = 0;
                while i < fields.len()
                    invariant
                        i == out@.len(),
                        i <= fields@.len(),
                        *self == Json::Object(*fields),
                        forall|k: int|
                            0 <= k < i ==> out@[k].1@ == fields@[k].1@ && out@[k].0@
                                == fields@[k].0@,
                    decreases fields.len() - i,
                {
                    assert(decreases_to!(self => self->Object_0));
                    assert(decreases_to!(self->Object_0 => self->Object_0[i as int]));
                    out.push((fields[i].0.clone(), fields[i].1.duplicate()));
                    i = i + 1;
                }
                assert(field_views(out@) =~= field_views(fields@));
                Json::Object(out)
            },
        }
    }

    /// Reads a text as one JSON value; an error is given by its message.
    pub fn parse(text: &str) -> (r: Result<Json, String>)
        ensures
            r is Ok <==> parsed_json(text@) is Ok,
            r matches Ok(v) ==> v@ == parsed_json(text@)->Ok_0,
            r matches Err(e) ==> e@ == parsed_json(text@)->Err_0,
    {
        match parse_value(text) {
            Ok(v) => Ok(Json::from_value(v)),
            Err(e) => Err(e),
        }
    }

    /// The text of the value, without spaces. It is read as the same value again where its
    /// numbers are unsigned integers and it is not nested too deep.
    pub fn render(&self) -> (r: String)
        ensures
            r@ == rendered_json(self@),
            is_readable(self@, 127) ==> parsed_json(r@) == Ok::<JsonView, Seq<char>>(self@),
    {
        render_value(&self.to_value())
    }

    /// Whether two values are equal.
    pub fn equals(&self, other: &Json) -> (r: bool)
        ensures
            r == json_equal(self@, other@),
            self@ == other@ ==> r,
    {
        values_equal(&self.to_value(), &other.to_value())
    }

    /// The string value of the given characters.
    pub fn text(s: &str) -> (r: Json)
        ensures
            r@ == JsonView::Text(s@),
    {
        Json::Text(s.to_owned())
    }

    /// The number that stands for an unsigned integer.
    pub fn uint(n: u64) -> (r: Json)
        ensures
            r@ == JsonView::Number(unsigned_number(n)),
            r@.uint() == Some(n),
    {
        Json::Number(number_of(n))
    }

    /// The field of that name, where the value is an object that has one.
    pub fn get(&self, key: &str) -> (r: Option<&Json>)
        ensures
            r is Some <==> self@.get(key@) is Some,
            r matches Some(v) ==> self@.get(key@) == Some(v@),
    {
        match self {
            Json::Object(fields) => {
                let mut i: usize = fields.len();
                assert(field_views(fields@).take(i as int) =~= field_views(fields@));
                while i > 0
                    invariant
                        i <= fields@.len(),
                        self@ == JsonView::Object(object_of(field_views(fields@))),
                        object_of(field_views(fields@).take(i as int)).contains_key(key@)
                            == object_of(field_views(fields@)).contains_key(key@),
                        object_of(field_views(fields@).take(i as int))[key@] == object_of(
                            field_views(fields@),
                        )[key@],
                    decreases i,
                {
                    proof {
                        let part = field_views(fields@).take(i as int);
                        assert(part.drop_last() =~= field_views(fields@).take(i - 1));
                        assert(part.last() == (fields@[i - 1].0@, fields@[i - 1].1@));
                    }
                    if text::same(fields[i - 1].0.as_str(), key) {
                        return Some(&fields[i - 1].1);
                    }
                    i = i - 1;
                }
                None
            },
            _ => None,
        }
    }

    /// The characters of a string value.
    pub fn as_str(&self) -> (r: Option<&str>)
        ensures
            r is Some <==> self@.text() is Some,
            r matches Some(s) ==> self@.text() == Some(s@),
    {
        match self {
            Json::Text(s) => Some(s.as_str()),
            _ => None,
        }
    }

    /// The unsigned integer of a number that stands for one.
    pub fn as_u64(&self) -> (r: Option<u64>)
        ensures
            r == self@.uint(),
    {
        match self {
            Json::Number(n) => n.as_u64(),
            _ => None,
        }
    }

    /// The value of a boolean.
    pub fn as_bool(&self) -> (r: Option<bool>)
        ensures
            r == self@.boolean(),
    {
        match self {
            Json::Bool(b) => Some(*b),
            _ => None,
        }
    }

    /// The items of an array.
    pub fn as_array(&self) -> (r: Option<&Vec<Json>>)
        ensures
            r is Some <==> self@.items() is Some,
            r matches Some(v) ==> self@.items() == Some(json_views(v@)),
    {
        match self {
            Json::Array(items) => Some(items),
            _ => None,
        }
    }

    /// Whether the value is null.
    pub fn is_null(&self) -> (r: bool)
        ensures
            r == (self@ == JsonView::Null),
    {
        match self {
            Json::Null => true,
            _ => false,
        }
    }

    /// The characters of the string field of that name.
    pub fn text_at(&self, key: &str) -> (r: Option<&str>)
        ensures
            r is Some <==> self@.at(key@).text() is Some,
            r matches Some(s) ==> self@.at(key@).text() == Some(s@),
    {
        match self.get(key) {
            Some(v) => v.as_str(),
            None => None,
        }
    }

    /// The unsigned integer in the field of that name.
    pub fn uint_at(&self, key: &str) -> (r: Option<u64>)
        ensures
            r == self@.at(key@).uint(),
    {
        match self.get(key) {
            Some(v) => v.as_u64(),
            None => None,
        }
    }
}

/// Adds a field to a list of fields.
pub fn push_field(fields: &mut Vec<(String, Json)>, key: &str, value: Json)
    ensures
        fields_map(final(fields)@) == fields_map(old(fields)@).insert(key@, value@),
        final(fields)@.len() == old(fields)@.len() + 1,
{
    fields.push((key.to_owned(), value));
    proof {
        let before = field_views(old(fields)@);
        let after = field_views(fields@);
        assert(after.drop_last() =~= before);
        assert(after.last() == (key@, value@));
    }
}

proof fn lemma_update_last_field(s: Seq<(Seq<char>, JsonView)>, i: int, v: JsonView)
    requires
        0 <= i < s.len(),
        forall|j: int| i < j < s.len() ==> (#[trigger] s[j]).0 != s[i].0,
    ensures
        object_of(s.update(i, (s[i].0, v))) == object_of(s).insert(s[i].0, v),
    decreases s.len(),
{
    let changed = s.update(i, (s[i].0, v));
    if i == s.len() - 1 {
        assert(changed.drop_last() =~= s.drop_last());
        assert(object_of(changed) =~= object_of(s).insert(s[i].0, v));
    } else {
        let init = s.drop_last();
        assert forall|j: int| i < j < init.len() implies (#[trigger] init[j]).0 != init[i].0 by {
            assert(init[j] == s[j]);
        }
        lemma_update_last_field(init, i, v);
        assert(changed.drop_last() =~= init.update(i, (init[i].0, v)));
        assert(s[s.len() - 1].0 != s[i].0);
        assert(object_of(changed) =~= object_of(s).insert(s[i].0, v));
    }
}

/// Gives a field of a list of fields a value, in place where it is there already.
pub fn set_field(fields: &mut Vec<(String, Json)>, key: &str, value: Json)
    ensures
        fields_map(final(fields)@) == fields_map(old(fields)@).insert(key@, value@),
{
    let mut i: usize = fields.len();
    while i > 0
        invariant
            i <= fields@.len(),
            *fields == *old(fields),
            forall|j: int| i <= j < fields@.len() ==> (#[trigger] fields@[j]).0@ != key@,
        decreases i,
    {
        if text::same(fields[i - 1].0.as_str(), key) {
            let ghost views = field_views(fields@);
            let ghost k = i - 1;
            fields[i - 1] = (key.to_owned(), value);
            proof {
                assert forall|j: int| k < j < views.len() implies (#[trigger] views[j]).0
                    != views[k].0 by {
                    assert(old(fields)@[j].0@ != key@);
                }
                lemma_update_last_field(views, k, value@);
                assert(field_views(fields@) =~= views.update(k, (views[k].0, value@)));
            }
            return ;
        }
        i = i - 1;
    }
    push_field(fields, key, value);
}

/// An object that has no field yet stands for the empty map.
pub proof fn lemma_no_fields(fields: Seq<(String, Json)>)
    requires
        fields.len() == 0,
    ensures
        fields_map(fields) == Map::<Seq<char>, JsonView>::empty(),
{
}

} // verus!
