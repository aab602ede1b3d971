//! JSON values, as far as this library reads and writes them, and their
//! passage to and from text with `serde_json`.
use vstd::prelude::*;
use vstd::string::*;

use crate::host;
use crate::order;
use crate::shelf;
use crate::shelf::Shelf;
use crate::text;

verus! {

/// A JSON value.
#[derive(Debug, PartialEq)]
pub enum Json {
    Null,
    Bool(bool),
    /// A whole number that is not negative and has at most 64 bits.
    UInt(u64),
    /// Any other number, as text.
    Number(String),
    Str(String),
    Array(Vec<Json>),
    /// Fields by name. The first of a name is the one that counts.
    Object(Vec<(String, Json)>),
}

/// What a JSON value holds.
pub enum JsonView {
    Null,
    Bool(bool),
    UInt(u64),
    Number(Seq<char>),
    Str(Seq<char>),
    Array(Seq<JsonView>),
    Object(Seq<(Seq<char>, JsonView)>),
}

/// What a value holds.
pub open spec fn json_view(j: Json) -> JsonView
    decreases j,
{
    match j {
        Json::Null => JsonView::Null,
        Json::Bool(b) => JsonView::Bool(b),
        Json::UInt(n) => JsonView::UInt(n),
        Json::Number(s) => JsonView::Number(s@),
        Json::Str(s) => JsonView::Str(s@),
        Json::Array(items) => JsonView::Array(item_views(items@)),
        Json::Object(fields) => JsonView::Object(field_views(fields@)),
    }
}

/// What a list of values holds.
pub open spec fn item_views(items: Seq<Json>) -> Seq<JsonView>
    decreases items,
{
    if items.len() == 0 {
        seq![]
    } else {
        item_views(items.drop_last()).push(json_view(items[items.len() - 1]))
    }
}

/// What a list of fields holds.
pub open spec fn field_views(fields: Seq<(String, Json)>) -> Seq<(Seq<char>, JsonView)>
    decreases fields,
{
    if fields.len() == 0 {
        seq![]
    } else {
        field_views(fields.drop_last()).push(
            (fields[fields.len() - 1].0@, json_view(fields[fields.len() - 1].1)),
        )
    }
}

impl View for Json {
    type V = JsonView;

    open spec fn view(&self) -> JsonView {
        json_view(*self)
    }
}

/// Item by item.
pub proof fn lemma_item_views(items: Seq<Json>)
    ensures
        item_views(items).len() == items.len(),
        forall|i: int|
            0 <= i < items.len() ==> #[trigger] item_views(items)[i] == json_view(items[i]),
    decreases items.len(),
{
    if items.len() > 0 {
        lemma_item_views(items.drop_last());
    }
}

/// Field by field.
pub proof fn lemma_field_views(fields: Seq<(String, Json)>)
    ensures
        field_views(fields).len() == fields.len(),
        forall|i: int|
            0 <= i < fields.len() ==> #[trigger] field_views(fields)[i] == (
                fields[i].0@,
                json_view(fields[i].1),
            ),
    decreases fields.len(),
{
    if fields.len() > 0 {
        lemma_field_views(fields.drop_last());
    }
}

/// The value of the first of the fields that has the name.
pub open spec fn lookup(fields: Seq<(Seq<char>, JsonView)>, key: Seq<char>) -> Option<JsonView>
    decreases fields.len(),
{
    if fields.len() == 0 {
        None
    } else if fields[0].0 == key {
        Some(fields[0].1)
    } else {
        lookup(fields.skip(1), key)
    }
}

impl JsonView {
    /// The value of a field; nothing but an object has fields.
    pub open spec fn field(self, key: Seq<char>) -> Option<JsonView> {
        match self {
            JsonView::Object(fields) => lookup(fields, key),
            _ => None,
        }
    }
}

/// What is behind an optional reference to a value.
pub open spec fn opt_view(j: Option<&Json>) -> Option<JsonView> {
    match j {
        Some(j) => Some(j@),
        None => None,
    }
}

impl Json {
    /// A string.
    pub fn str(s: &str) -> (r: Json)
        ensures
            r@ == JsonView::Str(s@),
    {
        Json::Str(s.to_owned())
    }

    /// A number.
    pub fn uint(n: usize) -> (r: Json)
        ensures
            r@ == JsonView::UInt(n as u64),
    {
        Json::UInt(n as u64)
    }

    /// A string, or null.
    pub fn opt_str(s: &Option<String>) -> (r: Json)
        ensures
            r@ == opt_str_view(*s),
    {
        match s {
            Some(s) => Json::Str(s.clone()),
            None => Json::Null,
        }
    }

    /// A number, or null.
    pub fn opt_uint(n: Option<usize>) -> (r: Json)
        ensures
            r@ == opt_uint_view(n),
    {
        match n {
            Some(n) => Json::UInt(n as u64),
            None => Json::Null,
        }
    }

    /// A list of strings.
    pub fn strings(v: &Vec<String>) -> (r: Json)
        ensures
            r@ == strings_view(text::views(v@)),
    {
        let mut out: Vec<Json> = Vec::new();
        let mut i: usize = 0;
        while i < v.len()
            invariant
                i <= v@.len(),
                item_views(out@) == Seq::new(i as nat, |k: int| JsonView::Str(v@[k]@)),
            decreases v@.len() - i,
        {
            add_item(&mut out, Json::str(v[i].as_str()));
            assert(item_views(out@) =~= Seq::new(i as nat + 1, |k: int| JsonView::Str(v@[k]@)));
            i = i + 1;
        }
        assert(item_views(out@) =~= Seq::new(
            text::views(v@).len(),
            |k: int| JsonView::Str(text::views(v@)[k]),
        ));
        Json::Array(out)
    }

    /// A list of numbers.
    pub fn uints(v: &Vec<usize>) -> (r: Json)
        ensures
            r@ == uints_view(v@),
    {
        let mut out: Vec<Json> = Vec::new();
        let mut i: usize = 0;
        while i < v.len()
            invariant
                i <= v@.len(),
                item_views(out@) == Seq::new(i as nat, |k: int| JsonView::UInt(v@[k] as u64)),
            decreases v@.len() - i,
        {
            add_item(&mut out, Json::uint(v[i]));
            assert(item_views(out@) =~= Seq::new(
                i as nat + 1,
                |k: int| JsonView::UInt(v@[k] as u64),
            ));
            i = i + 1;
        }
        Json::Array(out)
    }

    /// The value of a field; nothing but an object has fields.
    pub fn get(&self, key: &str) -> (r: Option<&Json>)
        ensures
            opt_view(r) == self@.field(key@),
    {
        match self {
            Json::Object(fields) => {
                let mut i: usize = 0;
                proof {
                    lemma_field_views(fields@);
                    assert(field_views(fields@).skip(0) =~= field_views(fields@));
                }
                while i < fields.len()
                    invariant
                        i <= fields@.len(),
                        self@ == JsonView::Object(field_views(fields@)),
                        field_views(fields@).len() == fields@.len(),
                        forall|k: int|
                            0 <= k < fields@.len() ==> #[trigger] field_views(fields@)[k] == (
                                fields@[k].0@,
                                json_view(fields@[k].1),
                            ),
                        lookup(field_views(fields@), key@) == lookup(
                            field_views(fields@).skip(i as int),
                            key@,
                        ),
                    decreases fields@.len() - i,
                {
                    assert(field_views(fields@).skip(i as int)[0] == field_views(
                        fields@,
                    )[i as int]);
                    if text::same(fields[i].0.as_str(), key) {
                        return Some(&fields[i].1);
                    }
                    assert(field_views(fields@).skip(i as int).skip(1) =~= field_views(
                        fields@,
                    ).skip(i as int + 1));
                    i = i + 1;
                }
                None
            },
            _ => None,
        }
    }

    /// The text, where the value is a string.
    pub fn as_str(&self) -> (r: Option<&str>)
        ensures
            match self@ {
                JsonView::Str(s) => r is Some && r->0@ == s,
                _ => r is None,
            },
    {
        match self {
            Json::Str(s) => Some(s.as_str()),
            _ => None,
        }
    }

    /// The number, where the value is one that is whole and not negative.
    pub fn as_u64(&self) -> (r: Option<u64>)
        ensures
            r == match self@ {
                JsonView::UInt(n) => Some(n),
                _ => None,
            },
    {
        match self {
            Json::UInt(n) => Some(*n),
            _ => None,
        }
    }

    /// A value that holds the same.
    pub fn copy(&self) -> (r: Json)
        ensures
            r@ == self@,
        decreases *self,
    {
        match self {
            Json::Null => Json::Null,
            Json::Bool(b) => Json::Bool(*b),
            Json::UInt(n) => Json::UInt(*n),
            Json::Number(s) => Json::Number(s.clone()),
            Json::Str(s) => Json::Str(s.clone()),
            Json::Array(items) => {
                let mut out: Vec<Json> = Vec::new();
                let mut i: usize = 0;
                proof {
                    lemma_item_views(items@);
                }
                while i < items.len()
                    invariant
                        i <= items@.len(),
                        *self == Json::Array(*items),
                        item_views(items@).len() == items@.len(),
                        forall|k: int|
                            0 <= k < items@.len() ==> #[trigger] item_views(items@)[k]
                                == json_view(items@[k]),
                        item_views(out@) == item_views(items@).take(i as int),
                    decreases items@.len() - i,
                {
                    assert(decreases_to!(*self => self->Array_0));
                    assert(decreases_to!(*items => items@));
                    assert(decreases_to!(items@ => items@[i as int]));
                    add_item(&mut out, items[i].copy());
                    assert(item_views(out@) =~= item_views(items@).take(i as int + 1));
                    i = i + 1;
                }
                assert(item_views(out@) =~= item_views(items@));
                Json::Array(out)
            },
            Json::Object(fields) => {
                let mut out: Vec<(String, Json)> = Vec::new();
                let mut i: usize = 0;
                proof {
                    lemma_field_views(fields@);
                }
                while i < fields.len()
                    invariant
                        i <= fields@.len(),
                        *self == Json::Object(*fields),
                        field_views(fields@).len() == fields@.len(),
                        forall|k: int|
                            0 <= k < fields@.len() ==> #[trigger] field_views(fields@)[k] == (
                                fields@[k].0@,
                                json_view(fields@[k].1),
                            ),
                        field_views(out@) == field_views(fields@).take(i as int),
                    decreases fields@.len() - i,
                {
                    assert(decreases_to!(*self => self->Object_0));
                    assert(decreases_to!(*fields => fields@));
                    assert(decreases_to!(fields@ => fields@[i as int]));
                    assert(decreases_to!(fields@[i as int] => fields@[i as int].1));
                    put(&mut out, fields[i].0.as_str(), fields[i].1.copy());
                    assert(field_views(out@) =~= field_views(fields@).take(i as int + 1));
                    i = i + 1;
                }
                assert(field_views(out@) =~= field_views(fields@));
                Json::Object(out)
            },
        }
    }
}

impl Clone for Json {
    fn clone(&self) -> (r: Json)
        ensures
            r@ == self@,
    {
        self.copy()
    }
}

/// A string, or null.
pub open spec fn opt_str_view(s: Option<String>) -> JsonView {
    match s {
        Some(s) => JsonView::Str(s@),
        None => JsonView::Null,
    }
}

/// A number, or null.
pub open spec fn opt_uint_view(n: Option<usize>) -> JsonView {
    match n {
        Some(n) => JsonView::UInt(n as u64),
        None => JsonView::Null,
    }
}

/// A list of strings.
pub open spec fn strings_view(v: Seq<Seq<char>>) -> JsonView {
    JsonView::Array(Seq::new(v.len(), |k: int| JsonView::Str(v[k])))
}

/// A list of numbers.
pub open spec fn uints_view(v: Seq<usize>) -> JsonView {
    JsonView::Array(Seq::new(v.len(), |k: int| JsonView::UInt(v[k] as u64)))
}

/// Appends a field.
pub fn put(fields: &mut Vec<(String, Json)>, key: &str, value: Json)
    ensures
        field_views(final(fields)@) == field_views(old(fields)@).push((key@, value@)),
{
    let ghost was = fields@;
    fields.push((key.to_owned(), value));
    assert(fields@.drop_last() =~= was);
}

/// Appends an item.
pub fn add_item(items: &mut Vec<Json>, value: Json)
    ensures
        item_views(final(items)@) == item_views(old(items)@).push(value@),
{
    let ghost was = items@;
    items.push(value);
    assert(items@.drop_last() =~= was);
}

// ------------------------------------------------------- values of serde_json
/// A value of `serde_json`.
#[verifier::external_type_specification]
#[verifier::external_body]
pub struct ExValue(serde_json::Value);

/// What a value of `serde_json` holds: the value's kind and, through arrays and
/// objects, all that is in it. The fields of an object are in the order of its
/// map, and a number is what its text stands for.
pub uninterp spec fn value_view(v: serde_json::Value) -> JsonView;

/// What values hold.
spec fn value_views(v: Seq<serde_json::Value>) -> Seq<JsonView> {
    Seq::new(v.len(), |i: int| value_view(v[i]))
}

/// The value of a number's text.
pub open spec fn number_value(s: Seq<char>) -> JsonView {
    match text::number(s) {
        Some(n) => if n <= u64::MAX {
            JsonView::UInt(n as u64)
        } else {
            JsonView::Number(s)
        },
        None => JsonView::Number(s),
    }
}

/// The outermost layer of a value of `serde_json`.
enum Layer<'a> {
    Null,
    Bool(bool),
    Number(String),
    Str(&'a String),
    Array(&'a Vec<serde_json::Value>),
    Object(Vec<(&'a String, &'a serde_json::Value)>),
}

/// What the value with the layer holds.
spec fn layer_view(l: Layer) -> JsonView {
    match l {
        Layer::Null => JsonView::Null,
        Layer::Bool(b) => JsonView::Bool(b),
        Layer::Number(s) => number_value(s@),
        Layer::Str(s) => JsonView::Str(s@),
        Layer::Array(items) => JsonView::Array(value_views(items@)),
        Layer::Object(fields) => JsonView::Object(entry_views(fields@)),
    }
}

/// What the entries of a map hold.
spec fn entry_views(fields: Seq<(&String, &serde_json::Value)>) -> Seq<(Seq<char>, JsonView)> {
    Seq::new(fields.len(), |i: int| (fields[i].0@, value_view(*fields[i].1)))
}

/// The variants of `serde_json::Value`, told apart: a value holds what its
/// outermost layer says. Of a number the layer has the text that `Number`
/// displays, which `from_str` reads as the same number, fractions too, since
/// the feature `float_roundtrip` is on. Of an object it has the entries as
/// `Map::iter` hands them out, in the order of their names, for the map is a
/// `BTreeMap` where the feature `preserve_order` is off.
#[verifier::external_body]
fn open_value(v: &serde_json::Value) -> (r: Layer<'_>)
    ensures
        layer_view(r) == value_view(*v),
        r matches Layer::Number(s) ==> json_value(s@) == Some(value_view(*v)),
        r matches Layer::Object(fields) ==> shelf::ordered(entry_views(fields@)),
{
    match v {
        serde_json::Value::Null => Layer::Null,
        serde_json::Value::Bool(b) => Layer::Bool(*b),
        serde_json::Value::Number(n) => Layer::Number(n.to_string()),
        serde_json::Value::String(s) => Layer::Str(s),
        serde_json::Value::Array(items) => Layer::Array(items),
        serde_json::Value::Object(fields) => Layer::Object(fields.iter().collect()),
    }
}

/// What a value of `serde_json` holds, as this library holds it.
pub fn from_value(v: &serde_json::Value) -> (r: Json)
    ensures
        r@ == value_view(*v),
        tidy(r@),
    decreases value_view(*v),
{
    match open_value(v) {
        Layer::Null => Json::Null,
        Layer::Bool(b) => Json::Bool(b),
        Layer::Number(s) => match text::parse_u64(s.as_str()) {
            Some(n) => Json::UInt(n),
            None => Json::Number(s),
        },
        Layer::Str(s) => Json::Str(s.clone()),
        Layer::Array(items) => {
            let ghost all = value_views(items@);
            let mut out: Vec<Json> = Vec::new();
            let mut i: usize = 0;
            assert(item_views(out@) =~= all.take(0));
            while i < items.len()
                invariant
                    i <= items@.len(),
                    all == value_views(items@),
                    value_view(*v) == JsonView::Array(all),
                    item_views(out@) == all.take(i as int),
                    forall|k: int| 0 <= k < i ==> tidy(#[trigger] all[k]),
                decreases items@.len() - i,
            {
                let ghost whole = value_view(*v);
                assert(decreases_to!(whole => whole->Array_0));
                assert(decreases_to!(whole->Array_0 => whole->Array_0[i as int]));
                add_item(&mut out, from_value(&items[i]));
                assert(item_views(out@) =~= all.take(i as int + 1));
                i = i + 1;
            }
            assert(all.take(i as int) =~= all);
            Json::Array(out)
        },
        Layer::Object(fields) => {
            let ghost all = entry_views(fields@);
            let mut out: Vec<(String, Json)> = Vec::new();
            let mut i: usize = 0;
            assert(field_views(out@) =~= all.take(0));
            while i < fields.len()
                invariant
                    i <= fields@.len(),
                    all == entry_views(fields@),
                    value_view(*v) == JsonView::Object(all),
                    field_views(out@) == all.take(i as int),
                    forall|k: int| 0 <= k < i ==> tidy((#[trigger] all[k]).1),
                decreases fields@.len() - i,
            {
                let ghost whole = value_view(*v);
                assert(decreases_to!(whole => whole->Object_0));
                assert(decreases_to!(whole->Object_0 => whole->Object_0[i as int]));
                assert(decreases_to!(whole->Object_0[i as int] => whole->Object_0[i as int].1));
                put(&mut out, fields[i].0.as_str(), from_value(fields[i].1));
                assert(field_views(out@) =~= all.take(i as int + 1));
                i = i + 1;
            }
            assert(all.take(i as int) =~= all);
            Json::Object(out)
        },
    }
}

/// What a value of `serde_json` is built of.
enum Piece {
    Null,
    Bool(bool),
    UInt(u64),
    Str(String),
    Array(Vec<serde_json::Value>),
    Object(Vec<(String, serde_json::Value)>),
}

/// What the value built of the piece holds.
spec fn piece_view(p: Piece) -> JsonView {
    match p {
        Piece::Null => JsonView::Null,
        Piece::Bool(b) => JsonView::Bool(b),
        Piece::UInt(n) => JsonView::UInt(n),
        Piece::Str(s) => JsonView::Str(s@),
        Piece::Array(items) => JsonView::Array(value_views(items@)),
        Piece::Object(fields) => JsonView::Object(
            order::exchanged(order::keyed(fields@), |v: serde_json::Value| value_view(v)),
        ),
    }
}

/// The variants of `serde_json::Value`, built: `Value::from` for a number, the
/// variant itself for all else. Fields whose names are in order, none twice,
/// stand in the map that is collected of them as they were given.
#[verifier::external_body]
fn build_value(p: Piece) -> (r: serde_json::Value)
    requires
        p matches Piece::Object(fields) ==> shelf::ordered(order::keyed(fields@)),
    ensures
        value_view(r) == piece_view(p),
{
    match p {
        Piece::Null => serde_json::Value::Null,
        Piece::Bool(b) => serde_json::Value::Bool(b),
        Piece::UInt(n) => serde_json::Value::from(n),
        Piece::Str(s) => serde_json::Value::String(s),
        Piece::Array(items) => serde_json::Value::Array(items),
        Piece::Object(fields) => serde_json::Value::Object(fields.into_iter().collect()),
    }
}

/// A value as `serde_json` holds it: fields by name, of a name the first alone,
/// and a number as its text is read, or as a string where it is no JSON.
pub open spec fn normal(j: JsonView) -> JsonView
    decreases j,
{
    match j {
        JsonView::Number(s) => match json_value(s) {
            Some(v) => v,
            None => JsonView::Str(s),
        },
        JsonView::Array(items) => JsonView::Array(normal_items(items)),
        JsonView::Object(fields) => JsonView::Object(normal_fields(fields)),
        _ => j,
    }
}

/// Items as `serde_json` holds them.
pub open spec fn normal_items(items: Seq<JsonView>) -> Seq<JsonView>
    decreases items,
{
    if items.len() == 0 {
        seq![]
    } else {
        normal_items(items.drop_last()).push(normal(items[items.len() - 1]))
    }
}

/// Fields as `serde_json` holds them.
pub open spec fn normal_fields(fields: Seq<(Seq<char>, JsonView)>) -> Seq<(Seq<char>, JsonView)>
    decreases fields,
{
    if fields.len() == 0 {
        seq![]
    } else {
        let before = normal_fields(fields.drop_last());
        let name = fields[fields.len() - 1].0;
        if shelf::holds(before, name) {
            before
        } else {
            shelf::with(before, name, normal(fields[fields.len() - 1].1))
        }
    }
}

/// A value as `serde_json` holds it.
pub fn to_value(j: &Json) -> (r: serde_json::Value)
    ensures
        value_view(r) == normal(j@),
    decreases *j,
{
    match j {
        Json::Null => build_value(Piece::Null),
        Json::Bool(b) => build_value(Piece::Bool(*b)),
        Json::UInt(n) => build_value(Piece::UInt(*n)),
        Json::Number(s) => match read_value(s.as_str()) {
            Some(v) => v,
            None => build_value(Piece::Str(s.clone())),
        },
        Json::Str(s) => build_value(Piece::Str(s.clone())),
        Json::Array(items) => {
            let ghost all = item_views(items@);
            let mut out: Vec<serde_json::Value> = Vec::new();
            let mut i: usize = 0;
            proof {
                lemma_item_views(items@);
                assert(all.take(0) =~= seq![]);
                assert(value_views(out@) =~= seq![]);
            }
            while i < items.len()
                invariant
                    i <= items@.len(),
                    *j == Json::Array(*items),
                    all.len() == items@.len(),
                    forall|k: int|
                        0 <= k < items@.len() ==> #[trigger] all[k] == json_view(items@[k]),
                    value_views(out@) == normal_items(all.take(i as int)),
                decreases items@.len() - i,
            {
                assert(decreases_to!(*j => j->Array_0));
                assert(decreases_to!(*items => items@));
                assert(decreases_to!(items@ => items@[i as int]));
                assert(all.take(i as int + 1).drop_last() =~= all.take(i as int));
                let ghost was = out@;
                let v = to_value(&items[i]);
                out.push(v);
                assert(value_views(out@) =~= value_views(was).push(value_view(v)));
                i = i + 1;
            }
            assert(all.take(i as int) =~= all);
            build_value(Piece::Array(out))
        },
        Json::Object(fields) => {
            let ghost all = field_views(fields@);
            let ghost f = |v: serde_json::Value| value_view(v);
            let mut out: Shelf<serde_json::Value> = Shelf::new();
            let mut i: usize = 0;
            proof {
                lemma_field_views(fields@);
                assert(all.take(0) =~= seq![]);
                assert(order::exchanged(out@, f) =~= seq![]);
            }
            while i < fields.len()
                invariant
                    i <= fields@.len(),
                    *j == Json::Object(*fields),
                    f == (|v: serde_json::Value| value_view(v)),
                    all.len() == fields@.len(),
                    forall|k: int|
                        0 <= k < fields@.len() ==> #[trigger] all[k] == (
                            fields@[k].0@,
                            json_view(fields@[k].1),
                        ),
                    shelf::ordered(out@),
                    order::exchanged(out@, f) == normal_fields(all.take(i as int)),
                decreases fields@.len() - i,
            {
                assert(decreases_to!(*j => j->Object_0));
                assert(decreases_to!(*fields => fields@));
                assert(decreases_to!(fields@ => fields@[i as int]));
                assert(decreases_to!(fields@[i as int] => fields@[i as int].1));
                assert(all.take(i as int + 1).drop_last() =~= all.take(i as int));
                let name = fields[i].0.as_str();
                let held = out.get(name).is_some();
                let v = to_value(&fields[i].1);
                proof {
                    shelf::law_records_are_seen_through(out@, f, name@, v);
                    shelf::law_the_order_is_kept(out@, name@, v);
                }
                if !held {
                    out.put(name, v);
                }
                i = i + 1;
            }
            assert(all.take(i as int) =~= all);
            build_value(Piece::Object(out.items))
        },
    }
}

// ------------------------------------------------------------------- reading
/// The value that a text stands for as JSON, as `serde_json` reads it, or
/// nothing where the text is no JSON value.
pub uninterp spec fn json_value(text: Seq<char>) -> Option<JsonView>;

/// What is behind an optional value of `serde_json`.
spec fn opt_value_view(v: Option<serde_json::Value>) -> Option<JsonView> {
    match v {
        Some(v) => Some(value_view(v)),
        None => None,
    }
}

/// `serde_json::from_str` on the whole of `text`. Its result depends on the
/// text alone; what it is for which text is not said here.
#[verifier::external_body]
fn read_value(text: &str) -> (r: Option<serde_json::Value>)
    ensures
        opt_value_view(r) == json_value(text@),
{
    serde_json::from_str(text).ok()
}

/// What an optional value holds.
pub open spec fn tree_view(j: Option<Json>) -> Option<JsonView> {
    match j {
        Some(j) => Some(j@),
        None => None,
    }
}

/// Reads a whole text as JSON.
pub fn parse(s: &str) -> (r: Option<Json>)
    ensures
        tree_view(r) == json_value(s@),
        tree_view(r) matches Some(j) ==> tidy(j),
{
    match read_value(s) {
        Some(v) => Some(from_value(&v)),
        None => None,
    }
}

// ------------------------------------------------------------------- writing
/// The text that `serde_json` writes for a value, without a space or a line
/// break between its parts.
pub uninterp spec fn compact_text(j: JsonView) -> Seq<char>;

/// The text that `serde_json` writes for a value, indented, for people.
pub uninterp spec fn pretty_text(j: JsonView) -> Seq<char>;

/// How deep values may nest for `serde_json` to read them.
pub const MAX_DEPTH: usize = 127;

/// The name by which `serde_json` marks a raw value. An object that starts with
/// it is read as what the marked text stands for.
pub const RAW_MARK: &'static str = "$serde_json::private::RawValue";

/// A value that reads back from its text as it was: it nests no deeper than
/// `depth`, and no object in it starts with the mark of a raw value.
pub open spec fn reads_back(j: JsonView, depth: nat) -> bool
    decreases depth,
{
    match j {
        JsonView::Array(items) => depth > 0 && forall|i: int|
            0 <= i < items.len() ==> reads_back(#[trigger] items[i], (depth - 1) as nat),
        JsonView::Object(fields) => depth > 0 && forall|i: int|
            0 <= i < fields.len() ==> reads_back((#[trigger] fields[i]).1, (depth - 1) as nat) && (
            i == 0 ==> fields[i].0 != RAW_MARK@),
        _ => true,
    }
}

/// What holds of the text written for a value. It is one line. It reads back
/// as the value, where the nesting is not too deep and no object starts with
/// the mark of a raw value; and of an array or an object it is one span, from
/// the bracket that opens it to the bracket that closes it.
pub open spec fn well_written(j: JsonView, text: Seq<char>) -> bool {
    &&& forall|k: int| 0 <= k < text.len() ==> #[trigger] text[k] != '\n'
    &&& reads_back(j, MAX_DEPTH as nat) ==> json_value(text) == Some(j)
    &&& j is Array || j is Object ==> text.len() > 0 && host::span_end(text, 0) == Some(
        text.len() - 1,
    )
}

/// `serde_json::to_string`, which does not fail on a `serde_json::Value`. The
/// text depends on the value alone. Control characters, quotes and backslashes
/// in it are escaped, so it is one line, and a bracket outside a string is
/// structure. `from_str` gives the value back, fractions too, since the feature
/// `float_roundtrip` is on; not past its limit on nesting, and not where an
/// object starts with the name by which `serde_json` marks a raw value.
#[verifier::external_body]
fn write_value(v: &serde_json::Value) -> (r: String)
    ensures
        r@ == compact_text(value_view(*v)),
        well_written(value_view(*v), r@),
{
    serde_json::to_string(v).unwrap_or_default()
}

/// `serde_json::to_string_pretty`, which does not fail on a
/// `serde_json::Value`. The text depends on the value alone; what it is for
/// which value is not said here.
#[verifier::external_body]
fn write_value_pretty(v: &serde_json::Value) -> (r: String)
    ensures
        r@ == pretty_text(value_view(*v)),
{
    serde_json::to_string_pretty(v).unwrap_or_default()
}

/// Writes a value in one line.
pub fn to_text(j: &Json) -> (r: String)
    ensures
        r@ == compact_text(normal(j@)),
        well_written(normal(j@), r@),
{
    write_value(&to_value(j))
}

/// Writes a value for people.
pub fn to_pretty_text(j: &Json) -> (r: String)
    ensures
        r@ == pretty_text(normal(j@)),
{
    write_value_pretty(&to_value(j))
}

// ----------------------------------------------------------------------- laws
/// A value that `serde_json` holds as it is: every number in text reads as that
/// number, and the fields of every object are in the order of their names, none
/// twice. It is so of every value that was read.
pub open spec fn tidy(j: JsonView) -> bool
    decreases j,
{
    match j {
        JsonView::Number(s) => json_value(s) == Some(j),
        JsonView::Array(items) => forall|i: int|
            0 <= i < items.len() ==> tidy(#[trigger] items[i]),
        JsonView::Object(fields) => shelf::ordered(fields) && forall|i: int|
            0 <= i < fields.len() ==> tidy((#[trigger] fields[i]).1),
        _ => true,
    }
}

proof fn lemma_tidy_items(items: Seq<JsonView>)
    requires
        forall|i: int| 0 <= i < items.len() ==> tidy(#[trigger] items[i]),
    ensures
        normal_items(items) == items,
    decreases items,
{
    if items.len() > 0 {
        let front = items.drop_last();
        assert forall|i: int| 0 <= i < front.len() implies tidy(#[trigger] front[i]) by {
            assert(front[i] == items[i]);
        }
        lemma_tidy_items(front);
        law_a_tidy_value_stays_as_it_is(items[items.len() - 1]);
        assert(front.push(items[items.len() - 1]) =~= items);
    }
}

proof fn lemma_tidy_fields(fields: Seq<(Seq<char>, JsonView)>)
    requires
        shelf::ordered(fields),
        forall|i: int| 0 <= i < fields.len() ==> tidy((#[trigger] fields[i]).1),
    ensures
        normal_fields(fields) == fields,
    decreases fields,
{
    if fields.len() > 0 {
        let front = fields.drop_last();
        let last = fields[fields.len() - 1];
        assert forall|i: int| 0 <= i < front.len() implies tidy((#[trigger] front[i]).1) by {
            assert(front[i] == fields[i]);
        }
        assert forall|i: int, k: int| 0 <= i < k < front.len() implies order::less(
            (#[trigger] front[i]).0,
            (#[trigger] front[k]).0,
        ) by {
            assert(front[i] == fields[i] && front[k] == fields[k]);
        }
        lemma_tidy_fields(front);
        law_a_tidy_value_stays_as_it_is(last.1);
        assert(front.push((last.0, last.1)) =~= fields);
        shelf::law_the_greatest_goes_last(front, last.0, last.1);
    }
}

/// A tidy value goes to `serde_json` as it is.
pub proof fn law_a_tidy_value_stays_as_it_is(j: JsonView)
    requires
        tidy(j),
    ensures
        normal(j) == j,
    decreases j,
{
    match j {
        JsonView::Array(items) => {
            lemma_tidy_items(items);
        },
        JsonView::Object(fields) => {
            lemma_tidy_fields(fields);
        },
        _ => {},
    }
}

/// The first of the fields that has a name is at the front, or is the last.
proof fn lemma_lookup_last(fields: Seq<(Seq<char>, JsonView)>, key: Seq<char>)
    requires
        fields.len() > 0,
    ensures
        lookup(fields, key) == (match lookup(fields.drop_last(), key) {
            Some(v) => Some(v),
            None => if fields.last().0 == key {
                Some(fields.last().1)
            } else {
                None
            },
        }),
    decreases fields.len(),
{
    if fields.len() > 1 && fields[0].0 != key {
        lemma_lookup_last(fields.skip(1), key);
        assert(fields.skip(1).drop_last() =~= fields.drop_last().skip(1));
        assert(fields.drop_last()[0] == fields[0]);
    } else if fields.len() == 1 {
        assert(fields.drop_last() =~= seq![]);
        assert(fields.skip(1) =~= seq![]);
    } else {
        assert(fields.drop_last()[0] == fields[0]);
    }
}

/// A lookup finds a field that there is, or there is none of the name.
proof fn lemma_lookup(fields: Seq<(Seq<char>, JsonView)>, key: Seq<char>) -> (i: int)
    ensures
        match lookup(fields, key) {
            Some(v) => 0 <= i < fields.len() && fields[i] == (key, v),
            None => forall|k: int| 0 <= k < fields.len() ==> (#[trigger] fields[k]).0 != key,
        },
    decreases fields.len(),
{
    if fields.len() == 0 || fields[0].0 == key {
        0
    } else {
        let i = lemma_lookup(fields.skip(1), key);
        assert forall|k: int| lookup(fields, key) is None && 0 <= k < fields.len() implies (
        #[trigger] fields[k]).0 != key by {
            if k > 0 {
                assert(fields.skip(1)[k - 1] == fields[k]);
            }
        }
        i + 1
    }
}

proof fn lemma_normal_fields(fields: Seq<(Seq<char>, JsonView)>, key: Seq<char>)
    ensures
        shelf::ordered(normal_fields(fields)),
        shelf::got(normal_fields(fields), key) == (match lookup(fields, key) {
            Some(v) => Some(normal(v)),
            None => None,
        }),
    decreases fields.len(),
{
    if fields.len() > 0 {
        let front = fields.drop_last();
        let last = fields[fields.len() - 1];
        let before = normal_fields(front);
        lemma_normal_fields(front, key);
        lemma_normal_fields(front, last.0);
        lemma_lookup_last(fields, key);
        shelf::law_the_order_is_kept(before, last.0, normal(last.1));
        if !shelf::holds(before, last.0) {
            shelf::law_a_put_is_got_back(before, last.0, normal(last.1), key);
        }
    }
}

/// A value goes to `serde_json` with the fields that it has: each is found
/// under its name, and no other is.
pub proof fn law_fields_are_found_where_they_were(j: JsonView, key: Seq<char>)
    requires
        !(j is Number),
    ensures
        normal(j).field(key) == (match j.field(key) {
            Some(v) => Some(normal(v)),
            None => None,
        }),
        normal(j) is Object <==> j is Object,
{
    if let JsonView::Object(fields) = j {
        let all = normal_fields(fields);
        lemma_normal_fields(fields, key);
        let i = lemma_lookup(all, key);
        if lookup(all, key) is Some {
            shelf::law_what_is_held_is_got(all, key, i);
        } else if shelf::holds(all, key) {
            order::lemma_place(all, key, false);
            assert(all[order::place(all, key, false)].0 == key);
        }
    }
}

/// What is in a tidy value is tidy.
pub proof fn law_a_field_of_a_tidy_value_is_tidy(j: JsonView, key: Seq<char>)
    requires
        tidy(j),
    ensures
        j.field(key) matches Some(v) ==> tidy(v),
{
    if let JsonView::Object(fields) = j {
        let i = lemma_lookup(fields, key);
        if lookup(fields, key) is Some {
            assert(tidy(fields[i].1));
        }
    }
}

/// A tidy value that is written reads back as it was.
pub proof fn law_what_was_written_reads_back(j: JsonView, text: Seq<char>)
    requires
        tidy(j),
        reads_back(j, MAX_DEPTH as nat),
        well_written(normal(j), text),
    ensures
        json_value(text) == Some(j),
{
    law_a_tidy_value_stays_as_it_is(j);
}

/// The first field of a name is the one that counts, and where there is none of
/// the name there is no value.
pub proof fn law_the_first_field_of_a_name_counts(
    fields: Seq<(Seq<char>, JsonView)>,
    key: Seq<char>,
    at: int,
)
    requires
        0 <= at <= fields.len(),
        at < fields.len() ==> fields[at].0 == key,
        forall|i: int| 0 <= i < at ==> (#[trigger] fields[i]).0 != key,
    ensures
        at < fields.len() ==> lookup(fields, key) == Some(fields[at].1),
        at == fields.len() ==> lookup(fields, key) is None,
        JsonView::Object(fields).field(key) == lookup(fields, key),
    decreases at,
{
    if at > 0 {
        let rest = fields.skip(1);
        assert(fields[0].0 != key);
        assert forall|i: int| 0 <= i < at - 1 implies (#[trigger] rest[i]).0 != key by {
            assert(rest[i] == fields[i + 1]);
        }
        law_the_first_field_of_a_name_counts(rest, key, at - 1);
    }
}

/// A number that is whole and fits is held as what it is, and any other by its
/// text.
pub proof fn law_a_number_is_held_as_it_is(s: Seq<char>)
    ensures
        (text::number(s) matches Some(n) && n <= u64::MAX) ==> number_value(s) == JsonView::UInt(
            text::number(s)->0 as u64,
        ),
        !(text::number(s) matches Some(n) && n <= u64::MAX) ==> number_value(s)
            == JsonView::Number(s),
{
}

} // verus!
