//! JSON values, read and written with `serde_json`.
use vstd::prelude::*;

use crate::table;
use crate::text::same;

verus! {

/// A JSON value.
#[derive(Debug)]
pub enum Json {
    Null,
    Bool(bool),
    Number(serde_json::Number),
    Text(String),
    Array(Vec<Json>),
    Object(JsonObject),
}

/// The fields of a JSON object. Of two fields with one name the later one counts.
#[derive(Debug)]
pub struct JsonObject {
    pub fields: Vec<(String, Json)>,
}

/// What a JSON value is: two objects with the same fields are the same, in whatever order they
/// were written.
pub enum JsonView {
    Null,
    Bool(bool),
    Number(serde_json::Number),
    Text(Seq<char>),
    Array(Seq<JsonView>),
    Object(Map<Seq<char>, JsonView>),
}

/// A number as `serde_json` holds it.
#[verifier::external_type_specification]
#[verifier::external_body]
pub struct ExNumber(serde_json::Number);

/// A value as `serde_json` holds it.
#[verifier::external_type_specification]
#[verifier::external_body]
pub struct ExValue(serde_json::Value);

/// Why `serde_json` did not read or write a value.
#[verifier::external_type_specification]
#[verifier::external_body]
pub struct ExError(serde_json::Error);

pub open spec fn json_view(value: Json) -> JsonView
    decreases value,
{
    match value {
        Json::Null => JsonView::Null,
        Json::Bool(flag) => JsonView::Bool(flag),
        Json::Number(number) => JsonView::Number(number),
        Json::Text(text) => JsonView::Text(text@),
        Json::Array(items) => JsonView::Array(
            Seq::new(
                items@.len(),
                |i: int|
                    if 0 <= i < items@.len() {
                        json_view(items@[i])
                    } else {
                        JsonView::Null
                    },
            ),
        ),
        Json::Object(object) => JsonView::Object(table::map_of(pairs_view(object))),
    }
}

pub open spec fn pairs_view(object: JsonObject) -> Seq<(Seq<char>, JsonView)>
    decreases object,
{
    Seq::new(
        object.fields@.len(),
        |i: int|
            if 0 <= i < object.fields@.len() {
                (object.fields@[i].0@, json_view(object.fields@[i].1))
            } else {
                (Seq::empty(), JsonView::Null)
            },
    )
}

impl View for Json {
    type V = JsonView;

    open spec fn view(&self) -> JsonView {
        json_view(*self)
    }
}

impl View for JsonObject {
    type V = Map<Seq<char>, JsonView>;

    open spec fn view(&self) -> Map<Seq<char>, JsonView> {
        table::map_of(pairs_view(*self))
    }
}

impl DeepView for Json {
    type V = JsonView;

    open spec fn deep_view(&self) -> JsonView {
        json_view(*self)
    }
}

/// What a `serde_json` value is.
pub uninterp spec fn json_shape(value: serde_json::Value) -> JsonView;

/// What `serde_json::from_str` reads from a text.
pub uninterp spec fn json_parsed(text: Seq<char>) -> Result<JsonView, serde_json::Error>;

/// What `serde_json::to_string` writes of a value.
pub uninterp spec fn json_compact(value: JsonView) -> Seq<char>;

/// What `serde_json::to_string_pretty` writes of a value.
pub uninterp spec fn json_pretty(value: JsonView) -> Seq<char>;

/// What a `serde_json` error says when it is shown.
pub uninterp spec fn error_text(error: serde_json::Error) -> Seq<char>;

/// The number that `serde_json` makes of an unsigned integer.
pub uninterp spec fn whole_number(n: u64) -> serde_json::Number;

/// The integer that a `serde_json` number holds, where it holds one and no fraction.
pub uninterp spec fn number_integer(number: serde_json::Number) -> Option<int>;

/// The integer that a number holds, where it fits in `u64`.
pub open spec fn number_u64(number: serde_json::Number) -> Option<u64> {
    match number_integer(number) {
        Some(n) => if 0 <= n <= u64::MAX {
            Some(n as u64)
        } else {
            None
        },
        None => None,
    }
}

/// The integer that a number holds, where it fits in `i64`.
pub open spec fn number_i64(number: serde_json::Number) -> Option<i64> {
    match number_integer(number) {
        Some(n) => if i64::MIN <= n <= i64::MAX {
            Some(n as i64)
        } else {
            None
        },
        None => None,
    }
}

/// One level of a JSON value, whose parts are values of `serde_json`.
pub enum Layer {
    Null,
    Bool(bool),
    Number(serde_json::Number),
    Text(String),
    Array(Vec<serde_json::Value>),
    Object(Vec<(String, serde_json::Value)>),
}

/// What a value is that has `layer` at its top.
pub open spec fn layer_shape(layer: Layer) -> JsonView {
    match layer {
        Layer::Null => JsonView::Null,
        Layer::Bool(flag) => JsonView::Bool(flag),
        Layer::Number(number) => JsonView::Number(number),
        Layer::Text(text) => JsonView::Text(text@),
        Layer::Array(items) => JsonView::Array(
            Seq::new(items@.len(), |i: int| json_shape(items@[i])),
        ),
        Layer::Object(fields) => JsonView::Object(table::map_of(layer_pairs(fields@))),
    }
}

pub open spec fn layer_pairs(fields: Seq<(String, serde_json::Value)>) -> Seq<
    (Seq<char>, JsonView),
> {
    Seq::new(fields.len(), |i: int| (fields[i].0@, json_shape(fields[i].1)))
}

/// Takes the variants of `serde_json::Value` apart. An object hands out each of its fields once,
/// so no name occurs twice.
#[verifier::external_body]
fn open(value: serde_json::Value) -> (layer: Layer)
    ensures
        layer_shape(layer) == json_shape(value),
        layer matches Layer::Object(fields) ==> table::distinct(layer_pairs(fields@)),
{
    match value {
        serde_json::Value::Null => Layer::Null,
        serde_json::Value::Bool(flag) => Layer::Bool(flag),
        serde_json::Value::Number(number) => Layer::Number(number),
        serde_json::Value::String(text) => Layer::Text(text),
        serde_json::Value::Array(items) => Layer::Array(items),
        serde_json::Value::Object(fields) => Layer::Object(fields.into_iter().collect()),
    }
}

/// Builds a variant of `serde_json::Value`. The fields of an object are collected, each under its
/// own name.
#[verifier::external_body]
fn close(layer: Layer) -> (value: serde_json::Value)
    requires
        layer matches Layer::Object(fields) ==> table::distinct(layer_pairs(fields@)),
    ensures
        json_shape(value) == layer_shape(layer),
{
    match layer {
        Layer::Null => serde_json::Value::Null,
        Layer::Bool(flag) => serde_json::Value::Bool(flag),
        Layer::Number(number) => serde_json::Value::Number(number),
        Layer::Text(text) => serde_json::Value::String(text),
        Layer::Array(items) => serde_json::Value::Array(items),
        Layer::Object(fields) => serde_json::Value::Object(fields.into_iter().collect()),
    }
}

/// A value whose numbers are all integers, with at most `levels` arrays and objects in one another.
pub open spec fn plain(value: JsonView, levels: nat) -> bool
    decreases levels,
{
    match value {
        JsonView::Number(number) => number_integer(number) is Some,
        JsonView::Array(items) => levels > 0 && forall|i: int|
            0 <= i < items.len() ==> plain(#[trigger] items[i], (levels - 1) as nat),
        JsonView::Object(fields) => levels > 0 && forall|name: Seq<char>|
            fields.contains_key(name) ==> plain(#[trigger] fields[name], (levels - 1) as nat),
        _ => true,
    }
}

/// The levels of arrays and objects that `serde_json` reads.
pub const READABLE_LEVELS: usize = 127;

/// Whether two values are the same but for the fractions in them, down to `levels` arrays and
/// objects in one another.
pub open spec fn alike(a: JsonView, b: JsonView, levels: nat) -> bool
    decreases levels,
{
    match (a, b) {
        (JsonView::Null, JsonView::Null) => true,
        (JsonView::Bool(x), JsonView::Bool(y)) => x == y,
        (JsonView::Number(x), JsonView::Number(y)) => number_integer(x) == number_integer(y) && (
        number_integer(x) is Some ==> x == y),
        (JsonView::Text(x), JsonView::Text(y)) => x == y,
        (JsonView::Array(x), JsonView::Array(y)) => levels > 0 && x.len() == y.len() && forall|
            i: int,
        |
            0 <= i < x.len() ==> alike(#[trigger] x[i], y[i], (levels - 1) as nat),
        (JsonView::Object(x), JsonView::Object(y)) => levels > 0 && x.dom() == y.dom() && forall|
            name: Seq<char>,
        |
            x.contains_key(name) ==> alike(#[trigger] x[name], y[name], (levels - 1) as nat),
        _ => false,
    }
}

/// Whether `source` is read as `value`: what is read of it is the same but for fractions, whose last
/// digit may change, and a value without fractions that is not nested too deeply is read as it is.
pub open spec fn reads_back(source: Seq<char>, value: JsonView) -> bool {
    match json_parsed(source) {
        Ok(found) => alike(found, value, READABLE_LEVELS as nat) && (plain(
            value,
            READABLE_LEVELS as nat,
        ) ==> found == value),
        Err(_) => !plain(value, READABLE_LEVELS as nat),
    }
}

/// Calls `serde_json::from_str` for a `serde_json::Value`: the same text always gives the same
/// value or the same error.
#[verifier::external_body]
fn read_value(source: &str) -> (r: Result<serde_json::Value, serde_json::Error>)
    ensures
        match r {
            Ok(value) => json_parsed(source@) == Ok::<JsonView, serde_json::Error>(
                json_shape(value),
            ),
            Err(error) => json_parsed(source@) == Err::<JsonView, serde_json::Error>(error),
        },
{
    serde_json::from_str(source)
}

/// Calls `serde_json::to_string`: the same value always gives the same text. A value is always
/// written, since its keys are texts and its numbers are finite.
#[verifier::external_body]
fn write_value(value: &serde_json::Value) -> (r: Result<String, serde_json::Error>)
    ensures
        match r {
            Ok(text) => text@ == json_compact(json_shape(*value)),
            Err(_) => false,
        },
{
    serde_json::to_string(value)
}

/// Calls `serde_json::to_string_pretty`: the same value always gives the same text, and a value is
/// always written. The text with a line feed behind it is read back as the value, up to the last
/// digit of the fractions in it.
#[verifier::external_body]
fn write_value_pretty(value: &serde_json::Value) -> (r: Result<String, serde_json::Error>)
    ensures
        match r {
            Ok(text) => text@ == json_pretty(json_shape(*value)) && reads_back(
                text@ + "\n"@,
                json_shape(*value),
            ),
            Err(_) => false,
        },
{
    serde_json::to_string_pretty(value)
}

/// Shows a `serde_json::Error` as `Display` does.
#[verifier::external_body]
pub(crate) fn describe(error: &serde_json::Error) -> (r: String)
    ensures
        r@ == error_text(*error),
{
    error.to_string()
}

/// Calls `serde_json::Number::from` for an unsigned integer, which the number then holds.
#[verifier::external_body]
fn number_from(n: u64) -> (r: serde_json::Number)
    ensures
        r == whole_number(n),
        number_integer(r) == Some(n as int),
{
    serde_json::Number::from(n)
}

/// The clone of a `serde_json::Number` is the same number.
pub assume_specification[ <serde_json::Number as Clone>::clone ](
    number: &serde_json::Number,
) -> (r: serde_json::Number)
    ensures
        r == *number,
;

/// `serde_json::Number::as_u64` gives the integer that the number holds, where it fits in `u64`.
pub assume_specification[ serde_json::Number::as_u64 ](
    number: &serde_json::Number,
) -> (r: Option<u64>)
    ensures
        r == number_u64(*number),
;

/// `serde_json::Number::as_i64` gives the integer that the number holds, where it fits in `i64`.
pub assume_specification[ serde_json::Number::as_i64 ](
    number: &serde_json::Number,
) -> (r: Option<i64>)
    ensures
        r == number_i64(*number),
;

/// Turns a `serde_json` value into a value of the library.
fn from_value(value: serde_json::Value) -> (r: Json)
    ensures
        r@ == json_shape(value),
    decreases json_shape(value),
{
    match open(value) {
        Layer::Null => Json::Null,
        Layer::Bool(flag) => Json::Bool(flag),
        Layer::Number(number) => Json::Number(number),
        Layer::Text(text) => Json::Text(text),
        Layer::Array(items) => {
            let ghost all = items@;
            let mut out: Vec<Json> = Vec::new();
            for item in it: items
                invariant
                    it.seq() == all,
                    json_shape(value) == JsonView::Array(
                        Seq::new(all.len(), |i: int| json_shape(all[i])),
                    ),
                    out@.len() == it.index(),
                    forall|i: int| 0 <= i < out@.len() ==> (#[trigger] out@[i])@ == json_shape(all[i]),
            {
                let ghost k = out@.len() as int;
                assert(json_shape(value)->Array_0[k] == json_shape(all[k]));
                out.push(from_value(item));
            }
            let r = Json::Array(out);
            assert(r@->Array_0 =~= json_shape(value)->Array_0);
            r
        },
        Layer::Object(fields) => {
            let ghost all = fields@;
            let ghost pairs = layer_pairs(all);
            let mut out: Vec<(String, Json)> = Vec::new();
            for field in it: fields
                invariant
                    it.seq() == all,
                    json_shape(value) == JsonView::Object(table::map_of(pairs)),
                    pairs == layer_pairs(all),
                    table::distinct(pairs),
                    out@.len() == it.index(),
                    forall|i: int|
                        0 <= i < out@.len() ==> (#[trigger] out@[i]).0@ == pairs[i].0 && out@[i].1@
                            == pairs[i].1,
            {
                let ghost k = out@.len() as int;
                proof {
                    assert forall|i: int| k < i < pairs.len() implies (#[trigger] pairs[i]).0
                        != pairs[k].0 by {
                        assert(pairs[k].0 != pairs[i].0);
                    }
                    table::lemma_last_counts(pairs, k);
                    assert(json_shape(value)->Object_0[pairs[k].0] == json_shape(all[k].1));
                }
                out.push((field.0, from_value(field.1)));
            }
            let object = JsonObject { fields: out };
            assert(pairs_view(object) =~= pairs);
            Json::Object(object)
        },
    }
}

/// Turns a value of the library into a `serde_json` value.
fn to_value(json: &Json) -> (r: serde_json::Value)
    ensures
        json_shape(r) == json@,
    decreases *json,
{
    match json {
        Json::Null => close(Layer::Null),
        Json::Bool(flag) => close(Layer::Bool(*flag)),
        Json::Number(number) => close(Layer::Number(number.clone())),
        Json::Text(text) => close(Layer::Text(text.clone())),
        Json::Array(items) => {
            let mut out: Vec<serde_json::Value> = Vec::new();
            let mut i: usize = 0;
            while i < items.len()
                invariant
                    i <= items@.len(),
                    *json == Json::Array(*items),
                    out@.len() == i,
                    forall|k: int| 0 <= k < i ==> json_shape(#[trigger] out@[k]) == items@[k]@,
                decreases items@.len() - i,
            {
                assert(decreases_to!(*json => json->Array_0));
                assert(decreases_to!(*items => items[i as int]));
                out.push(to_value(&items[i]));
                i += 1;
            }
            let layer = Layer::Array(out);
            assert(layer_shape(layer)->Array_0 =~= json@->Array_0);
            close(layer)
        },
        Json::Object(object) => {
            let ghost pairs = pairs_view(*object);
            let mut out: Vec<(String, serde_json::Value)> = Vec::new();
            let mut left: usize = object.fields.len();
            assert(layer_pairs(out@) =~= Seq::empty());
            assert(pairs.skip(left as int) =~= Seq::empty());
            while left > 0
                invariant
                    left <= object.fields@.len(),
                    *json == Json::Object(*object),
                    pairs == pairs_view(*object),
                    table::distinct(layer_pairs(out@)),
                    table::map_of(layer_pairs(out@)) == table::map_of(pairs.skip(left as int)),
                decreases left,
            {
                left -= 1;
                let field = &object.fields[left];
                proof {
                    assert(decreases_to!(*json => json->Object_0));
                    assert(decreases_to!(*object => object.fields));
                    assert(decreases_to!(object.fields => object.fields[left as int]));
                    assert(decreases_to!(object.fields[left as int] => object.fields[left as int].1));
                    assert(pairs.skip(left as int) =~= seq![pairs[left as int]] + pairs.skip(
                        left + 1,
                    ));
                    table::lemma_in_front(pairs[left as int], pairs.skip(left + 1));
                }
                if !is_there(&out, field.0.as_str()) {
                    let ghost before = layer_pairs(out@);
                    out.push((field.0.clone(), to_value(&field.1)));
                    proof {
                        let after = layer_pairs(out@);
                        assert(after.drop_last() =~= before);
                        assert forall|i: int, j: int| 0 <= i < j < after.len() implies (
                        #[trigger] after[i]).0 != (#[trigger] after[j]).0 by {
                            assert(after[i] == before[i]);
                            if j < before.len() {
                                assert(after[j] == before[j]);
                            }
                        }
                    }
                }
            }
            assert(pairs.skip(0) =~= pairs);
            close(Layer::Object(out))
        },
    }
}

/// Whether one of `fields` has a name.
fn is_there(fields: &Vec<(String, serde_json::Value)>, name: &str) -> (r: bool)
    ensures
        r == table::map_of(layer_pairs(fields@)).contains_key(name@),
        !r ==> forall|i: int|
            0 <= i < fields@.len() ==> (#[trigger] layer_pairs(fields@)[i]).0 != name@,
{
    let ghost pairs = layer_pairs(fields@);
    let mut i: usize = 0;
    while i < fields.len()
        invariant
            i <= fields@.len(),
            pairs == layer_pairs(fields@),
            forall|k: int| 0 <= k < i ==> (#[trigger] pairs[k]).0 != name@,
        decreases fields@.len() - i,
    {
        if same(fields[i].0.as_str(), name) {
            proof {
                table::lemma_present(pairs, i as int);
            }
            return true;
        }
        i += 1;
    }
    proof {
        table::lemma_absent(pairs, name@);
    }
    false
}

/// The field of an object, if `value` is an object that has it.
pub open spec fn field(value: JsonView, name: Seq<char>) -> Option<JsonView> {
    match value {
        JsonView::Object(fields) => if fields.contains_key(name) {
            Some(fields[name])
        } else {
            None
        },
        _ => None,
    }
}

/// The field of an object as a text, if it is one.
pub open spec fn text_field(value: JsonView, name: Seq<char>) -> Option<Seq<char>> {
    match field(value, name) {
        Some(JsonView::Text(text)) => Some(text),
        _ => None,
    }
}

/// The field of an object as an array, if it is one.
pub open spec fn array_field(value: JsonView, name: Seq<char>) -> Option<Seq<JsonView>> {
    match field(value, name) {
        Some(JsonView::Array(items)) => Some(items),
        _ => None,
    }
}

/// The field of an object as a signed integer, if it is one.
pub open spec fn i64_field(value: JsonView, name: Seq<char>) -> Option<i64> {
    match field(value, name) {
        Some(JsonView::Number(number)) => number_i64(number),
        _ => None,
    }
}

/// The field of an object as an unsigned integer, if it is one.
pub open spec fn u64_field(value: JsonView, name: Seq<char>) -> Option<u64> {
    match field(value, name) {
        Some(JsonView::Number(number)) => number_u64(number),
        _ => None,
    }
}

impl JsonObject {
    pub fn new() -> (r: JsonObject)
        ensures
            r@ == Map::<Seq<char>, JsonView>::empty(),
    {
        let r = JsonObject { fields: Vec::new() };
        assert(pairs_view(r) =~= Seq::empty());
        r
    }

    /// The object with `value` as its field `name`, whatever was there.
    pub fn with(self, name: &str, value: Json) -> (r: JsonObject)
        ensures
            r@ == self@.insert(name@, value@),
    {
        let mut fields = self.fields;
        fields.push((name.to_owned(), value));
        let r = JsonObject { fields };
        assert(pairs_view(r).drop_last() =~= pairs_view(self));
        r
    }

    fn position(&self, name: &str) -> (r: Option<usize>)
        ensures
            match r {
                Some(at) => at < self.fields@.len() && self.fields@[at as int].0@ == name@
                    && self@.contains_key(name@) && self@[name@] == self.fields@[at as int].1@,
                None => !self@.contains_key(name@),
            },
    {
        let mut end: usize = self.fields.len();
        while end > 0
            invariant
                end <= self.fields@.len(),
                forall|i: int| end <= i < self.fields@.len() ==> (#[trigger] self.fields@[i]).0@ != name@,
            decreases end,
        {
            if same(self.fields[end - 1].0.as_str(), name) {
                proof {
                    table::lemma_last_counts(pairs_view(*self), end - 1);
                }
                return Some(end - 1);
            }
            end -= 1;
        }
        proof {
            table::lemma_absent(pairs_view(*self), name@);
        }
        None
    }

    /// The field `name`, if there is one.
    pub fn get(&self, name: &str) -> (r: Option<&Json>)
        ensures
            match r {
                Some(value) => self@.contains_key(name@) && self@[name@] == value@,
                None => !self@.contains_key(name@),
            },
    {
        match self.position(name) {
            Some(at) => Some(&self.fields[at].1),
            None => None,
        }
    }

    /// Moves the field `name` out, and leaves the other fields as they are.
    pub fn take(&mut self, name: &str) -> (r: Option<Json>)
        ensures
            match r {
                Some(value) => old(self)@.contains_key(name@) && old(self)@[name@] == value@,
                None => !old(self)@.contains_key(name@),
            },
            final(self)@ == old(self)@.remove(name@),
    {
        let found = match self.position(name) {
            Some(at) => Some(self.remove_at(at).1),
            None => {
                assert(self@ =~= self@.remove(name@));
                return None;
            },
        };
        let mut left = self.position(name);
        while left.is_some()
            invariant
                self@.remove(name@) == old(self)@.remove(name@),
                match left {
                    Some(at) => at < self.fields@.len() && self.fields@[at as int].0@ == name@,
                    None => !self@.contains_key(name@),
                },
            decreases self.fields@.len(),
        {
            if let Some(at) = left {
                let _ = self.remove_at(at);
            }
            left = self.position(name);
        }
        assert(self@ =~= self@.remove(name@));
        found
    }

    fn remove_at(&mut self, at: usize) -> (r: (String, Json))
        requires
            at < old(self).fields@.len(),
        ensures
            r == old(self).fields@[at as int],
            final(self).fields@.len() == old(self).fields@.len() - 1,
            final(self)@.remove(r.0@) == old(self)@.remove(r.0@),
    {
        let ghost before = pairs_view(*self);
        proof {
            table::lemma_without_pair(before, at as int);
        }
        let field = self.fields.remove(at);
        assert(pairs_view(*self) =~= before.remove(at as int));
        field
    }
}

impl Json {
    /// Reads a JSON text.
    pub fn parse(source: &str) -> (r: Result<Json, serde_json::Error>)
        ensures
            match r {
                Ok(json) => json_parsed(source@) == Ok::<JsonView, serde_json::Error>(json@),
                Err(error) => json_parsed(source@) == Err::<JsonView, serde_json::Error>(error),
            },
    {
        match read_value(source) {
            Ok(value) => Ok(from_value(value)),
            Err(error) => Err(error),
        }
    }

    /// The value on one line, without spaces.
    pub fn compact(&self) -> (r: String)
        ensures
            r@ == json_compact(self@),
    {
        match write_value(&to_value(self)) {
            Ok(text) => text,
            Err(_) => String::new(),
        }
    }

    /// The value on several lines, with its levels set in.
    pub fn pretty(&self) -> (r: String)
        ensures
            r@ == json_pretty(self@),
            reads_back(r@ + "\n"@, self@),
    {
        match write_value_pretty(&to_value(self)) {
            Ok(text) => text,
            Err(_) => String::new(),
        }
    }

    pub fn text(value: &str) -> (r: Json)
        ensures
            r@ == JsonView::Text(value@),
    {
        Json::Text(value.to_owned())
    }

    pub fn number(n: u64) -> (r: Json)
        ensures
            r@ == JsonView::Number(whole_number(n)),
            number_integer(whole_number(n)) == Some(n as int),
    {
        Json::Number(number_from(n))
    }

    pub fn array(items: Vec<Json>) -> (r: Json)
        ensures
            r@ == JsonView::Array(items.deep_view()),
    {
        let r = Json::Array(items);
        assert(r@->Array_0 =~= items.deep_view());
        r
    }

    pub fn object(fields: JsonObject) -> (r: Json)
        ensures
            r@ == JsonView::Object(fields@),
    {
        Json::Object(fields)
    }

    pub fn get(&self, name: &str) -> (r: Option<&Json>)
        ensures
            match r {
                Some(value) => field(self@, name@) == Some(value@),
                None => field(self@, name@) is None,
            },
    {
        match self {
            Json::Object(object) => object.get(name),
            _ => None,
        }
    }

    pub fn as_str(&self) -> (r: Option<&str>)
        ensures
            match r {
                Some(text) => self@ == JsonView::Text(text@),
                None => !(self@ is Text),
            },
    {
        match self {
            Json::Text(text) => Some(text.as_str()),
            _ => None,
        }
    }

    pub fn as_array(&self) -> (r: Option<&Vec<Json>>)
        ensures
            match r {
                Some(items) => self@ == JsonView::Array(items.deep_view()),
                None => !(self@ is Array),
            },
    {
        match self {
            Json::Array(items) => {
                assert(self@->Array_0 =~= items.deep_view());
                Some(items)
            },
            _ => None,
        }
    }

    pub fn text_field(&self, name: &str) -> (r: Option<&str>)
        ensures
            match r {
                Some(text) => text_field(self@, name@) == Some(text@),
                None => text_field(self@, name@) is None,
            },
    {
        match self.get(name) {
            Some(value) => value.as_str(),
            None => None,
        }
    }

    pub fn array_field(&self, name: &str) -> (r: Option<&Vec<Json>>)
        ensures
            match r {
                Some(items) => array_field(self@, name@) == Some(items.deep_view()),
                None => array_field(self@, name@) is None,
            },
    {
        match self.get(name) {
            Some(value) => value.as_array(),
            None => None,
        }
    }

    pub fn i64_field(&self, name: &str) -> (r: Option<i64>)
        ensures
            r == i64_field(self@, name@),
    {
        match self.get(name) {
            Some(Json::Number(number)) => number.as_i64(),
            _ => None,
        }
    }

    pub fn u64_field(&self, name: &str) -> (r: Option<u64>)
        ensures
            r == u64_field(self@, name@),
    {
        match self.get(name) {
            Some(Json::Number(number)) => number.as_u64(),
            _ => None,
        }
    }
}

} // verus!
