//! The bridge between `Json` and the values of `serde_json`.

use vstd::prelude::*;

use crate::generate::formatted;
use crate::json::{
    in_order, json_views, member_views, text_less, with_member, Json, JsonNumber, JsonView, Member,
    NumberView,
};
use crate::json::{
    lemma_json_view, lemma_json_views_push, lemma_member_views_push, lemma_with_last_member,
};
use crate::text::{one_line, quotes_escaped, signed_decimal};

verus! {

/// A JSON value of `serde_json`.
#[verifier::external_type_specification]
#[verifier::external_body]
pub struct ExValue(serde_json::Value);

/// A JSON number of `serde_json`.
#[verifier::external_type_specification]
#[verifier::external_body]
pub struct ExNumber(serde_json::Number);

/// The members of an object of `serde_json`.
#[verifier::external_type_specification]
#[verifier::external_body]
#[verifier::reject_recursive_types(K)]
#[verifier::reject_recursive_types(V)]
pub struct ExMembers<K, V>(serde_json::Map<K, V>);

/// An error of `serde_json`.
#[verifier::external_type_specification]
#[verifier::external_body]
pub struct ExError(serde_json::Error);

/// What a value of `serde_json` holds.
pub uninterp spec fn value_view(v: serde_json::Value) -> JsonView;

/// What a number of `serde_json` holds: an integer by its value, any other number by the text
/// that it is displayed as.
pub uninterp spec fn number_view(n: serde_json::Number) -> NumberView;

/// What an object of `serde_json` holds: its members in the order in which it is walked.
pub uninterp spec fn members_view(m: serde_json::Map<String, serde_json::Value>) -> Seq<Member>;

/// What `serde_json::Number::from_str` reads in a text, if it reads a number.
pub uninterp spec fn parsed_number(text: Seq<char>) -> Option<NumberView>;

/// What `serde_json::to_string` writes for a value.
pub uninterp spec fn compact_text(j: JsonView) -> Seq<char>;

/// What `serde_json::to_string_pretty` writes for a value.
pub uninterp spec fn pretty_text(j: JsonView) -> Seq<char>;

/// The value that `serde_json::from_str` reads in a text, if it reads one.
pub uninterp spec fn read_json(text: Seq<char>) -> Option<JsonView>;

/// A value of `serde_json`, taken apart by one level.
pub enum ValueParts<'a> {
    Null,
    Bool(bool),
    Number(&'a serde_json::Number),
    String(&'a String),
    Array(&'a Vec<serde_json::Value>),
    Object(&'a serde_json::Map<String, serde_json::Value>),
}

/// What the values of a list hold.
pub open spec fn value_views(items: Seq<serde_json::Value>) -> Seq<JsonView> {
    items.map_values(|v: serde_json::Value| value_view(v))
}

impl<'a> ValueParts<'a> {
    /// What the value holds that was taken apart.
    pub open spec fn whole(self) -> JsonView {
        match self {
            ValueParts::Null => JsonView::Null,
            ValueParts::Bool(b) => JsonView::Bool(b),
            ValueParts::Number(n) => JsonView::Number(number_view(*n)),
            ValueParts::String(s) => JsonView::String(s@),
            ValueParts::Array(items) => JsonView::Array(value_views(items@)),
            ValueParts::Object(m) => JsonView::Object(members_view(*m)),
        }
    }
}

/// Tells the variants of `serde_json::Value` apart. The parts hold what the value holds.
#[verifier::external_body]
fn value_parts<'a>(v: &'a serde_json::Value) -> (r: ValueParts<'a>)
    ensures
        r.whole() == value_view(*v),
{
    match v {
        serde_json::Value::Null => ValueParts::Null,
        serde_json::Value::Bool(b) => ValueParts::Bool(*b),
        serde_json::Value::Number(n) => ValueParts::Number(n),
        serde_json::Value::String(s) => ValueParts::String(s),
        serde_json::Value::Array(items) => ValueParts::Array(items),
        serde_json::Value::Object(m) => ValueParts::Object(m),
    }
}

/// `serde_json::Number::as_u64`: the value of an integer that is not negative. An integer has
/// 64 bits, with or without sign.
#[verifier::external_body]
fn number_u64(n: &serde_json::Number) -> (r: Option<u64>)
    ensures
        match r {
            Some(u) => number_view(*n) == NumberView::Int(u as int),
            None => match number_view(*n) {
                NumberView::Int(i) => i64::MIN <= i < 0,
                NumberView::Float(_) => true,
            },
        },
{
    n.as_u64()
}

/// `serde_json::Number::as_i64`: the value of an integer of 64 bits with sign.
#[verifier::external_body]
fn number_i64(n: &serde_json::Number) -> (r: Option<i64>)
    ensures
        match r {
            Some(i) => number_view(*n) == NumberView::Int(i as int),
            None => match number_view(*n) {
                NumberView::Int(i) => i > i64::MAX,
                NumberView::Float(_) => true,
            },
        },
{
    n.as_i64()
}

/// The `Display` of `serde_json::Number`: an integer in decimal notation, any other number as
/// the text by which `number_view` tells it. With the feature `float_roundtrip` the text is read
/// as the number that it was written for.
#[verifier::external_body]
fn number_text(n: &serde_json::Number) -> (r: String)
    ensures
        parsed_number(r@) == Some(number_view(*n)),
        match number_view(*n) {
            NumberView::Int(i) => r@ == signed_decimal(i),
            NumberView::Float(t) => r@ == t,
        },
{
    n.to_string()
}

/// `serde_json::Map::iter`: the members, in the order of their names, each name once.
#[verifier::external_body]
fn members_of<'a>(m: &'a serde_json::Map<String, serde_json::Value>) -> (r: Vec<
    (&'a String, &'a serde_json::Value),
>)
    ensures
        members_view(*m) == r@.map_values(
            |e: (&String, &serde_json::Value)| (e.0@, value_view(*e.1)),
        ),
        forall|i: int, j: int|
            #![trigger r@[i], r@[j]]
            0 <= i < j < r@.len() ==> text_less(r@[i].0@, r@[j].0@),
{
    m.iter().collect()
}

impl JsonNumber {
    /// The number that `n` holds. Its text is read as that number.
    pub fn from_number(n: &serde_json::Number) -> (r: JsonNumber)
        ensures
            r@ == number_view(*n),
            canonical(JsonView::Number(r@)) == Some(JsonView::Number(r@)),
    {
        match number_u64(n) {
            Some(u) => JsonNumber::Unsigned(u),
            None => match number_i64(n) {
                Some(i) => JsonNumber::Signed(i),
                None => JsonNumber::Float(number_text(n)),
            },
        }
    }
}

impl Json {
    /// The value that `v` holds. Written back with `to_value` it holds the same.
    pub fn from_value(v: &serde_json::Value) -> (r: Json)
        ensures
            r@ == value_view(*v),
            canonical(r@) == Some(r@),
        decreases value_view(*v),
    {
        broadcast use lemma_json_view;
        match value_parts(v) {
            ValueParts::Null => Json::Null,
            ValueParts::Bool(b) => Json::Bool(b),
            ValueParts::Number(n) => Json::Number(JsonNumber::from_number(n)),
            ValueParts::String(s) => Json::String(s.clone()),
            ValueParts::Array(values) => {
                let mut items: Vec<Json> = Vec::new();
                let mut i: usize = 0;
                while i < values.len()
                    invariant
                        i <= values@.len(),
                        value_view(*v) == JsonView::Array(value_views(values@)),
                        json_views(items@) == value_views(values@).take(i as int),
                        forall|k: int|
                            0 <= k < i ==> canonical(#[trigger] value_views(values@)[k]) == Some(
                                value_views(values@)[k],
                            ),
                    decreases values@.len() - i,
                {
                    proof {
                        assert(decreases_to!(value_view(*v) => value_view(*v)->Array_0));
                        assert(decreases_to!(value_views(values@) => value_views(values@)[i as int]));
                    }
                    let item: Json = Json::from_value(&values[i]);
                    proof {
                        lemma_json_views_push(items@, item);
                        assert(value_views(values@).take(i + 1)
                            =~= value_views(values@).take(i as int).push(item@));
                    }
                    items.push(item);
                    i = i + 1;
                }
                proof {
                    assert(value_views(values@).take(i as int) =~= value_views(values@));
                    lemma_canonical_items_same(value_views(values@));
                }
                Json::Array(items)
            },
            ValueParts::Object(m) => {
                let entries = members_of(m);
                proof {
                    assert forall|k: int, l: int| 0 <= k < l < members_view(*m).len() implies text_less(
                        (#[trigger] members_view(*m)[k]).0,
                        (#[trigger] members_view(*m)[l]).0,
                    ) by {
                        assert(members_view(*m)[k].0 == entries@[k].0@);
                        assert(members_view(*m)[l].0 == entries@[l].0@);
                    }
                }
                let mut members: Vec<(String, Json)> = Vec::new();
                let mut i: usize = 0;
                while i < entries.len()
                    invariant
                        i <= entries@.len(),
                        value_view(*v) == JsonView::Object(members_view(*m)),
                        in_order(members_view(*m)),
                        members_view(*m) == entries@.map_values(
                            |e: (&String, &serde_json::Value)| (e.0@, value_view(*e.1)),
                        ),
                        member_views(members@) == members_view(*m).take(i as int),
                        forall|k: int|
                            0 <= k < i ==> canonical((#[trigger] members_view(*m)[k]).1) == Some(
                                members_view(*m)[k].1,
                            ),
                    decreases entries@.len() - i,
                {
                    proof {
                        assert(decreases_to!(value_view(*v) => value_view(*v)->Object_0));
                        assert(decreases_to!(members_view(*m) => members_view(*m)[i as int]));
                        assert(decreases_to!(members_view(*m)[i as int]
                            => members_view(*m)[i as int].1));
                    }
                    let item: (String, Json) = (
                        entries[i].0.clone(),
                        Json::from_value(entries[i].1),
                    );
                    proof {
                        lemma_member_views_push(members@, item);
                        assert(members_view(*m).take(i + 1) =~= members_view(*m).take(
                            i as int,
                        ).push((item.0@, item.1@)));
                    }
                    members.push(item);
                    i = i + 1;
                }
                proof {
                    assert(members_view(*m).take(i as int) =~= members_view(*m));
                    lemma_canonical_members_same(members_view(*m));
                }
                Json::Object(members)
            },
        }
    }
}

/// A value of `serde_json`, ready to be put together.
pub enum NewValue {
    Null,
    Bool(bool),
    Number(serde_json::Number),
    String(String),
    Array(Vec<serde_json::Value>),
    Object(serde_json::Map<String, serde_json::Value>),
}

impl NewValue {
    /// What the value holds once it is put together.
    pub open spec fn whole(self) -> JsonView {
        match self {
            NewValue::Null => JsonView::Null,
            NewValue::Bool(b) => JsonView::Bool(b),
            NewValue::Number(n) => JsonView::Number(number_view(n)),
            NewValue::String(s) => JsonView::String(s@),
            NewValue::Array(items) => JsonView::Array(value_views(items@)),
            NewValue::Object(m) => JsonView::Object(members_view(m)),
        }
    }
}

/// The variants of `serde_json::Value` as constructors. The value holds what its parts hold.
#[verifier::external_body]
fn new_value(parts: NewValue) -> (r: serde_json::Value)
    ensures
        value_view(r) == parts.whole(),
{
    match parts {
        NewValue::Null => serde_json::Value::Null,
        NewValue::Bool(b) => serde_json::Value::Bool(b),
        NewValue::Number(n) => serde_json::Value::Number(n),
        NewValue::String(s) => serde_json::Value::String(s),
        NewValue::Array(items) => serde_json::Value::Array(items),
        NewValue::Object(m) => serde_json::Value::Object(m),
    }
}

/// `serde_json::Number::from(u64)`: the integer `u`.
#[verifier::external_body]
fn unsigned_number(u: u64) -> (r: serde_json::Number)
    ensures
        number_view(r) == NumberView::Int(u as int),
{
    serde_json::Number::from(u)
}

/// `serde_json::Number::from(i64)`: the integer `i`.
#[verifier::external_body]
fn signed_number(i: i64) -> (r: serde_json::Number)
    ensures
        number_view(r) == NumberView::Int(i as int),
{
    serde_json::Number::from(i)
}

/// `serde_json::Number::from_str`: whether the text is read as a number, and as which one, is
/// named `parsed_number`.
#[verifier::external_body]
fn number_from_text(text: &String) -> (r: Result<serde_json::Number, serde_json::Error>)
    ensures
        match r {
            Ok(n) => parsed_number(text@) == Some(number_view(n)),
            Err(_) => parsed_number(text@) is None,
        },
{
    text.parse()
}

/// `serde_json::Map::new`: no members.
#[verifier::external_body]
fn new_members() -> (r: serde_json::Map<String, serde_json::Value>)
    ensures
        members_view(r) == Seq::<Member>::empty(),
{
    serde_json::Map::new()
}

/// `serde_json::Map::insert`: the members stand in the order of their names; one that is there
/// already gets the new value.
#[verifier::external_body]
fn insert_member(
    m: &mut serde_json::Map<String, serde_json::Value>,
    key: String,
    value: serde_json::Value,
)
    ensures
        members_view(*final(m)) == with_member(members_view(*old(m)), key@, value_view(value)),
{
    m.insert(key, value);
}

/// `serde_json::to_string`: a value is always written, as a text that depends on what it holds
/// alone and is named `compact_text`. The text stands on one line.
#[verifier::external_body]
fn write_compact(v: &serde_json::Value) -> (r: Result<String, serde_json::Error>)
    ensures
        r is Ok,
        r->Ok_0@ == compact_text(value_view(*v)),
        one_line(r->Ok_0@),
{
    serde_json::to_string(v)
}

/// `serde_json::to_string_pretty`: a value is always written, as a text that depends on what it
/// holds alone and is named `pretty_text`.
#[verifier::external_body]
fn write_pretty(v: &serde_json::Value) -> (r: Result<String, serde_json::Error>)
    ensures
        r is Ok,
        r->Ok_0@ == pretty_text(value_view(*v)),
{
    serde_json::to_string_pretty(v)
}

/// `serde_json::from_str` for a value: whether the text is read, and as which value, is named
/// `read_json`. What `notation` writes for a value that fits into a `serde_json::Value`, and is
/// not nested too deeply to be read, is read as that value.
#[verifier::external_body]
fn read_value(text: &str) -> (r: Result<serde_json::Value, serde_json::Error>)
    ensures
        match r {
            Ok(v) => read_json(text@) == Some(value_view(v)),
            Err(_) => read_json(text@) is None,
        },
        forall|j: JsonView| #[trigger]
            readable(j) && text@ == notation(j) ==> r is Ok && value_view(r->Ok_0) == j,
{
    serde_json::from_str(text)
}

/// A value in the notation of JSON. Of a text by itself only the quotes are escaped.
pub open spec fn notation(j: JsonView) -> Seq<char> {
    match j {
        JsonView::Null => "null"@,
        JsonView::Bool(b) => if b {
            "true"@
        } else {
            "false"@
        },
        JsonView::Number(NumberView::Int(i)) => signed_decimal(i),
        JsonView::Number(NumberView::Float(t)) => t,
        JsonView::String(s) => "\""@ + quotes_escaped(s) + "\""@,
        JsonView::Array(items) => if items.len() == 0 {
            "[]"@
        } else {
            compact_text(j)
        },
        JsonView::Object(members) => if members.len() == 0 {
            "{}"@
        } else {
            compact_text(j)
        },
    }
}

/// Whether no more than `n` lists and objects stand inside each other.
pub open spec fn nested_within(j: JsonView, n: nat) -> bool
    decreases n,
{
    match j {
        JsonView::Array(items) => n > 0 && forall|i: int|
            0 <= i < items.len() ==> nested_within(#[trigger] items[i], (n - 1) as nat),
        JsonView::Object(members) => n > 0 && forall|i: int|
            0 <= i < members.len() ==> nested_within(
                (#[trigger] members[i]).1,
                (n - 1) as nat,
            ),
        _ => true,
    }
}

/// Whether `serde_json` reads the notation of a value as that value: `serde_json` can hold it,
/// no more than 127 lists and objects stand inside each other, and a text that is not inside of
/// any holds no backslash and no control character.
pub open spec fn readable(j: JsonView) -> bool {
    &&& canonical(j) == Some(j)
    &&& nested_within(j, 127)
    &&& j matches JsonView::String(s) ==> forall|i: int|
        0 <= i < s.len() ==> #[trigger] s[i] != '\\' && s[i] >= ' '
}

/// What `serde_json` holds for a value: the members of each object in the order of their
/// names, the last value of each, and each number as its text reads. Nothing where some text
/// is no number, or where an integer has more than 64 bits.
pub open spec fn canonical(j: JsonView) -> Option<JsonView>
    decreases j,
{
    match j {
        JsonView::Number(NumberView::Float(t)) => match parsed_number(t) {
            Some(n) => Some(JsonView::Number(n)),
            None => None,
        },
        JsonView::Number(NumberView::Int(i)) => if i64::MIN <= i <= u64::MAX {
            Some(j)
        } else {
            None
        },
        JsonView::Array(items) => match canonical_items(items) {
            Some(c) => Some(JsonView::Array(c)),
            None => None,
        },
        JsonView::Object(members) => match canonical_members(members) {
            Some(c) => Some(JsonView::Object(c)),
            None => None,
        },
        _ => Some(j),
    }
}

/// What `serde_json` holds for the values of a list.
pub open spec fn canonical_items(items: Seq<JsonView>) -> Option<Seq<JsonView>>
    decreases items,
{
    if items.len() == 0 {
        Some(Seq::empty())
    } else {
        match (canonical_items(items.drop_last()), canonical(items.last())) {
            (Some(before), Some(last)) => Some(before.push(last)),
            _ => None,
        }
    }
}

/// What `serde_json` holds for the members of an object.
pub open spec fn canonical_members(members: Seq<Member>) -> Option<Seq<Member>>
    decreases members,
{
    if members.len() == 0 {
        Some(Seq::empty())
    } else {
        match (canonical_members(members.drop_last()), canonical(members.last().1)) {
            (Some(before), Some(last)) => Some(with_member(before, members.last().0, last)),
            _ => None,
        }
    }
}

/// Values that `serde_json` holds as they are make a list that it holds as it is.
proof fn lemma_canonical_items_same(items: Seq<JsonView>)
    requires
        forall|i: int| 0 <= i < items.len() ==> canonical(#[trigger] items[i]) == Some(items[i]),
    ensures
        canonical_items(items) == Some(items),
    decreases items.len(),
{
    if items.len() > 0 {
        assert forall|i: int| 0 <= i < items.len() - 1 implies canonical(
            #[trigger] items.drop_last()[i],
        ) == Some(items.drop_last()[i]) by {
            assert(items.drop_last()[i] == items[i]);
        }
        lemma_canonical_items_same(items.drop_last());
        assert(canonical(items[items.len() - 1]) == Some(items.last()));
        assert(items.drop_last().push(items.last()) =~= items);
    } else {
        assert(items =~= Seq::empty());
    }
}

/// Members in the order of their names, with values that `serde_json` holds as they are, make an
/// object that it holds as it is.
proof fn lemma_canonical_members_same(members: Seq<Member>)
    requires
        in_order(members),
        forall|i: int|
            0 <= i < members.len() ==> canonical((#[trigger] members[i]).1) == Some(members[i].1),
    ensures
        canonical_members(members) == Some(members),
    decreases members.len(),
{
    if members.len() > 0 {
        let before = members.drop_last();
        assert forall|i: int| 0 <= i < before.len() implies canonical((#[trigger] before[i]).1)
            == Some(before[i].1) by {
            assert(before[i] == members[i]);
        }
        assert(in_order(before)) by {
            assert forall|i: int, j: int| 0 <= i < j < before.len() implies text_less(
                (#[trigger] before[i]).0,
                (#[trigger] before[j]).0,
            ) by {
                assert(before[i] == members[i] && before[j] == members[j]);
            }
        }
        lemma_canonical_members_same(before);
        let last = members[members.len() - 1];
        assert(canonical(last.1) == Some(last.1));
        assert forall|j: int| 0 <= j < before.len() implies text_less(
            (#[trigger] before[j]).0,
            last.0,
        ) by {
            assert(before[j] == members[j]);
        }
        lemma_with_last_member(before, last.0, last.1);
        assert(before.push(last) =~= members);
    } else {
        assert(members =~= Seq::empty());
    }
}

proof fn lemma_canonical_items_none(items: Seq<JsonView>, i: int)
    requires
        0 <= i <= items.len(),
        canonical_items(items.take(i)) is None,
    ensures
        canonical_items(items) is None,
    decreases items.len(),
{
    if i == items.len() {
        assert(items.take(i) =~= items);
    } else {
        assert(items.drop_last().take(i) =~= items.take(i));
        lemma_canonical_items_none(items.drop_last(), i);
    }
}

proof fn lemma_canonical_members_none(members: Seq<Member>, i: int)
    requires
        0 <= i <= members.len(),
        canonical_members(members.take(i)) is None,
    ensures
        canonical_members(members) is None,
    decreases members.len(),
{
    if i == members.len() {
        assert(members.take(i) =~= members);
    } else {
        assert(members.drop_last().take(i) =~= members.take(i));
        lemma_canonical_members_none(members.drop_last(), i);
    }
}

impl Json {
    /// The value of `serde_json` that stands for this one; an error where some text of a
    /// number is none.
    pub fn to_value(&self) -> (r: Result<serde_json::Value, serde_json::Error>)
        ensures
            match r {
                Ok(v) => canonical(self@) == Some(value_view(v)),
                Err(_) => canonical(self@) is None,
            },
        decreases *self,
    {
        broadcast use lemma_json_view;
        match self {
            Json::Null => Ok(new_value(NewValue::Null)),
            Json::Bool(b) => Ok(new_value(NewValue::Bool(*b))),
            Json::Number(JsonNumber::Unsigned(u)) => Ok(
                new_value(NewValue::Number(unsigned_number(*u))),
            ),
            Json::Number(JsonNumber::Signed(i)) => Ok(
                new_value(NewValue::Number(signed_number(*i))),
            ),
            Json::Number(JsonNumber::Float(t)) => match number_from_text(t) {
                Ok(n) => Ok(new_value(NewValue::Number(n))),
                Err(e) => Err(e),
            },
            Json::String(s) => Ok(new_value(NewValue::String(s.clone()))),
            Json::Array(items) => {
                let mut values: Vec<serde_json::Value> = Vec::new();
                let mut i: usize = 0;
                proof {
                    assert(json_views(items@).take(0) =~= Seq::empty());
                    assert(value_views(values@) =~= Seq::empty());
                }
                while i < items.len()
                    invariant
                        i <= items@.len(),
                        *self == Json::Array(*items),
                        self@ == JsonView::Array(json_views(items@)),
                        canonical_items(json_views(items@).take(i as int)) == Some(
                            value_views(values@),
                        ),
                    decreases items@.len() - i,
                {
                    proof {
                        assert(decreases_to!(*self => self->Array_0));
                        assert(decreases_to!(items@ => items@[i as int]));
                        assert(json_views(items@).take(i + 1).drop_last() =~= json_views(
                            items@,
                        ).take(i as int));
                    }
                    match items[i].to_value() {
                        Ok(v) => {
                            proof {
                                assert(value_views(values@.push(v)) =~= value_views(values@).push(
                                    value_view(v),
                                ));
                            }
                            values.push(v);
                        },
                        Err(e) => {
                            proof {
                                lemma_canonical_items_none(json_views(items@), i + 1);
                            }
                            return Err(e);
                        },
                    }
                    i = i + 1;
                }
                proof {
                    assert(json_views(items@).take(i as int) =~= json_views(items@));
                }
                Ok(new_value(NewValue::Array(values)))
            },
            Json::Object(members) => {
                let mut m = new_members();
                let mut i: usize = 0;
                proof {
                    assert(member_views(members@).take(0) =~= Seq::empty());
                }
                while i < members.len()
                    invariant
                        i <= members@.len(),
                        *self == Json::Object(*members),
                        self@ == JsonView::Object(member_views(members@)),
                        canonical_members(member_views(members@).take(i as int)) == Some(
                            members_view(m),
                        ),
                    decreases members@.len() - i,
                {
                    proof {
                        assert(decreases_to!(*self => self->Object_0));
                        assert(decreases_to!(members@ => members@[i as int]));
                        assert(member_views(members@).take(i + 1).drop_last() =~= member_views(
                            members@,
                        ).take(i as int));
                    }
                    match members[i].1.to_value() {
                        Ok(v) => {
                            insert_member(&mut m, members[i].0.clone(), v);
                        },
                        Err(e) => {
                            proof {
                                lemma_canonical_members_none(member_views(members@), i + 1);
                            }
                            return Err(e);
                        },
                    }
                    i = i + 1;
                }
                proof {
                    assert(member_views(members@).take(i as int) =~= member_views(members@));
                }
                Ok(new_value(NewValue::Object(m)))
            },
        }
    }

    /// The value as text on one line; an error where some text of a number is none.
    pub fn compact(&self) -> (r: Result<String, serde_json::Error>)
        ensures
            match r {
                Ok(s) => compact_json(self@) == Some(s@) && one_line(s@),
                Err(_) => compact_json(self@) is None,
            },
    {
        match self.to_value() {
            Ok(v) => write_compact(&v),
            Err(e) => Err(e),
        }
    }

    /// The value as text over several lines; an error where some text of a number is none.
    pub fn pretty(&self) -> (r: Result<String, serde_json::Error>)
        ensures
            match r {
                Ok(s) => pretty_json(self@) == Some(s@),
                Err(_) => pretty_json(self@) is None,
            },
    {
        match self.to_value() {
            Ok(v) => write_pretty(&v),
            Err(e) => Err(e),
        }
    }

    /// The value that a text holds in the notation of JSON. What `format_value` wrote for a value
    /// that is readable is read as that value.
    pub fn from_text(text: &str) -> (r: Result<Json, serde_json::Error>)
        ensures
            match r {
                Ok(j) => read_json(text@) == Some(j@) && canonical(j@) == Some(j@),
                Err(_) => read_json(text@) is None,
            },
            forall|v: JsonView| #[trigger]
                readable(v) && text@ == formatted(v) ==> (r matches Ok(j) && j@ == v),
    {
        match read_value(text) {
            Ok(v) => Ok(Json::from_value(&v)),
            Err(e) => Err(e),
        }
    }
}

/// The text of a value on one line, where it has one.
pub open spec fn compact_json(j: JsonView) -> Option<Seq<char>> {
    match canonical(j) {
        Some(c) => Some(compact_text(c)),
        None => None,
    }
}

/// The text of a value over several lines, where it has one.
pub open spec fn pretty_json(j: JsonView) -> Option<Seq<char>> {
    match canonical(j) {
        Some(c) => Some(pretty_text(c)),
        None => None,
    }
}

}
