//! JSON values as the rest of the library reads them.

use vstd::prelude::*;

use crate::text::{chars_of, lemma_texts_push, same, texts};

verus! {

/// A JSON number: an integer by its value, any other number by its text.
#[derive(Debug, PartialEq, Eq)]
pub enum JsonNumber {
    Unsigned(u64),
    Signed(i64),
    Float(String),
}

/// What a JSON number is.
pub enum NumberView {
    Int(int),
    Float(Seq<char>),
}

/// A JSON value. The members of an object keep their order.
#[derive(Debug, PartialEq, Eq)]
pub enum Json {
    Null,
    Bool(bool),
    Number(JsonNumber),
    String(String),
    Array(Vec<Json>),
    Object(Vec<(String, Json)>),
}

/// What a JSON value is.
#[verifier::ext_equal]
pub enum JsonView {
    Null,
    Bool(bool),
    Number(NumberView),
    String(Seq<char>),
    Array(Seq<JsonView>),
    Object(Seq<(Seq<char>, JsonView)>),
}

/// A member of an object: its name and its value.
pub type Member = (Seq<char>, JsonView);

impl JsonNumber {
    pub open spec fn view(&self) -> NumberView {
        match *self {
            JsonNumber::Unsigned(n) => NumberView::Int(n as int),
            JsonNumber::Signed(n) => NumberView::Int(n as int),
            JsonNumber::Float(t) => NumberView::Float(t@),
        }
    }

    /// The integer `n`: as an unsigned one unless it is negative.
    pub fn from_i64(n: i64) -> (r: JsonNumber)
        ensures
            r@ == NumberView::Int(n as int),
    {
        if n < 0 {
            JsonNumber::Signed(n)
        } else {
            JsonNumber::Unsigned(n as u64)
        }
    }

    /// A copy of the number.
    pub fn copy(&self) -> (r: JsonNumber)
        ensures
            r@ == self@,
    {
        match self {
            JsonNumber::Unsigned(n) => JsonNumber::Unsigned(*n),
            JsonNumber::Signed(n) => JsonNumber::Signed(*n),
            JsonNumber::Float(t) => JsonNumber::Float(t.clone()),
        }
    }
}

impl Json {
    pub open spec fn view(&self) -> JsonView
        decreases *self,
    {
        match *self {
            Json::Null => JsonView::Null,
            Json::Bool(b) => JsonView::Bool(b),
            Json::Number(n) => JsonView::Number(n@),
            Json::String(s) => JsonView::String(s@),
            Json::Array(items) => JsonView::Array(
                Seq::new(
                    items@.len(),
                    |i: int|
                        if 0 <= i < items@.len() {
                            items@[i]@
                        } else {
                            arbitrary()
                        },
                ),
            ),
            Json::Object(members) => JsonView::Object(
                Seq::new(
                    members@.len(),
                    |i: int|
                        if 0 <= i < members@.len() {
                            (members@[i].0@, members@[i].1@)
                        } else {
                            arbitrary()
                        },
                ),
            ),
        }
    }
}

/// The values of a list.
pub open spec fn json_views(items: Seq<Json>) -> Seq<JsonView> {
    items.map_values(|j: Json| j@)
}

/// The members of an object.
pub open spec fn member_views(members: Seq<(String, Json)>) -> Seq<Member> {
    members.map_values(|m: (String, Json)| (m.0@, m.1@))
}

/// What an array and an object are, member by member.
pub broadcast proof fn lemma_json_view(j: Json)
    ensures
        #![trigger j@]
        j matches Json::Array(items) ==> j@ == JsonView::Array(json_views(items@)),
        j matches Json::Object(members) ==> j@ == JsonView::Object(member_views(members@)),
{
    match j {
        Json::Array(items) => {
            assert(j@->Array_0 =~= json_views(items@));
        },
        Json::Object(members) => {
            assert(j@->Object_0 =~= member_views(members@));
        },
        _ => {},
    }
}

pub proof fn lemma_json_views_push(items: Seq<Json>, j: Json)
    ensures
        json_views(items.push(j)) == json_views(items).push(j@),
{
    assert(json_views(items.push(j)) =~= json_views(items).push(j@));
}

pub proof fn lemma_member_views_push(members: Seq<(String, Json)>, m: (String, Json))
    ensures
        member_views(members.push(m)) == member_views(members).push((m.0@, m.1@)),
{
    assert(member_views(members.push(m)) =~= member_views(members).push((m.0@, m.1@)));
}

impl Json {
    /// A copy of the value.
    pub fn copy(&self) -> (r: Json)
        ensures
            r@ == self@,
        decreases *self,
    {
        broadcast use lemma_json_view;
        match self {
            Json::Null => Json::Null,
            Json::Bool(b) => Json::Bool(*b),
            Json::Number(n) => Json::Number(n.copy()),
            Json::String(s) => Json::String(s.clone()),
            Json::Array(items) => {
                let mut copies: Vec<Json> = Vec::new();
                let mut i: usize = 0;
                while i < items.len()
                    invariant
                        i <= items@.len(),
                        *self == Json::Array(*items),
                        json_views(copies@) == json_views(items@).take(i as int),
                    decreases items@.len() - i,
                {
                    proof {
                        assert(decreases_to!(*self => self->Array_0));
                        assert(decreases_to!(items@ => items@[i as int]));
                    }
                    let c: Json = items[i].copy();
                    proof {
                        lemma_json_views_push(copies@, c);
                        assert(json_views(items@).take(i + 1) =~= json_views(items@).take(i as int).push(c@));
                    }
                    copies.push(c);
                    i = i + 1;
                }
                proof {
                    assert(json_views(items@).take(i as int) =~= json_views(items@));
                }
                Json::Array(copies)
            },
            Json::Object(members) => {
                let mut copies: Vec<(String, Json)> = Vec::new();
                let mut i: usize = 0;
                while i < members.len()
                    invariant
                        i <= members@.len(),
                        *self == Json::Object(*members),
                        member_views(copies@) == member_views(members@).take(i as int),
                    decreases members@.len() - i,
                {
                    proof {
                        assert(decreases_to!(*self => self->Object_0));
                        assert(decreases_to!(members@ => members@[i as int]));
                    }
                    let m: (String, Json) = (members[i].0.clone(), members[i].1.copy());
                    proof {
                        lemma_member_views_push(copies@, m);
                        assert(member_views(members@).take(i + 1)
                            =~= member_views(members@).take(i as int).push((m.0@, m.1@)));
                    }
                    copies.push(m);
                    i = i + 1;
                }
                proof {
                    assert(member_views(members@).take(i as int) =~= member_views(members@));
                }
                Json::Object(copies)
            },
        }
    }
}

impl Clone for JsonNumber {
    fn clone(&self) -> (r: JsonNumber)
        ensures
            r@ == self@,
    {
        self.copy()
    }
}

impl Clone for Json {
    fn clone(&self) -> (r: Json)
        ensures
            r@ == self@,
    {
        self.copy()
    }
}

/// The value of the first member named `key`, if there is one.
pub open spec fn lookup(members: Seq<Member>, key: Seq<char>) -> Option<JsonView>
    decreases members.len(),
{
    if members.len() == 0 {
        None
    } else if members[0].0 == key {
        Some(members[0].1)
    } else {
        lookup(members.drop_first(), key)
    }
}

/// The member `key` of a value: only an object has members.
pub open spec fn member(j: JsonView, key: Seq<char>) -> Option<JsonView> {
    match j {
        JsonView::Object(members) => lookup(members, key),
        _ => None,
    }
}

/// The text of a value that is a string.
pub open spec fn json_text(j: JsonView) -> Option<Seq<char>> {
    match j {
        JsonView::String(s) => Some(s),
        _ => None,
    }
}

/// The text of the member `key`, where there is one and it is a string.
pub open spec fn text_member(j: JsonView, key: Seq<char>) -> Option<Seq<char>> {
    match member(j, key) {
        Some(v) => json_text(v),
        None => None,
    }
}

/// The value of a number that is an integer of 64 bits with sign.
pub open spec fn json_i64(j: JsonView) -> Option<i64> {
    match j {
        JsonView::Number(NumberView::Int(n)) if i64::MIN <= n <= i64::MAX => Some(n as i64),
        _ => None,
    }
}

/// The texts of those members of a list that are strings, in order.
pub open spec fn string_items(items: Seq<JsonView>) -> Seq<Seq<char>>
    decreases items.len(),
{
    if items.len() == 0 {
        Seq::empty()
    } else {
        match json_text(items.last()) {
            Some(s) => string_items(items.drop_last()).push(s),
            None => string_items(items.drop_last()),
        }
    }
}

/// A member is found at the first position that holds its name.
pub proof fn lemma_lookup_at(members: Seq<Member>, key: Seq<char>, i: int)
    requires
        0 <= i < members.len(),
        members[i].0 == key,
        forall|j: int| 0 <= j < i ==> (#[trigger] members[j]).0 != key,
    ensures
        lookup(members, key) == Some(members[i].1),
    decreases i,
{
    if i > 0 {
        assert(members.drop_first()[i - 1] == members[i]);
        assert forall|j: int| 0 <= j < i - 1 implies (#[trigger] members.drop_first()[j]).0 != key by {
            assert(members.drop_first()[j] == members[j + 1]);
        }
        lemma_lookup_at(members.drop_first(), key, i - 1);
    }
}

/// A name that no member has is not found.
pub proof fn lemma_lookup_none(members: Seq<Member>, key: Seq<char>)
    requires
        forall|j: int| 0 <= j < members.len() ==> (#[trigger] members[j]).0 != key,
    ensures
        lookup(members, key) is None,
    decreases members.len(),
{
    if members.len() > 0 {
        assert forall|j: int| 0 <= j < members.len() - 1 implies (
        #[trigger] members.drop_first()[j]).0 != key by {
            assert(members.drop_first()[j] == members[j + 1]);
        }
        lemma_lookup_none(members.drop_first(), key);
    }
}

/// The value that a list of members holds under `key`.
pub fn find_member<'a>(members: &'a Vec<(String, Json)>, key: &str) -> (r: Option<&'a Json>)
    ensures
        match r {
            Some(v) => lookup(member_views(members@), key@) == Some(v@),
            None => lookup(member_views(members@), key@) is None,
        },
{
    let mut i: usize = 0;
    while i < members.len()
        invariant
            i <= members@.len(),
            forall|j: int| 0 <= j < i ==> (#[trigger] member_views(members@)[j]).0 != key@,
        decreases members@.len() - i,
    {
        if same(members[i].0.as_str(), key) {
            proof {
                assert(member_views(members@)[i as int] == (members@[i as int].0@, members@[i as int].1@));
                lemma_lookup_at(member_views(members@), key@, i as int);
            }
            return Some(&members[i].1);
        }
        i = i + 1;
    }
    proof {
        lemma_lookup_none(member_views(members@), key@);
    }
    None
}

impl Json {
    /// The member `key` of the value.
    pub fn get(&self, key: &str) -> (r: Option<&Json>)
        ensures
            match r {
                Some(v) => member(self@, key@) == Some(v@),
                None => member(self@, key@) is None,
            },
    {
        broadcast use lemma_json_view;

        match self {
            Json::Object(members) => find_member(members, key),
            _ => None,
        }
    }

    /// The text of the value, if it is a string.
    pub fn as_str(&self) -> (r: Option<&str>)
        ensures
            match r {
                Some(s) => json_text(self@) == Some(s@),
                None => json_text(self@) is None,
            },
    {
        match self {
            Json::String(s) => Some(s.as_str()),
            _ => None,
        }
    }

    /// The text of the member `key`, where there is one and it is a string.
    pub fn get_str(&self, key: &str) -> (r: Option<&str>)
        ensures
            match r {
                Some(s) => text_member(self@, key@) == Some(s@),
                None => text_member(self@, key@) is None,
            },
    {
        match self.get(key) {
            Some(v) => v.as_str(),
            None => None,
        }
    }

    /// The value of the number, if it is an integer that fits.
    pub fn as_i64(&self) -> (r: Option<i64>)
        ensures
            r == json_i64(self@),
    {
        match self {
            Json::Number(JsonNumber::Unsigned(n)) => {
                if *n <= 0x7fff_ffff_ffff_ffff {
                    Some(*n as i64)
                } else {
                    None
                }
            },
            Json::Number(JsonNumber::Signed(n)) => Some(*n),
            _ => None,
        }
    }
}

/// `a` stands before `b` in the order of their characters.
pub open spec fn text_less(a: Seq<char>, b: Seq<char>) -> bool
    decreases a.len(),
{
    if b.len() == 0 {
        false
    } else if a.len() == 0 {
        true
    } else if a[0] != b[0] {
        a[0] < b[0]
    } else {
        text_less(a.drop_first(), b.drop_first())
    }
}

/// Whether `a` stands before `b` in the order of their characters.
pub fn less(a: &str, b: &str) -> (r: bool)
    ensures
        r == text_less(a@, b@),
{
    let ca: Vec<char> = chars_of(a);
    let cb: Vec<char> = chars_of(b);
    let mut i: usize = 0;
    proof {
        assert(a@.skip(0) =~= a@);
        assert(b@.skip(0) =~= b@);
    }
    while i < ca.len() && i < cb.len() && ca[i] == cb[i]
        invariant
            ca@ == a@,
            cb@ == b@,
            i <= ca@.len(),
            i <= cb@.len(),
            text_less(a@, b@) == text_less(a@.skip(i as int), b@.skip(i as int)),
        decreases ca@.len() - i,
    {
        proof {
            assert(a@.skip(i as int).drop_first() =~= a@.skip(i + 1));
            assert(b@.skip(i as int).drop_first() =~= b@.skip(i + 1));
        }
        i = i + 1;
    }
    if i == cb.len() {
        false
    } else if i == ca.len() {
        true
    } else {
        ca[i] < cb[i]
    }
}

/// The members of an object in the order of their names after `key` was set to `value`: a
/// member of that name gets the new value, else a new one stands before the first greater name.
pub open spec fn with_member(members: Seq<Member>, key: Seq<char>, value: JsonView) -> Seq<Member>
    decreases members.len(),
{
    if members.len() == 0 {
        seq![(key, value)]
    } else if members[0].0 == key {
        seq![(key, value)] + members.drop_first()
    } else if text_less(key, members[0].0) {
        seq![(key, value)] + members
    } else {
        seq![members[0]] + with_member(members.drop_first(), key, value)
    }
}

proof fn lemma_with_member_at(members: Seq<Member>, key: Seq<char>, value: JsonView, i: int)
    requires
        0 <= i <= members.len(),
        forall|j: int|
            0 <= j < i ==> (#[trigger] members[j]).0 != key && !text_less(key, members[j].0),
        i == members.len() || members[i].0 == key || text_less(key, members[i].0),
    ensures
        with_member(members, key, value) == members.take(i).push((key, value)) + (if i
            < members.len() && members[i].0 == key {
            members.skip(i + 1)
        } else {
            members.skip(i)
        }),
    decreases i,
{
    let rest = if i < members.len() && members[i].0 == key {
        members.skip(i + 1)
    } else {
        members.skip(i)
    };
    if i == 0 {
        assert(with_member(members, key, value) =~= members.take(i).push((key, value)) + rest);
    } else {
        let tail = members.drop_first();
        assert forall|j: int| 0 <= j < i - 1 implies (#[trigger] tail[j]).0 != key && !text_less(
            key,
            tail[j].0,
        ) by {
            assert(tail[j] == members[j + 1]);
        }
        lemma_with_member_at(tail, key, value, i - 1);
        assert(members[0].0 != key);
        assert(with_member(members, key, value) =~= members.take(i).push((key, value)) + rest);
    }
}

/// Whether the members stand in the order of their names, each name once.
pub open spec fn in_order(members: Seq<Member>) -> bool {
    forall|i: int, j: int|
        #![trigger members[i], members[j]]
        0 <= i < j < members.len() ==> text_less(members[i].0, members[j].0)
}

/// Of two texts one at most stands before the other, and none stands before itself.
pub proof fn lemma_text_less(a: Seq<char>, b: Seq<char>)
    requires
        text_less(a, b),
    ensures
        a != b,
        !text_less(b, a),
    decreases a.len(),
{
    if a.len() > 0 && a[0] == b[0] {
        lemma_text_less(a.drop_first(), b.drop_first());
    }
}

/// A member whose name is greater than all the others stands behind them.
pub proof fn lemma_with_last_member(members: Seq<Member>, key: Seq<char>, value: JsonView)
    requires
        forall|j: int| 0 <= j < members.len() ==> text_less((#[trigger] members[j]).0, key),
    ensures
        with_member(members, key, value) == members.push((key, value)),
{
    assert forall|j: int| 0 <= j < members.len() implies (#[trigger] members[j]).0 != key
        && !text_less(key, members[j].0) by {
        lemma_text_less(members[j].0, key);
    }
    lemma_with_member_at(members, key, value, members.len() as int);
    assert(with_member(members, key, value) =~= members.push((key, value)));
}

/// What a set member is looked up as is the value it was set to, and setting it changes no other
/// member.
pub proof fn lemma_lookup_with_member(
    members: Seq<Member>,
    key: Seq<char>,
    value: JsonView,
    other: Seq<char>,
)
    ensures
        lookup(with_member(members, key, value), other) == (if other == key {
            Some(value)
        } else {
            lookup(members, other)
        }),
    decreases members.len(),
{
    let set = with_member(members, key, value);
    if members.len() == 0 {
        assert(set.drop_first() =~= Seq::empty());
        assert(lookup(Seq::<Member>::empty(), other) is None);
    } else if members[0].0 == key {
        assert(set.drop_first() =~= members.drop_first());
    } else if text_less(key, members[0].0) {
        assert(set.drop_first() =~= members);
    } else {
        lemma_lookup_with_member(members.drop_first(), key, value, other);
        assert(set.drop_first() =~= with_member(members.drop_first(), key, value));
    }
}

/// Sets the member `key` of an object whose members stand in the order of their names.
pub fn set_member(members: &mut Vec<(String, Json)>, key: String, value: Json)
    ensures
        member_views(final(members)@) == with_member(member_views(old(members)@), key@, value@),
{
    let mut i: usize = 0;
    let ghost before = member_views(members@);
    while i < members.len() && !same(members[i].0.as_str(), key.as_str()) && !less(
        key.as_str(),
        members[i].0.as_str(),
    )
        invariant
            i <= members@.len(),
            before == member_views(members@),
            members@ == old(members)@,
            forall|j: int|
                0 <= j < i ==> (#[trigger] before[j]).0 != key@ && !text_less(key@, before[j].0),
        decreases members@.len() - i,
    {
        i = i + 1;
    }
    proof {
        lemma_with_member_at(before, key@, value@, i as int);
    }
    let ghost m = (key, value);
    if i < members.len() && same(members[i].0.as_str(), key.as_str()) {
        members.set(i, (key, value));
    } else {
        members.insert(i, (key, value));
    }
    proof {
        assert(member_views(members@) =~= with_member(before, m.0@, m.1@));
    }
}

/// Copies of the texts of those members of a list that are strings.
pub fn strings_of(items: &Vec<Json>) -> (r: Vec<String>)
    ensures
        texts(r@) == string_items(json_views(items@)),
{
    let mut r: Vec<String> = Vec::new();
    let mut i: usize = 0;
    proof {
        assert(json_views(items@).take(0) =~= Seq::empty());
        assert(texts(r@) =~= Seq::empty());
    }
    while i < items.len()
        invariant
            i <= items@.len(),
            texts(r@) == string_items(json_views(items@).take(i as int)),
        decreases items@.len() - i,
    {
        proof {
            assert(json_views(items@).take(i + 1).drop_last() =~= json_views(items@).take(i as int));
            assert(json_views(items@).take(i + 1).last() == items@[i as int]@);
        }
        match items[i].as_str() {
            Some(s) => {
                let copy: String = s.to_owned();
                proof {
                    lemma_texts_push(r@, copy);
                }
                r.push(copy);
            },
            None => {},
        }
        i = i + 1;
    }
    proof {
        assert(json_views(items@).take(i as int) =~= json_views(items@));
    }
    r
}

/// The names of the members of a value: only an object has members.
pub open spec fn member_names(j: JsonView) -> Seq<Seq<char>> {
    match j {
        JsonView::Object(members) => members.map_values(|m: Member| m.0),
        _ => Seq::empty(),
    }
}

/// Copies of the names of the members of a value.
pub fn names_of(j: &Json) -> (r: Vec<String>)
    ensures
        texts(r@) == member_names(j@),
{
    broadcast use lemma_json_view;

    let mut r: Vec<String> = Vec::new();
    match j {
        Json::Object(members) => {
            let ghost all = member_names(j@);
            let mut i: usize = 0;
            proof {
                assert(texts(r@) =~= all.take(0));
            }
            while i < members.len()
                invariant
                    i <= members@.len(),
                    all == member_views(members@).map_values(|m: Member| m.0),
                    texts(r@) == all.take(i as int),
                decreases members@.len() - i,
            {
                let name: String = members[i].0.clone();
                proof {
                    lemma_texts_push(r@, name);
                    assert(all.take(i + 1) =~= all.take(i as int).push(name@));
                }
                r.push(name);
                i = i + 1;
            }
            proof {
                assert(all.take(i as int) =~= all);
            }
        },
        _ => {
            proof {
                assert(texts(r@) =~= member_names(j@));
            }
        },
    }
    r
}

}
