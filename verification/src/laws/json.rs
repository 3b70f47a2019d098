//! Members of objects, and values as `serde_json` holds them.

use vstd::prelude::*;

use crate::json::{
    in_order, json_i64, lemma_lookup_at, lemma_lookup_none, lemma_lookup_with_member,
    lemma_text_less, lookup, member, string_items, text_less, text_member, with_member, JsonView,
    Member, NumberView,
};
use crate::value::{
    canonical, canonical_items, canonical_members, compact_json, compact_text, parsed_number,
    pretty_json, pretty_text,
};

verus! {

/// A member of an object is the first one of its name. What is no object has no members, and an
/// object has none under a name that is not there.
pub proof fn lemma_members(members: Seq<Member>, key: Seq<char>, i: int, j: JsonView)
    ensures
        0 <= i < members.len() && members[i].0 == key && (forall|k: int|
            0 <= k < i ==> (#[trigger] members[k]).0 != key) ==> member(
            JsonView::Object(members),
            key,
        ) == Some(members[i].1),
        (forall|k: int| 0 <= k < members.len() ==> (#[trigger] members[k]).0 != key) ==> member(
            JsonView::Object(members),
            key,
        ) is None,
        !(j is Object) ==> member(j, key) is None,
{
    if 0 <= i < members.len() && members[i].0 == key && (forall|k: int|
        0 <= k < i ==> (#[trigger] members[k]).0 != key) {
        lemma_lookup_at(members, key, i);
    }
    if forall|k: int| 0 <= k < members.len() ==> (#[trigger] members[k]).0 != key {
        lemma_lookup_none(members, key);
    }
}

/// A text of a value is a member that is one, and an integer of a value is one of 64 bits with sign.
pub proof fn lemma_texts_and_integers(j: JsonView, key: Seq<char>)
    ensures
        text_member(j, key) == (match member(j, key) {
            Some(JsonView::String(s)) => Some(s),
            _ => None,
        }),
        json_i64(j) == (match j {
            JsonView::Number(NumberView::Int(n)) => if i64::MIN <= n <= i64::MAX {
                Some(n as i64)
            } else {
                None
            },
            _ => None,
        }),
{
}

/// The texts of a list are those of its two parts, one after the other, and only a text is one.
pub proof fn lemma_string_items(one: Seq<JsonView>, other: Seq<JsonView>, j: JsonView)
    ensures
        string_items(one + other) == string_items(one) + string_items(other),
        string_items(seq![j]) == (match j {
            JsonView::String(s) => seq![s],
            _ => Seq::empty(),
        }),
        string_items(Seq::empty()).len() == 0,
    decreases other.len(),
{
    assert(seq![j].drop_last() =~= Seq::empty());
    assert(string_items(seq![j].drop_last()) =~= Seq::empty());
    match j {
        JsonView::String(s) => {
            assert(string_items(seq![j]) =~= seq![s]);
        },
        _ => {},
    }
    if other.len() == 0 {
        assert(one + other =~= one);
        assert(string_items(one) + string_items(other) =~= string_items(one));
    } else {
        assert((one + other).drop_last() =~= one + other.drop_last());
        assert((one + other).last() == other.last());
        lemma_string_items(one, other.drop_last(), j);
        assert(string_items(one + other) =~= string_items(one) + string_items(other));
    }
}

/// Of two texts that differ one stands before the other, and a text before another stands before what
/// that one stands before.
pub proof fn lemma_texts_ordered(a: Seq<char>, b: Seq<char>, c: Seq<char>)
    ensures
        a == b || text_less(a, b) || text_less(b, a),
        text_less(a, b) ==> !text_less(b, a) && a != b,
        text_less(a, b) && text_less(b, c) ==> text_less(a, c),
        a != b && a.is_prefix_of(b) ==> text_less(a, b),
    decreases a.len(),
{
    if text_less(a, b) {
        lemma_text_less(a, b);
    }
    if a.len() > 0 && b.len() > 0 && a[0] == b[0] {
        let (x, y) = (a.drop_first(), b.drop_first());
        assert(a =~= seq![a[0]] + x);
        assert(b =~= seq![b[0]] + y);
        let z = if c.len() > 0 {
            c.drop_first()
        } else {
            c
        };
        lemma_texts_ordered(x, y, z);
        if a.is_prefix_of(b) {
            assert(x =~= y.take(x.len() as int)) by {
                assert(a == b.take(a.len() as int));
                assert forall|i: int| 0 <= i < x.len() implies x[i] == y[i] by {
                    assert(a[i + 1] == b.take(a.len() as int)[i + 1]);
                }
            }
        }
    } else if a.len() == 0 && b.len() == 0 {
        assert(a =~= b);
    } else if a.len() > 0 && b.len() > 0 && a.is_prefix_of(b) {
        assert(b.take(a.len() as int)[0] == b[0]);
    }
}

/// A member that is set keeps the members in the order of their names, each name once. It has the
/// new value, the others keep theirs, and no other name comes up.
pub proof fn lemma_member_set(members: Seq<Member>, key: Seq<char>, value: JsonView, other: Seq<char>)
    requires
        in_order(members),
    ensures
        in_order(with_member(members, key, value)),
        lookup(with_member(members, key, value), key) == Some(value),
        other != key ==> lookup(with_member(members, key, value), other) == lookup(members, other),
        with_member(members, key, value).len() == members.len() + (if lookup(members, key) is Some {
            0int
        } else {
            1
        }),
{
    lemma_lookup_with_member(members, key, value, other);
    lemma_lookup_with_member(members, key, value, key);
    lemma_set_in_order(members, key, value);
}

proof fn lemma_set_in_order(members: Seq<Member>, key: Seq<char>, value: JsonView)
    requires
        in_order(members),
    ensures
        in_order(with_member(members, key, value)),
        forall|i: int|
            0 <= i < with_member(members, key, value).len() ==> (#[trigger] with_member(
                members,
                key,
                value,
            )[i]).0 == key || exists|j: int|
                0 <= j < members.len() && (#[trigger] members[j]).0 == with_member(
                    members,
                    key,
                    value,
                )[i].0,
        with_member(members, key, value).len() == members.len() + (if lookup(members, key) is Some {
            0int
        } else {
            1
        }),
    decreases members.len(),
{
    let set = with_member(members, key, value);
    if members.len() > 0 {
        let first = members[0];
        let rest = members.drop_first();
        assert forall|i: int, j: int| 0 <= i < j < rest.len() implies text_less(
            (#[trigger] rest[i]).0,
            (#[trigger] rest[j]).0,
        ) by {
            assert(rest[i] == members[i + 1] && rest[j] == members[j + 1]);
        }
        assert forall|i: int| 0 <= i < rest.len() implies text_less(
            first.0,
            (#[trigger] rest[i]).0,
        ) by {
            assert(rest[i] == members[i + 1]);
            assert(text_less(members[0].0, members[i + 1].0));
        }
        if first.0 == key {
            assert(set =~= seq![(key, value)] + rest);
            assert forall|i: int, j: int| 0 <= i < j < set.len() implies text_less(
                (#[trigger] set[i]).0,
                (#[trigger] set[j]).0,
            ) by {
                assert(set[j] == rest[j - 1]);
                if i > 0 {
                    assert(set[i] == rest[i - 1]);
                }
            }
            assert forall|i: int| 0 <= i < set.len() implies (#[trigger] set[i]).0 == key || exists|
                j: int,
            | 0 <= j < members.len() && (#[trigger] members[j]).0 == set[i].0 by {
                assert(members[i].0 == set[i].0);
            }
        } else if text_less(key, first.0) {
            assert(set =~= seq![(key, value)] + members);
            assert forall|j: int| 0 <= j < members.len() implies text_less(
                key,
                (#[trigger] members[j]).0,
            ) by {
                if j > 0 {
                    assert(rest[j - 1] == members[j]);
                    lemma_texts_ordered(key, first.0, members[j].0);
                }
            }
            assert forall|i: int, j: int| 0 <= i < j < set.len() implies text_less(
                (#[trigger] set[i]).0,
                (#[trigger] set[j]).0,
            ) by {
                assert(set[j] == members[j - 1]);
                if i > 0 {
                    assert(set[i] == members[i - 1]);
                }
            }
            assert forall|i: int| 0 <= i < set.len() implies (#[trigger] set[i]).0 == key || exists|
                j: int,
            | 0 <= j < members.len() && (#[trigger] members[j]).0 == set[i].0 by {
                if i > 0 {
                    assert(members[i - 1].0 == set[i].0);
                }
            }
            assert forall|k: int| 0 <= k < members.len() implies (#[trigger] members[k]).0
                != key by {
                lemma_text_less(key, members[k].0);
            }
            lemma_lookup_none(members, key);
        } else {
            lemma_texts_ordered(key, first.0, first.0);
            lemma_set_in_order(rest, key, value);
            let more = with_member(rest, key, value);
            assert(set =~= seq![first] + more);
            assert forall|i: int| 0 <= i < more.len() implies text_less(
                first.0,
                (#[trigger] more[i]).0,
            ) by {
                if more[i].0 != key {
                    let j = choose|j: int|
                        0 <= j < rest.len() && (#[trigger] rest[j]).0 == more[i].0;
                    assert(text_less(first.0, rest[j].0));
                }
            }
            assert forall|i: int, j: int| 0 <= i < j < set.len() implies text_less(
                (#[trigger] set[i]).0,
                (#[trigger] set[j]).0,
            ) by {
                assert(set[j] == more[j - 1]);
                if i > 0 {
                    assert(set[i] == more[i - 1]);
                }
            }
            assert forall|i: int| 0 <= i < set.len() implies (#[trigger] set[i]).0 == key || exists|
                j: int,
            | 0 <= j < members.len() && (#[trigger] members[j]).0 == set[i].0 by {
                if i > 0 {
                    assert(set[i] == more[i - 1]);
                    if more[i - 1].0 != key {
                        let j = choose|j: int|
                            0 <= j < rest.len() && (#[trigger] rest[j]).0 == more[i - 1].0;
                        assert(members[j + 1] == rest[j]);
                    }
                } else {
                    assert(members[0].0 == set[0].0);
                }
            }
        }
    }
}

/// What `serde_json` holds for a list has the same items in the same places, each as it holds them,
/// and there is nothing where there is none for one of them.
pub proof fn lemma_canonical_list(items: Seq<JsonView>)
    ensures
        match canonical(JsonView::Array(items)) {
            Some(JsonView::Array(held)) => held.len() == items.len() && forall|i: int|
                0 <= i < items.len() ==> canonical(#[trigger] items[i]) == Some(held[i]),
            Some(_) => false,
            None => exists|i: int| 0 <= i < items.len() && canonical(#[trigger] items[i]) is None,
        },
{
    lemma_canonical_items(items);
}

proof fn lemma_canonical_items(items: Seq<JsonView>)
    ensures
        match canonical_items(items) {
            Some(held) => held.len() == items.len() && forall|i: int|
                0 <= i < items.len() ==> canonical(#[trigger] items[i]) == Some(held[i]),
            None => exists|i: int| 0 <= i < items.len() && canonical(#[trigger] items[i]) is None,
        },
    decreases items.len(),
{
    if items.len() > 0 {
        let rest = items.drop_last();
        let n = items.len() - 1;
        lemma_canonical_items(rest);
        assert(items[n] == items.last());
        match canonical_items(rest) {
            Some(before) => {
                match canonical_items(items) {
                    Some(held) => {
                        assert forall|i: int| 0 <= i < items.len() implies canonical(
                            #[trigger] items[i],
                        ) == Some(held[i]) by {
                            if i < n {
                                assert(rest[i] == items[i]);
                            }
                        }
                    },
                    None => {
                        assert(canonical(items[n]) is None);
                    },
                }
            },
            None => {
                let i = choose|i: int| 0 <= i < rest.len() && canonical(#[trigger] rest[i]) is None;
                assert(items[i] == rest[i]);
            },
        }
    }
}

/// What `serde_json` holds for the last member of a name, if there is one.
pub open spec fn last_held(members: Seq<Member>, name: Seq<char>) -> Option<JsonView>
    decreases members.len(),
{
    if members.len() == 0 {
        None
    } else if members.last().0 == name {
        canonical(members.last().1)
    } else {
        last_held(members.drop_last(), name)
    }
}

/// What `serde_json` holds for an object has its members in the order of their names, each name once
/// with the value that comes last. There is nothing where there is none for one of the values.
pub proof fn lemma_canonical_object(members: Seq<Member>, name: Seq<char>)
    ensures
        match canonical(JsonView::Object(members)) {
            Some(JsonView::Object(held)) => in_order(held) && lookup(held, name) == last_held(
                members,
                name,
            ),
            Some(_) => false,
            None => exists|i: int|
                0 <= i < members.len() && canonical((#[trigger] members[i]).1) is None,
        },
{
    lemma_canonical_members(members, name);
}

proof fn lemma_canonical_members(members: Seq<Member>, name: Seq<char>)
    ensures
        match canonical_members(members) {
            Some(held) => {
                &&& in_order(held)
                &&& lookup(held, name) == last_held(members, name)
                &&& forall|i: int|
                    0 <= i < members.len() ==> canonical((#[trigger] members[i]).1) is Some
            },
            None => exists|i: int|
                0 <= i < members.len() && canonical((#[trigger] members[i]).1) is None,
        },
    decreases members.len(),
{
    if members.len() > 0 {
        let rest = members.drop_last();
        let n = members.len() - 1;
        lemma_canonical_members(rest, name);
        assert(members[n] == members.last());
        match canonical_members(rest) {
            Some(before) => {
                match canonical(members.last().1) {
                    Some(v) => {
                        lemma_member_set(before, members.last().0, v, name);
                        assert forall|i: int| 0 <= i < members.len() implies canonical(
                            (#[trigger] members[i]).1,
                        ) is Some by {
                            if i < n {
                                assert(rest[i] == members[i]);
                            }
                        }
                    },
                    None => {
                        assert(canonical(members[n].1) is None);
                    },
                }
            },
            None => {
                let i = choose|i: int|
                    0 <= i < rest.len() && canonical((#[trigger] rest[i]).1) is None;
                assert(members[i] == rest[i]);
            },
        }
    }
}

/// `serde_json` holds every value that is neither a list nor an object as it is, but for a number that
/// has no more than its text: that one as the text is read.
pub proof fn lemma_canonical_scalar(j: JsonView)
    requires
        !(j is Array),
        !(j is Object),
    ensures
        canonical(j) == (match j {
            JsonView::Number(NumberView::Float(text)) => match parsed_number(text) {
                Some(n) => Some(JsonView::Number(n)),
                None => None,
            },
            JsonView::Number(NumberView::Int(n)) => if i64::MIN <= n <= u64::MAX {
                Some(j)
            } else {
                None
            },
            _ => Some(j),
        }),
{
}

/// A value is written as `serde_json` writes what it holds for it.
pub proof fn lemma_written(j: JsonView)
    ensures
        match canonical(j) {
            Some(held) => compact_json(j) == Some(compact_text(held)) && pretty_json(j) == Some(
                pretty_text(held),
            ),
            None => compact_json(j) is None && pretty_json(j) is None,
        },
{
}

}
