//! Numbers as text, and texts that are put together.

use vstd::prelude::*;

use crate::text::{
    after_prefix, all_digits, decimal, digit, digits_value, integer_value, joined, occurs,
    occurs_at, quotes_escaped, signed_decimal,
};

verus! {

/// A text occurs in another if and only if that one is the text with something before and after it,
/// and what follows a prefix is what the text has beyond it.
pub proof fn lemma_parts_of_texts(s: Seq<char>, t: Seq<char>, before: Seq<char>, behind: Seq<char>)
    ensures
        s == before + t + behind ==> occurs(s, t) && occurs_at(s, t, before.len() as int),
        occurs(s, t) ==> exists|a: Seq<char>, b: Seq<char>| s == #[trigger] (a + t + b),
        s == t + behind <==> after_prefix(s, t) == Some(behind),
{
    if s == before + t + behind {
        let i = before.len() as int;
        assert(s.subrange(i, i + t.len()) =~= t);
        assert(occurs_at(s, t, i));
    }
    if occurs(s, t) {
        let i = choose|i: int| occurs_at(s, t, i);
        let a = s.take(i);
        let b = s.skip(i + t.len());
        assert(s =~= a + s.subrange(i, i + t.len()) + b);
        assert(s == (a + t + b));
    }
    if s == t + behind {
        super::v3::lemma_after_prefix(t, behind);
    }
    if after_prefix(s, t) == Some(behind) {
        assert(s =~= t + behind);
    }
}

/// A number in decimal notation is a row of digits that denotes it, with no zero before the others.
pub proof fn lemma_decimal(n: nat)
    ensures
        decimal(n).len() > 0,
        all_digits(decimal(n)),
        digits_value(decimal(n)) == n,
        n > 0 ==> decimal(n)[0] != '0',
        n == 0 ==> decimal(n).len() == 1,
    decreases n,
{
    if n < 10 {
        assert(decimal(n).drop_last() =~= Seq::empty());
        assert(digits_value(Seq::empty()) == 0);
        assert(decimal(n).last() == digit(n as int));
    } else {
        lemma_decimal(n / 10);
        let before = decimal(n / 10);
        let now = decimal(n);
        assert(now.drop_last() =~= before);
        assert(now.last() == digit((n % 10) as int));
        assert forall|i: int| 0 <= i < now.len() implies '0' <= #[trigger] now[i] <= '9' by {
            if i < before.len() {
                assert(now[i] == before[i]);
            }
        }
        assert(now[0] == before[0]);
    }
}

/// A row of digits denotes ten times what it denotes without the last one, and that digit.
pub proof fn lemma_digits_value(digits: Seq<char>, d: int)
    requires
        0 <= d < 10,
    ensures
        digits_value(Seq::empty()) == 0,
        digits_value(digits.push((48 + d) as char)) == digits_value(digits) * 10 + d,
{
    assert(digits.push((48 + d) as char).drop_last() =~= digits);
}

/// What is written of an integer of 64 bits is read as that integer.
pub proof fn lemma_integers_are_read_back(n: int)
    requires
        i64::MIN <= n <= i64::MAX,
    ensures
        integer_value(signed_decimal(n)) == Some(n as i64),
{
    if n < 0 {
        lemma_decimal((-n) as nat);
        let text = signed_decimal(n);
        assert(text[0] == '-');
        assert(text.drop_first() =~= decimal((-n) as nat));
    } else {
        lemma_decimal(n as nat);
        let text = signed_decimal(n);
        assert('0' <= text[0] <= '9');
    }
}

/// An integer is read where there is a sign or none and then digits alone, at least one, and where
/// its value has no more than 64 bits. Nothing else is one.
pub proof fn lemma_integers_read(text: Seq<char>, digits: Seq<char>)
    ensures
        digits.len() > 0 && all_digits(digits) ==> {
            let value = digits_value(digits) as int;
            &&& integer_value(digits) == (if value <= i64::MAX {
                Some(value as i64)
            } else {
                None
            })
            &&& integer_value(seq!['+'] + digits) == integer_value(digits)
            &&& integer_value(seq!['-'] + digits) == (if -value >= i64::MIN {
                Some((-value) as i64)
            } else {
                None
            })
        },
        integer_value(text) is Some ==> text.len() > 0 && (text[0] == '+' || text[0] == '-' || '0'
            <= text[0] <= '9') && forall|i: int|
            0 < i < text.len() ==> '0' <= #[trigger] text[i] <= '9',
        integer_value(seq!['+']) is None && integer_value(seq!['-']) is None,
{
    let plus = seq!['+'] + digits;
    let minus = seq!['-'] + digits;
    assert(plus.drop_first() =~= digits);
    assert(minus.drop_first() =~= digits);
    assert(plus[0] == '+' && minus[0] == '-');
    if digits.len() > 0 && all_digits(digits) {
        assert('0' <= digits[0] <= '9');
    }
    if integer_value(text) is Some && text.len() > 0 {
        let signed = text[0] == '-' || text[0] == '+';
        assert forall|i: int| 0 < i < text.len() implies '0' <= #[trigger] text[i] <= '9' by {
            if signed {
                assert(text.drop_first()[i - 1] == text[i]);
            }
        }
    }
    assert(seq!['+'].drop_first() =~= Seq::empty());
    assert(seq!['-'].drop_first() =~= Seq::empty());
}

/// Texts are joined with the separator between two of them, and nothing else is added.
pub proof fn lemma_joined(one: Seq<Seq<char>>, other: Seq<Seq<char>>, text: Seq<char>, sep: Seq<char>)
    ensures
        joined(Seq::empty(), sep) == Seq::<char>::empty(),
        joined(seq![text], sep) == text,
        one.len() > 0 && other.len() > 0 ==> joined(one + other, sep) == joined(one, sep) + sep
            + joined(other, sep),
    decreases other.len(),
{
    if one.len() > 0 && other.len() > 0 {
        let all = one + other;
        assert(all.drop_last() =~= one + other.drop_last());
        assert(all.last() == other.last());
        if other.len() == 1 {
            assert(all.drop_last() =~= one);
            assert(joined(all, sep) =~= joined(one, sep) + sep + joined(other, sep));
        } else {
            lemma_joined(one, other.drop_last(), text, sep);
            assert(joined(all, sep) =~= joined(one, sep) + sep + joined(other, sep));
        }
    }
}

/// Each quote gets a backslash before it, and every other character stays as it is, where it is.
pub proof fn lemma_quotes_escaped(one: Seq<char>, other: Seq<char>, c: char)
    ensures
        quotes_escaped(one + other) == quotes_escaped(one) + quotes_escaped(other),
        quotes_escaped(seq![c]) == (if c == '"' {
            seq!['\\', '"']
        } else {
            seq![c]
        }),
        quotes_escaped(Seq::empty()).len() == 0,
    decreases other.len(),
{
    assert(seq![c].drop_last() =~= Seq::empty());
    assert(quotes_escaped(seq![c].drop_last()) =~= Seq::empty());
    assert(quotes_escaped(seq![c]) =~= (if c == '"' {
        seq!['\\', '"']
    } else {
        seq![c]
    }));
    if other.len() == 0 {
        assert(one + other =~= one);
        assert(quotes_escaped(one) + quotes_escaped(other) =~= quotes_escaped(one));
    } else {
        assert((one + other).drop_last() =~= one + other.drop_last());
        assert((one + other).last() == other.last());
        lemma_quotes_escaped(one, other.drop_last(), c);
        assert(quotes_escaped(one + other) =~= quotes_escaped(one) + quotes_escaped(other));
    }
}

}
