//! What the dialogue asks for, and which values the answers make.

use vstd::prelude::*;

use crate::interactive::{
    array_of, dialogue, field_step, fields_step, hint_of, items_step, left, lemma_entered_has_type,
    lemma_field_goes_on, lemma_some_uses, mapping_step, members_in, object_of, with_entered,
    AnswerView, NoticeView, ProgressView, QuestionView, ReadingView, ReplyView,
};
use crate::json::{
    lemma_lookup_with_member, lookup, string_items, with_member, JsonView, Member, NumberView,
};
use crate::schema::field::{FieldTypeView, FieldView};
use crate::text::{
    first_line_of, first_occurrence, integer_value, lemma_first_occurrence, lemma_no_occurrence,
    occurs, occurs_at, signed_decimal, trimmed,
};

verus! {

/// Below a depth of three nothing is asked for and nothing is entered.
pub proof fn lemma_not_too_deep(
    field: FieldView,
    required_only: bool,
    depth: nat,
    answers: Seq<AnswerView>,
)
    requires
        depth > 3,
    ensures
        ({
            let s = field_step(field, required_only, depth, answers);
            s.reply == ReplyView::Value(None) && s.used == 0 && s.notices.len() == 0
        }),
{
}

proof fn lemma_newline(text: Seq<char>, i: int)
    ensures
        occurs_at(text, "\n"@, i) <==> 0 <= i < text.len() && text[i] == '\n',
{
    reveal_strlit("\n");
    if 0 <= i < text.len() {
        assert(text.subrange(i, i + 1)[0] == text[i]);
        if text[i] == '\n' {
            assert(text.subrange(i, i + 1) =~= "\n"@);
        }
    }
}

proof fn lemma_least(text: Seq<char>, c: char, k: int) -> (i: int)
    requires
        0 <= k < text.len(),
        text[k] == c,
    ensures
        0 <= i <= k,
        text[i] == c,
        forall|j: int| 0 <= j < i ==> #[trigger] text[j] != c,
    decreases k,
{
    if exists|j: int| 0 <= j < k && #[trigger] text[j] == c {
        let j = choose|j: int| 0 <= j < k && #[trigger] text[j] == c;
        lemma_least(text, c, j)
    } else {
        k
    }
}

/// What is shown of a description is its beginning: no line break is in it, and no more than 120
/// characters. It is as long as that allows, but for a carriage return before the line break, which
/// belongs to it.
pub proof fn lemma_hint_is_first_line(description: Seq<char>)
    ensures
        ({
            let hint = hint_of(description);
            &&& hint.is_prefix_of(description)
            &&& hint.len() <= 120
            &&& forall|i: int| 0 <= i < hint.len() ==> #[trigger] hint[i] != '\n'
            &&& 0 < hint.len() < description.len() && description[hint.len() as int] == '\n'
                ==> hint.last() != '\r'
            &&& hint.len() < 120 && hint.len() < description.len() ==> {
                ||| description[hint.len() as int] == '\n'
                ||| description[hint.len() as int] == '\r' && hint.len() + 1 < description.len()
                    && description[hint.len() as int + 1] == '\n'
            }
        }),
{
    let line = first_line_of(description);
    let hint = hint_of(description);
    lemma_no_occurrence(description, "\n"@);
    if occurs(description, "\n"@) {
        let k = choose|k: int| occurs_at(description, "\n"@, k);
        lemma_newline(description, k);
        let i = lemma_least(description, '\n', k);
        lemma_newline(description, i);
        assert forall|j: int| 0 <= j < i implies !occurs_at(description, "\n"@, j) by {
            lemma_newline(description, j);
        }
        lemma_first_occurrence(description, "\n"@, i);
    } else {
        assert forall|i: int| 0 <= i < description.len() implies #[trigger] description[i]
            != '\n' by {
            lemma_newline(description, i);
        }
    }
    assert(hint =~= description.take(hint.len() as int));
    assert forall|i: int| 0 <= i < hint.len() implies #[trigger] hint[i] != '\n' by {
        assert(hint[i] == description[i]);
    }
}

/// The description of a field is shown before anything else of it, and of a field without one none
/// is.
pub proof fn lemma_description_comes_first(
    field: FieldView,
    required_only: bool,
    depth: nat,
    answers: Seq<AnswerView>,
)
    requires
        depth <= 3,
        field.description is Some,
    ensures
        ({
            let shown = field_step(field, required_only, depth, answers).notices;
            shown.len() > 0 && shown[0] == NoticeView::Hint(hint_of(field.description->0))
        }),
{
}

/// What is shown of the description of a field, if it has one.
pub open spec fn hint_on(field: FieldView) -> Seq<NoticeView> {
    match field.description {
        Some(d) => seq![NoticeView::Hint(hint_of(d))],
        None => Seq::empty(),
    }
}

/// The words that a field is asked for with: its name, whether it is required, and a remark.
pub open spec fn words(field: FieldView, remark: Seq<char>) -> Seq<char> {
    if field.required {
        field.name + " (required)"@ + remark
    } else {
        field.name + remark
    }
}

proof fn lemma_words(field: FieldView)
    ensures
        words(field, Seq::empty()) == crate::interactive::prompt_of(field),
        words(field, " (integer)"@) == crate::interactive::prompt_of(field) + " (integer)"@,
        words(field, " (number)"@) == crate::interactive::prompt_of(field) + " (number)"@,
{
    assert(words(field, Seq::empty()) =~= crate::interactive::prompt_of(field));
}

/// Whether a field is asked for as a line of text: one of no known type, a text without choices, or
/// an object or a list that is too deep to be asked for part by part.
pub open spec fn is_line(field: FieldView, depth: nat) -> bool {
    match field.field_type {
        FieldTypeView::Any => true,
        FieldTypeView::String => match field.enum_values {
            Some(values) => string_items(values).len() == 0,
            None => true,
        },
        FieldTypeView::Object(fields) => fields.len() == 0 || depth >= 2,
        FieldTypeView::Array(_) => depth >= 2,
        _ => false,
    }
}

/// A line of text is asked for with the default of the field, if that is a text, and can be left
/// empty unless the field is required. The line that is entered is the value, and an empty one is
/// none.
pub proof fn lemma_line_entered(
    field: FieldView,
    required_only: bool,
    depth: nat,
    answers: Seq<AnswerView>,
)
    requires
        depth <= 3,
        is_line(field, depth),
    ensures
        ({
            let s = field_step(field, required_only, depth, answers);
            s.notices == hint_on(field)
        }),
        ({
            let s = field_step(field, required_only, depth, answers);
            if answers.len() == 0 {
                s.used == 0 && s.reply == ReplyView::Ask(
                    QuestionView::Text {
                        prompt: words(field, Seq::empty()),
                        default: Some(
                            match field.default {
                                Some(JsonView::String(text)) => text,
                                _ => Seq::empty(),
                            },
                        ),
                        allow_empty: !field.required,
                    },
                )
            } else {
                match answers[0] {
                    AnswerView::Text(text) => s.used == 1 && s.reply == ReplyView::Value(
                        if text.len() == 0 {
                            None
                        } else {
                            Some(JsonView::String(text))
                        },
                    ),
                    _ => s.used == 0 && s.reply == ReplyView::Misfit,
                }
            }
        }),
{
    lemma_words(field);
}

/// A text with choices is chosen from those of them that are texts. What is chosen is the value. If
/// nothing is, there is none; but a required one is asked for again.
pub proof fn lemma_choice_entered(
    field: FieldView,
    required_only: bool,
    depth: nat,
    answers: Seq<AnswerView>,
)
    requires
        depth <= 3,
        field.field_type == FieldTypeView::String,
        field.enum_values matches Some(values) && string_items(values).len() > 0,
    ensures
        hint_on(field).is_prefix_of(field_step(field, required_only, depth, answers).notices),
        answers.len() == 0 || answers[0] != AnswerView::Selected(None) || !field.required
            ==> field_step(field, required_only, depth, answers).notices == hint_on(field),
        ({
            let options = string_items(field.enum_values->0);
            let s = field_step(field, required_only, depth, answers);
            if answers.len() == 0 {
                s.used == 0 && s.reply == ReplyView::Ask(
                    QuestionView::Select { prompt: words(field, Seq::empty()), options },
                )
            } else {
                match answers[0] {
                    AnswerView::Selected(Some(i)) => if i < options.len() {
                        s.used == 1 && s.reply == ReplyView::Value(
                            Some(JsonView::String(options[i as int])),
                        )
                    } else {
                        s.reply == ReplyView::Misfit
                    },
                    AnswerView::Selected(None) => if field.required {
                        let again = field_step(field, required_only, depth, answers.drop_first());
                        &&& s.reply == again.reply
                        &&& s.used == 1 + again.used
                        &&& s.notices.contains(NoticeView::Remark("This field is required!"@))
                    } else {
                        s.used == 1 && s.reply == ReplyView::Value(None)
                    },
                    _ => s.reply == ReplyView::Misfit,
                }
            }
        }),
{
    lemma_words(field);
    if answers.len() > 0 {
        assert(left(answers, 1) =~= answers.drop_first());
        if answers[0] == AnswerView::Selected(None) && field.required {
            let shown = crate::interactive::hints(field);
            let s = field_step(field, required_only, depth, answers);
            let again = field_step(field, required_only, depth, answers.drop_first());
            assert(s == crate::interactive::after(
                shown.push(NoticeView::Remark("This field is required!"@)),
                1,
                again,
            ));
            assert(s.notices[shown.len() as int] == NoticeView::Remark(
                "This field is required!"@,
            ));
        }
    }
}

/// An integer is asked for with the default of the field, if that is one, else with zero. The line
/// that is entered is read as an integer. One that is none counts as zero, with a remark, and an
/// empty one is no value.
pub proof fn lemma_integer_entered(
    field: FieldView,
    required_only: bool,
    depth: nat,
    answers: Seq<AnswerView>,
)
    requires
        depth <= 3,
        field.field_type == FieldTypeView::Integer,
    ensures
        field_step(field, required_only, depth, answers).notices == hint_on(field) + (if answers.len()
            > 0 && (answers[0] matches AnswerView::Text(text) && text.len() > 0 && integer_value(
            text,
        ) is None) {
            seq![NoticeView::Remark("Invalid integer, using 0"@)]
        } else {
            Seq::empty()
        }),
        ({
            let s = field_step(field, required_only, depth, answers);
            if answers.len() == 0 {
                s.used == 0 && s.reply == ReplyView::Ask(
                    QuestionView::Text {
                        prompt: words(field, " (integer)"@),
                        default: Some(
                            match field.default {
                                Some(JsonView::Number(NumberView::Int(n))) => if i64::MIN <= n
                                    <= i64::MAX {
                                    signed_decimal(n)
                                } else {
                                    signed_decimal(0)
                                },
                                _ => signed_decimal(0),
                            },
                        ),
                        allow_empty: !field.required,
                    },
                )
            } else {
                match answers[0] {
                    AnswerView::Text(text) => {
                        &&& s.used == 1
                        &&& if text.len() == 0 {
                            s.reply == ReplyView::Value(None)
                        } else {
                            match integer_value(text) {
                                Some(n) => s.reply == ReplyView::Value(
                                    Some(JsonView::Number(NumberView::Int(n as int))),
                                ),
                                None => {
                                    &&& s.reply == ReplyView::Value(
                                        Some(JsonView::Number(NumberView::Int(0))),
                                    )
                                    &&& s.notices.last() == NoticeView::Remark(
                                        "Invalid integer, using 0"@,
                                    )
                                },
                            }
                        }
                    },
                    _ => s.reply == ReplyView::Misfit,
                }
            }
        }),
{
    lemma_words(field);
}

/// A number is asked for with zero as the default. What is entered is the value as it is read; what
/// cannot be held or is no number counts as zero, the latter with a remark, and an empty line is no
/// value.
pub proof fn lemma_number_entered(
    field: FieldView,
    required_only: bool,
    depth: nat,
    answers: Seq<AnswerView>,
)
    requires
        depth <= 3,
        field.field_type == FieldTypeView::Number,
    ensures
        field_step(field, required_only, depth, answers).notices == hint_on(field) + (if answers.len()
            > 0 && (answers[0] matches AnswerView::Number { text, reading } && text.len() > 0
            && reading is Invalid) {
            seq![NoticeView::Remark("Invalid number, using 0"@)]
        } else {
            Seq::empty()
        }),
        ({
            let s = field_step(field, required_only, depth, answers);
            if answers.len() == 0 {
                s.used == 0 && s.reply == ReplyView::Ask(
                    QuestionView::Number {
                        prompt: words(field, " (number)"@),
                        default: Some("0"@),
                        allow_empty: !field.required,
                    },
                )
            } else {
                match answers[0] {
                    AnswerView::Number { text, reading } => {
                        &&& s.used == 1
                        &&& if text.len() == 0 {
                            s.reply == ReplyView::Value(None)
                        } else {
                            match reading {
                                ReadingView::Finite(n) => s.reply == ReplyView::Value(
                                    Some(JsonView::Number(n)),
                                ),
                                ReadingView::NotFinite => s.reply == ReplyView::Value(
                                    Some(JsonView::Number(NumberView::Int(0))),
                                ),
                                ReadingView::Invalid => {
                                    &&& s.reply == ReplyView::Value(
                                        Some(JsonView::Number(NumberView::Int(0))),
                                    )
                                    &&& s.notices.last() == NoticeView::Remark(
                                        "Invalid number, using 0"@,
                                    )
                                },
                            }
                        }
                    },
                    _ => s.reply == ReplyView::Misfit,
                }
            }
        }),
{
    lemma_words(field);
}

/// Yes or no is asked for with the default of the field, and with no if there is none. What is
/// answered is the value, and no answer is none.
pub proof fn lemma_boolean_entered(
    field: FieldView,
    required_only: bool,
    depth: nat,
    answers: Seq<AnswerView>,
)
    requires
        depth <= 3,
        field.field_type == FieldTypeView::Boolean,
    ensures
        field_step(field, required_only, depth, answers).notices == hint_on(field),
        ({
            let s = field_step(field, required_only, depth, answers);
            if answers.len() == 0 {
                s.used == 0 && s.reply == ReplyView::Ask(
                    QuestionView::Confirm {
                        prompt: words(field, Seq::empty()),
                        preset: field.default matches Some(JsonView::Bool(b)) && b,
                    },
                )
            } else {
                match answers[0] {
                    AnswerView::Confirmed(Some(b)) => s.used == 1 && s.reply == ReplyView::Value(
                        Some(JsonView::Bool(b)),
                    ),
                    AnswerView::Confirmed(None) => s.used == 1 && s.reply == ReplyView::Value(None),
                    _ => s.reply == ReplyView::Misfit,
                }
            }
        }),
{
    lemma_words(field);
}

/// How many answers the items before the one at position `k` use.
pub open spec fn used_by_items(
    item: FieldView,
    required_only: bool,
    depth: nat,
    answers: Seq<AnswerView>,
    k: int,
) -> nat
    decreases k,
{
    if k <= 0 {
        0
    } else {
        let used = field_step(item, required_only, depth, answers).used;
        used + used_by_items(item, required_only, depth, left(answers, used), k - 1)
    }
}

/// What is shown for the items before the one at position `k`.
pub open spec fn shown_by_items(
    item: FieldView,
    required_only: bool,
    depth: nat,
    answers: Seq<AnswerView>,
    k: int,
) -> Seq<NoticeView>
    decreases k,
{
    if k <= 0 {
        Seq::empty()
    } else {
        let s = field_step(item, required_only, depth, answers);
        s.notices + shown_by_items(item, required_only, depth, left(answers, s.used), k - 1)
    }
}

proof fn lemma_left_twice(answers: Seq<AnswerView>, a: nat, b: nat)
    requires
        a <= answers.len(),
    ensures
        left(left(answers, a), b) == left(answers, a + b),
{
    assert(left(left(answers, a), b) =~= left(answers, a + b));
}

proof fn lemma_used_at_most(
    field: FieldView,
    required_only: bool,
    depth: nat,
    answers: Seq<AnswerView>,
)
    ensures
        field_step(field, required_only, depth, answers).used <= answers.len(),
{
    lemma_field_goes_on(field, required_only, depth, answers, Seq::empty());
}

/// The reply for an item, at the answers that are left when the items before it have been entered.
pub open spec fn reply_for_item(
    item: FieldView,
    required_only: bool,
    depth: nat,
    answers: Seq<AnswerView>,
    k: int,
) -> ReplyView {
    field_step(
        item,
        required_only,
        depth,
        left(answers, used_by_items(item, required_only, depth, answers, k)),
    ).reply
}

proof fn lemma_items_in_turn(
    item: FieldView,
    required_only: bool,
    depth: nat,
    answers: Seq<AnswerView>,
    items: Seq<JsonView>,
) -> (entered: Seq<JsonView>)
    ensures
        forall|k: int|
            0 <= k < entered.len() ==> reply_for_item(item, required_only, depth, answers, k)
                == ReplyView::Value(Some(#[trigger] entered[k])),
        match items_step(item, required_only, depth, answers, items).reply {
            ReplyView::Value(v) => {
                &&& v == array_of(items + entered)
                &&& reply_for_item(item, required_only, depth, answers, entered.len() as int)
                    == ReplyView::Value(None)
            },
            reply => reply == reply_for_item(
                item,
                required_only,
                depth,
                answers,
                entered.len() as int,
            ),
        },
        items_step(item, required_only, depth, answers, items).used == used_by_items(
            item,
            required_only,
            depth,
            answers,
            entered.len() as int + 1,
        ),
        items_step(item, required_only, depth, answers, items).notices == shown_by_items(
            item,
            required_only,
            depth,
            answers,
            entered.len() as int + 1,
        ),
    decreases answers.len(),
{
    let first = field_step(item, required_only, depth, answers);
    assert(left(answers, 0) =~= answers);
    lemma_used_at_most(item, required_only, depth, answers);
    lemma_some_uses(item, required_only, depth, answers);
    lemma_entered_has_type(item, required_only, depth, answers);
    match first.reply {
        ReplyView::Value(Some(v)) => {
            assert(v != JsonView::Null);
            let rest = left(answers, first.used);
            let more = lemma_items_in_turn(item, required_only, depth, rest, items.push(v));
            let entered = seq![v] + more;
            assert(items.push(v) + more =~= items + entered);
            assert forall|k: int| 0 < k implies #[trigger] reply_for_item(
                item,
                required_only,
                depth,
                answers,
                k,
            ) == reply_for_item(item, required_only, depth, rest, k - 1) by {
                lemma_left_twice(
                    answers,
                    first.used,
                    used_by_items(item, required_only, depth, rest, k - 1),
                );
            }
            assert(reply_for_item(item, required_only, depth, answers, 0) == first.reply);
            assert forall|k: int| 0 <= k < entered.len() implies reply_for_item(
                item,
                required_only,
                depth,
                answers,
                k,
            ) == ReplyView::Value(Some(#[trigger] entered[k])) by {
                if k > 0 {
                    assert(entered[k] == more[k - 1]);
                }
            }
            assert(entered.len() as int + 1 - 1 == more.len() as int + 1);
            assert(used_by_items(item, required_only, depth, answers, entered.len() as int + 1)
                == first.used + used_by_items(
                item,
                required_only,
                depth,
                rest,
                more.len() as int + 1,
            ));
            assert(shown_by_items(item, required_only, depth, answers, entered.len() as int + 1)
                == first.notices + shown_by_items(
                item,
                required_only,
                depth,
                rest,
                more.len() as int + 1,
            ));
            entered
        },
        _ => {
            assert(used_by_items(item, required_only, depth, left(answers, first.used), 0) == 0);
            assert(used_by_items(item, required_only, depth, answers, 1) == first.used);
            assert(shown_by_items(item, required_only, depth, left(answers, first.used), 0)
                =~= Seq::empty());
            assert(shown_by_items(item, required_only, depth, answers, 1) =~= first.notices);
            assert(items + Seq::<JsonView>::empty() =~= items);
            Seq::empty()
        },
    }
}

/// A list at a depth below two is asked for item by item, under a heading, and what is entered for it
/// is a list: its items are the values that were entered for an item one level deeper, in the order
/// of the answers, until none is entered. Without any item there is no value.
pub proof fn lemma_list_entered(
    field: FieldView,
    item: FieldView,
    required_only: bool,
    depth: nat,
    answers: Seq<AnswerView>,
) -> (items: Seq<JsonView>)
    requires
        depth < 2,
        field.field_type == FieldTypeView::Array(Box::new(item)),
    ensures
        forall|k: int|
            0 <= k < items.len() ==> reply_for_item(item, required_only, depth + 1, answers, k)
                == ReplyView::Value(Some(#[trigger] items[k])),
        ({
            let s = field_step(field, required_only, depth, answers);
            let next = reply_for_item(item, required_only, depth + 1, answers, items.len() as int);
            &&& s.notices == hint_on(field).push(
                NoticeView::Section(
                    "── "@ + field.name + " (array, Enter empty to stop)"@ + " ──"@,
                ),
            ) + shown_by_items(item, required_only, depth + 1, answers, items.len() as int + 1)
            &&& s.used == used_by_items(
                item,
                required_only,
                depth + 1,
                answers,
                items.len() as int + 1,
            )
            &&& match s.reply {
                ReplyView::Value(v) => {
                    &&& next == ReplyView::Value(None)
                    &&& if items.len() == 0 {
                        v is None
                    } else {
                        v == Some(JsonView::Array(items))
                    }
                },
                reply => reply == next,
            }
        }),
{
    let s = field_step(field, required_only, depth, answers);
    let inner = items_step(item, required_only, depth + 1, answers, Seq::empty());
    let shown = crate::interactive::hints(field);
    let heading = crate::interactive::section(field.name, " (array, Enter empty to stop)"@);
    assert(s == crate::interactive::after(shown.push(heading), 0, inner));
    let items = lemma_items_in_turn(item, required_only, depth + 1, answers, Seq::empty());
    assert(Seq::empty() + items =~= items);
    items
}

/// How many answers the fields before the one at position `i` use.
pub open spec fn used_by_fields(
    fields: Seq<FieldView>,
    required_only: bool,
    depth: nat,
    answers: Seq<AnswerView>,
    i: int,
) -> nat
    decreases i,
{
    if i <= 0 {
        0
    } else if required_only && !fields[0].required {
        used_by_fields(fields.drop_first(), required_only, depth, answers, i - 1)
    } else {
        let used = field_step(fields[0], required_only, depth, answers).used;
        used + used_by_fields(
            fields.drop_first(),
            required_only,
            depth,
            left(answers, used),
            i - 1,
        )
    }
}

/// What is shown for the fields before the one at position `i`.
pub open spec fn shown_by_fields(
    fields: Seq<FieldView>,
    required_only: bool,
    depth: nat,
    answers: Seq<AnswerView>,
    i: int,
) -> Seq<NoticeView>
    decreases i,
{
    if i <= 0 {
        Seq::empty()
    } else if required_only && !fields[0].required {
        shown_by_fields(fields.drop_first(), required_only, depth, answers, i - 1)
    } else {
        let s = field_step(fields[0], required_only, depth, answers);
        s.notices + shown_by_fields(
            fields.drop_first(),
            required_only,
            depth,
            left(answers, s.used),
            i - 1,
        )
    }
}

/// The reply for a field, at the answers that are left when the fields before it have been asked for.
pub open spec fn reply_for_field(
    fields: Seq<FieldView>,
    required_only: bool,
    depth: nat,
    answers: Seq<AnswerView>,
    i: int,
) -> ReplyView {
    field_step(
        fields[i],
        required_only,
        depth,
        left(answers, used_by_fields(fields, required_only, depth, answers, i)),
    ).reply
}

/// Whether no two fields have the same name.
pub open spec fn have_own_names(fields: Seq<FieldView>) -> bool {
    forall|i: int, j: int|
        0 <= i < j < fields.len() ==> (#[trigger] fields[i]).name != (#[trigger] fields[j]).name
}

/// Whether the members are what the fields were entered as: each field that is asked for has the
/// value that its answers make, or is not there if they make none, and a field that is not asked for
/// is not there.
pub open spec fn are_entered(
    fields: Seq<FieldView>,
    required_only: bool,
    depth: nat,
    answers: Seq<AnswerView>,
    members: Seq<Member>,
) -> bool {
    forall|i: int|
        0 <= i < fields.len() ==> if required_only && !(#[trigger] fields[i]).required {
            lookup(members, fields[i].name) is None
        } else {
            reply_for_field(fields, required_only, depth, answers, i) == ReplyView::Value(
                lookup(members, fields[i].name),
            )
        }
}

proof fn lemma_fields_in_turn(
    fields: Seq<FieldView>,
    required_only: bool,
    depth: nat,
    answers: Seq<AnswerView>,
    members: Seq<Member>,
) -> (at: int)
    requires
        have_own_names(fields),
        forall|i: int| 0 <= i < fields.len() ==> lookup(members, (#[trigger] fields[i]).name) is None,
    ensures
        match fields_step(fields, required_only, depth, answers, members).reply {
            ReplyView::Value(v) => {
                &&& v == object_of(members_in(v))
                &&& are_entered(fields, required_only, depth, answers, members_in(v))
                &&& forall|name: Seq<char>|
                    (forall|i: int| 0 <= i < fields.len() ==> (#[trigger] fields[i]).name != name)
                        ==> #[trigger] lookup(members_in(v), name) == lookup(members, name)
            },
            reply => {
                &&& 0 <= at < fields.len()
                &&& required_only ==> fields[at].required
                &&& reply == reply_for_field(fields, required_only, depth, answers, at)
                &&& forall|i: int|
                    0 <= i < at && (required_only ==> (#[trigger] fields[i]).required) ==> (
                    reply_for_field(fields, required_only, depth, answers, i) is Value)
            },
        },
        fields_step(fields, required_only, depth, answers, members).reply is Value ==> fields_step(
            fields,
            required_only,
            depth,
            answers,
            members,
        ).used == used_by_fields(fields, required_only, depth, answers, fields.len() as int),
        fields_step(fields, required_only, depth, answers, members).notices == shown_by_fields(
            fields,
            required_only,
            depth,
            answers,
            if fields_step(fields, required_only, depth, answers, members).reply is Value {
                fields.len() as int
            } else {
                at + 1
            },
        ),
    decreases fields.len(),
{
    assert(left(answers, 0) =~= answers);
    let s = fields_step(fields, required_only, depth, answers, members);
    if fields.len() == 0 {
        assert(members_in(object_of(members)) =~= members);
        assert(shown_by_fields(fields, required_only, depth, answers, 0) =~= Seq::empty());
        0
    } else {
        let rest = fields.drop_first();
        assert forall|i: int, j: int| 0 <= i < j < rest.len() implies (#[trigger] rest[i]).name != (
        #[trigger] rest[j]).name by {
            assert(rest[i] == fields[i + 1] && rest[j] == fields[j + 1]);
        }
        let first = field_step(fields[0], required_only, depth, answers);
        lemma_used_at_most(fields[0], required_only, depth, answers);
        let skipped = required_only && !fields[0].required;
        if !skipped && !(first.reply is Value) {
            assert(reply_for_field(fields, required_only, depth, answers, 0) == first.reply);
            assert(shown_by_fields(rest, required_only, depth, left(answers, first.used), 0)
                =~= Seq::empty());
            assert(shown_by_fields(fields, required_only, depth, answers, 1) =~= first.notices);
            0
        } else {
            let then = if skipped {
                answers
            } else {
                left(answers, first.used)
            };
            let set = if skipped {
                members
            } else {
                with_entered(members, fields[0].name, first.reply->Value_0)
            };
            assert forall|name: Seq<char>| #[trigger] lookup(set, name) == (if name
                == fields[0].name && !skipped {
                first.reply->Value_0
            } else {
                lookup(members, name)
            }) by {
                if !skipped && first.reply->Value_0 is Some {
                    lemma_lookup_with_member(
                        members,
                        fields[0].name,
                        first.reply->Value_0->0,
                        name,
                    );
                } else if name == fields[0].name {
                    assert(lookup(members, fields[0].name) is None);
                }
            }
            assert forall|i: int| 0 <= i < rest.len() implies lookup(
                set,
                (#[trigger] rest[i]).name,
            ) is None by {
                assert(rest[i] == fields[i + 1]);
                assert(fields[0].name != fields[i + 1].name);
            }
            let at = lemma_fields_in_turn(rest, required_only, depth, then, set);
            assert forall|i: int| 0 <= i < rest.len() implies #[trigger] reply_for_field(
                rest,
                required_only,
                depth,
                then,
                i,
            ) == reply_for_field(fields, required_only, depth, answers, i + 1) by {
                assert(rest[i] == fields[i + 1]);
                if !skipped {
                    lemma_left_twice(
                        answers,
                        first.used,
                        used_by_fields(rest, required_only, depth, then, i),
                    );
                }
            }
            match s.reply {
                ReplyView::Value(v) => {
                    let all = members_in(v);
                    assert(s.reply == fields_step(rest, required_only, depth, then, set).reply);
                    assert forall|i: int| 0 <= i < rest.len() implies (#[trigger] rest[i]).name
                        != fields[0].name by {
                        assert(rest[i] == fields[i + 1]);
                    }
                    assert(lookup(all, fields[0].name) == lookup(set, fields[0].name));
                    assert forall|i: int| 0 <= i < fields.len() implies if required_only && !(
                    #[trigger] fields[i]).required {
                        lookup(all, fields[i].name) is None
                    } else {
                        reply_for_field(fields, required_only, depth, answers, i)
                            == ReplyView::Value(lookup(all, fields[i].name))
                    } by {
                        if i > 0 {
                            assert(rest[i - 1] == fields[i]);
                            assert(reply_for_field(rest, required_only, depth, then, i - 1)
                                == reply_for_field(fields, required_only, depth, answers, i));
                        } else {
                            assert(reply_for_field(fields, required_only, depth, answers, 0)
                                == first.reply);
                        }
                    }
                    assert forall|name: Seq<char>|
                        (forall|i: int|
                            0 <= i < fields.len() ==> (#[trigger] fields[i]).name
                                != name) implies #[trigger] lookup(all, name) == lookup(
                        members,
                        name,
                    ) by {
                        assert(fields[0].name != name);
                        assert forall|i: int| 0 <= i < rest.len() implies (#[trigger] rest[i]).name
                            != name by {
                            assert(rest[i] == fields[i + 1]);
                        }
                    }
                },
                _ => {
                    assert(fields[at + 1] == rest[at]);
                    assert(reply_for_field(rest, required_only, depth, then, at)
                        == reply_for_field(fields, required_only, depth, answers, at + 1));
                    assert forall|i: int|
                        0 <= i < at + 1 && (required_only ==> (
                        #[trigger] fields[i]).required) implies reply_for_field(
                        fields,
                        required_only,
                        depth,
                        answers,
                        i,
                    ) is Value by {
                        if i > 0 {
                            assert(rest[i - 1] == fields[i]);
                            assert(reply_for_field(rest, required_only, depth, then, i - 1)
                                == reply_for_field(fields, required_only, depth, answers, i));
                        } else {
                            assert(reply_for_field(fields, required_only, depth, answers, 0)
                                == first.reply);
                        }
                    }
                },
            }
            at + 1
        }
    }
}

/// An object with fields at a depth below two is asked for field by field, under a heading, each one
/// level deeper; with `required_only` only required fields are. What is entered for it is an object
/// that has for each field what its answers make, or no value if it has no member. Until then the
/// question is that of the first field without a value.
pub proof fn lemma_object_entered(
    field: FieldView,
    fields: Seq<FieldView>,
    required_only: bool,
    depth: nat,
    answers: Seq<AnswerView>,
) -> (at: int)
    requires
        depth < 2,
        fields.len() > 0,
        field.field_type == FieldTypeView::Object(fields),
        have_own_names(fields),
    ensures
        ({
            let s = field_step(field, required_only, depth, answers);
            &&& s.notices == hint_on(field).push(
                NoticeView::Section("── "@ + field.name + " ──"@),
            ) + shown_by_fields(
                fields,
                required_only,
                depth + 1,
                answers,
                if s.reply is Value {
                    fields.len() as int
                } else {
                    at + 1
                },
            )
            &&& s.reply is Value ==> s.used == used_by_fields(
                fields,
                required_only,
                depth + 1,
                answers,
                fields.len() as int,
            )
            &&& match s.reply {
                ReplyView::Value(Some(v)) => v matches JsonView::Object(members) && members.len() > 0
                    && are_entered(fields, required_only, depth + 1, answers, members),
                ReplyView::Value(None) => are_entered(
                    fields,
                    required_only,
                    depth + 1,
                    answers,
                    Seq::empty(),
                ),
                reply => {
                    &&& 0 <= at < fields.len()
                    &&& required_only ==> fields[at].required
                    &&& reply == reply_for_field(fields, required_only, depth + 1, answers, at)
                    &&& forall|i: int|
                        0 <= i < at && (required_only ==> (#[trigger] fields[i]).required) ==> (
                        reply_for_field(fields, required_only, depth + 1, answers, i) is Value)
                },
            }
        }),
{
    let s = field_step(field, required_only, depth, answers);
    let inner = fields_step(fields, required_only, depth + 1, answers, Seq::empty());
    let shown = crate::interactive::hints(field);
    let heading = crate::interactive::section(field.name, Seq::empty());
    assert(s == crate::interactive::after(shown.push(heading), 0, inner));
    assert("── "@ + field.name + Seq::empty() + " ──"@ =~= "── "@ + field.name + " ──"@);
    lemma_fields_in_turn(fields, required_only, depth + 1, answers, Seq::empty())
}

/// The dialogue is over when each field that is to be asked for has its value: it gives what the
/// answers make for each field, and nothing for a field that is not to be asked for. Until then the
/// question is that of the first field without a value. What is shown stands between a heading and,
/// at the end, a closing line.
pub proof fn lemma_dialogue_enters(
    fields: Seq<FieldView>,
    required_only: bool,
    answers: Seq<AnswerView>,
) -> (at: int)
    requires
        have_own_names(fields),
    ensures
        ({
            let (shown, progress) = dialogue(fields, required_only, answers);
            &&& !(progress is Done) ==> shown == seq![
                NoticeView::Title(
                    "Interactive mode — fill in resource fields (Enter to skip optional)"@,
                ),
                NoticeView::Blank,
            ] + shown_by_fields(fields, required_only, 0, answers, at + 1)
            &&& match progress {
                ProgressView::Done(values) => {
                    &&& are_entered(fields, required_only, 0, answers, values)
                    &&& forall|name: Seq<char>|
                        (forall|i: int| 0 <= i < fields.len() ==> (#[trigger] fields[i]).name != name)
                            ==> #[trigger] lookup(values, name) is None
                    &&& shown == seq![
                        NoticeView::Title(
                            "Interactive mode — fill in resource fields (Enter to skip optional)"@,
                        ),
                        NoticeView::Blank,
                    ] + shown_by_fields(fields, required_only, 0, answers, fields.len() as int)
                        + seq![
                        NoticeView::Blank,
                        NoticeView::Title("✓ Done! Generating YAML..."@),
                        NoticeView::Blank,
                    ]
                },
                ProgressView::Ask(question) => 0 <= at < fields.len() && (required_only
                    ==> fields[at].required) && reply_for_field(
                    fields,
                    required_only,
                    0,
                    answers,
                    at,
                ) == ReplyView::Ask(question) && forall|i: int|
                    0 <= i < at && (required_only ==> (#[trigger] fields[i]).required) ==> (
                    reply_for_field(fields, required_only, 0, answers, i) is Value),
                ProgressView::Misfit => 0 <= at < fields.len() && reply_for_field(
                    fields,
                    required_only,
                    0,
                    answers,
                    at,
                ) == ReplyView::Misfit,
            }
        }),
{
    lemma_fields_in_turn(fields, required_only, 0, answers, Seq::empty())
}

/// A line of a mapping: a name without an equals sign, an equals sign and a text.
pub open spec fn is_pair(line: Seq<char>, key: Seq<char>, value: Seq<char>) -> bool {
    line == key + seq!['='] + value && forall|i: int| 0 <= i < key.len() ==> #[trigger] key[i] != '='
}

proof fn lemma_pair(line: Seq<char>, key: Seq<char>, value: Seq<char>)
    requires
        is_pair(line, key, value),
    ensures
        first_occurrence(line, "="@) == Some(key.len() as int),
        line.take(key.len() as int) == key,
        line.skip(key.len() as int + 1) == value,
{
    let n = key.len() as int;
    reveal_strlit("=");
    assert(line.subrange(n, n + 1) =~= "="@);
    assert forall|j: int| 0 <= j < n implies !occurs_at(line, "="@, j) by {
        assert(line.subrange(j, j + 1)[0] == key[j]);
        assert("="@[0] == '=');
    }
    lemma_first_occurrence(line, "="@, n);
    assert(line.take(n) =~= key);
    assert(line.skip(n + 1) =~= value);
}

/// The answers that enter pairs, one after the other, and then an empty line.
pub open spec fn pair_answers(pairs: Seq<(Seq<char>, Seq<char>)>) -> Seq<AnswerView> {
    pairs.map_values(
        |p: (Seq<char>, Seq<char>)| AnswerView::Text(p.0 + seq!['='] + p.1),
    ).push(AnswerView::Text(Seq::empty()))
}

/// What the last pair of a name gives, both trimmed, if there is one.
pub open spec fn last_given(pairs: Seq<(Seq<char>, Seq<char>)>, name: Seq<char>) -> Option<
    Seq<char>,
>
    decreases pairs.len(),
{
    if pairs.len() == 0 {
        None
    } else if trimmed(pairs.last().0) == name {
        Some(trimmed(pairs.last().1))
    } else {
        last_given(pairs.drop_last(), name)
    }
}

proof fn lemma_last_given_first(pairs: Seq<(Seq<char>, Seq<char>)>, name: Seq<char>)
    requires
        pairs.len() > 0,
    ensures
        last_given(pairs, name) == (match last_given(pairs.drop_first(), name) {
            Some(v) => Some(v),
            None => if trimmed(pairs[0].0) == name {
                Some(trimmed(pairs[0].1))
            } else {
                None
            },
        }),
    decreases pairs.len(),
{
    if pairs.len() > 1 {
        let rest = pairs.drop_last();
        lemma_last_given_first(rest, name);
        assert(rest.drop_first() =~= pairs.drop_first().drop_last());
        assert(rest[0] == pairs[0]);
        assert(pairs.drop_first().last() == pairs.last());
    } else {
        assert(pairs.drop_first() =~= Seq::empty());
        assert(pairs.drop_last() =~= Seq::empty());
        assert(pairs.last() == pairs[0]);
    }
}

proof fn lemma_pairs_make_members(pairs: Seq<(Seq<char>, Seq<char>)>, members: Seq<Member>)
    requires
        forall|k: int, i: int|
            0 <= k < pairs.len() && 0 <= i < (#[trigger] pairs[k]).0.len() ==> #[trigger] pairs[k].0[i]
                != '=',
    ensures
        ({
            let s = mapping_step(pair_answers(pairs), members);
            &&& s.used == pairs.len() + 1
            &&& s.notices.len() == 0
            &&& s.reply matches ReplyView::Value(v) && v == object_of(members_in(v)) && forall|
                name: Seq<char>,
            | #[trigger]
                lookup(members_in(v), name) == (match last_given(pairs, name) {
                    Some(text) => Some(JsonView::String(text)),
                    None => lookup(members, name),
                })
        }),
    decreases pairs.len(),
{
    let answers = pair_answers(pairs);
    if pairs.len() == 0 {
        assert(answers[0] == AnswerView::Text(Seq::empty()));
        assert(members_in(object_of(members)) =~= members);
    } else {
        let (key, value) = pairs[0];
        let line = key + seq!['='] + value;
        let rest = pairs.drop_first();
        assert(answers[0] == AnswerView::Text(line));
        assert(is_pair(line, key, value)) by {
            assert forall|i: int| 0 <= i < key.len() implies #[trigger] key[i] != '=' by {
                assert(pairs[0].0[i] != '=');
            }
        }
        lemma_pair(line, key, value);
        assert(left(answers, 1) =~= pair_answers(rest));
        let set = with_member(members, trimmed(key), JsonView::String(trimmed(value)));
        assert forall|k: int, i: int|
            0 <= k < rest.len() && 0 <= i < (
            #[trigger] rest[k]).0.len() implies #[trigger] rest[k].0[i] != '=' by {
            assert(rest[k] == pairs[k + 1]);
            assert(pairs[k + 1].0[i] != '=');
        }
        lemma_pairs_make_members(rest, set);
        let t = mapping_step(pair_answers(rest), set);
        let s = mapping_step(answers, members);
        assert(s == crate::interactive::after(Seq::empty(), 1, t));
        assert forall|name: Seq<char>| #[trigger]
            lookup(members_in(t.reply->Value_0), name) == (match last_given(pairs, name) {
                Some(text) => Some(JsonView::String(text)),
                None => lookup(members, name),
            }) by {
            lemma_last_given_first(pairs, name);
            lemma_lookup_with_member(
                members,
                trimmed(key),
                JsonView::String(trimmed(value)),
                name,
            );
        }
    }
}

/// A mapping is entered as pairs of a name and a text, line by line, under a heading: it holds for
/// each name the text that was given last, both without white space around them, and nothing else.
/// An empty line ends it; without any pair there is no value.
pub proof fn lemma_mapping_entered(
    field: FieldView,
    required_only: bool,
    depth: nat,
    pairs: Seq<(Seq<char>, Seq<char>)>,
)
    requires
        depth <= 3,
        field.field_type is Mapping,
        forall|k: int, i: int|
            0 <= k < pairs.len() && 0 <= i < (#[trigger] pairs[k]).0.len() ==> #[trigger] pairs[k].0[i]
                != '=',
    ensures
        ({
            let s = field_step(field, required_only, depth, pair_answers(pairs));
            &&& s.used == pairs.len() + 1
            &&& s.notices == hint_on(field).push(
                NoticeView::Section(
                    "── "@ + field.name + " (key=value pairs, Enter empty to stop)"@ + " ──"@,
                ),
            )
            &&& match s.reply {
                ReplyView::Value(Some(JsonView::Object(members))) => members.len() > 0 && forall|
                    name: Seq<char>,
                | #[trigger]
                    lookup(members, name) == (match last_given(pairs, name) {
                        Some(text) => Some(JsonView::String(text)),
                        None => None,
                    }),
                ReplyView::Value(None) => forall|name: Seq<char>| #[trigger]
                    last_given(pairs, name) is None,
                _ => false,
            }
        }),
{
    let answers = pair_answers(pairs);
    let s = field_step(field, required_only, depth, answers);
    let inner = mapping_step(answers, Seq::empty());
    let shown = crate::interactive::hints(field);
    let heading = crate::interactive::section(
        field.name,
        " (key=value pairs, Enter empty to stop)"@,
    );
    lemma_pairs_make_members(pairs, Seq::empty());
    assert(s == crate::interactive::after(shown.push(heading), 0, inner));
    assert(s.notices =~= shown.push(heading));
    assert forall|name: Seq<char>| lookup(Seq::<Member>::empty(), name) is None by {}
    if inner.reply == ReplyView::Value(None) {
        assert forall|name: Seq<char>| #[trigger] last_given(pairs, name) is None by {
            assert(lookup(members_in(None), name) is None);
        }
    }
}

/// A line of a mapping is asked for until an empty one comes. One without an equals sign is not
/// taken, with a remark, and the mapping is asked for as if it had not been entered.
pub proof fn lemma_mapping_asked(
    field: FieldView,
    required_only: bool,
    depth: nat,
    line: Seq<char>,
    rest: Seq<AnswerView>,
)
    requires
        depth <= 3,
        field.field_type is Mapping,
        line.len() > 0,
        forall|i: int| 0 <= i < line.len() ==> #[trigger] line[i] != '=',
    ensures
        field_step(field, required_only, depth, Seq::empty()).reply == ReplyView::Ask(
            QuestionView::Text { prompt: "key=value"@, default: None, allow_empty: true },
        ),
        ({
            let s = field_step(field, required_only, depth, seq![AnswerView::Text(line)] + rest);
            let t = field_step(field, required_only, depth, rest);
            &&& s.reply == t.reply
            &&& s.used == t.used + 1
            &&& s.notices.contains(NoticeView::Remark("Format: key=value"@))
        }),
{
    let answers = seq![AnswerView::Text(line)] + rest;
    assert(left(answers, 1) =~= rest);
    lemma_no_occurrence(line, "="@);
    assert(!occurs(line, "="@)) by {
        reveal_strlit("=");
        assert forall|i: int| !occurs_at(line, "="@, i) by {
            if 0 <= i < line.len() {
                assert(line.subrange(i, i + 1)[0] == line[i]);
                assert("="@[0] == '=');
            }
        }
    }
    let s = field_step(field, required_only, depth, answers);
    let inner = mapping_step(answers, Seq::empty());
    let shown = crate::interactive::hints(field);
    let heading = crate::interactive::section(
        field.name,
        " (key=value pairs, Enter empty to stop)"@,
    );
    assert(inner == crate::interactive::after(
        seq![NoticeView::Remark("Format: key=value"@)],
        1,
        mapping_step(rest, Seq::empty()),
    ));
    assert(s == crate::interactive::after(shown.push(heading), 0, inner));
    assert(inner.notices[0] == NoticeView::Remark("Format: key=value"@));
    assert(s.notices[shown.len() as int + 1] == inner.notices[0]);
}

}
