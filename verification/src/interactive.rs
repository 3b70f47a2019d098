//! The dialogue that fills in the fields of a resource.
//!
//! The dialogue is a function of the answers given so far: it says what there is to show, and
//! either what to ask next or the values that were entered.

use vstd::prelude::*;
use vstd::string::*;

use crate::json::{
    json_i64, json_text, json_views, lemma_json_view, lemma_json_views_push,
    lemma_lookup_with_member, lookup, member_views, set_member, string_items, strings_of, text_less,
    with_member, Json, JsonNumber, JsonView, Member, NumberView,
};
use crate::schema::field::{
    field_ref_views, field_refs, lemma_field_type_view, lemma_field_view, opt_json, FieldSchema,
    FieldType, FieldTypeView, FieldView,
};
use crate::text::{
    find, first_line, first_line_of, first_occurrence, integer_value, opt_text, parse_integer,
    signed_decimal, signed_text, texts, trim, trimmed,
};

verus! {

/// Something to show to the user, each on a line of its own.
#[derive(Debug, PartialEq, Eq)]
pub enum Notice {
    /// A heading of the whole dialogue.
    Title(String),
    /// A heading of one field, indented.
    Section(String),
    /// A description, indented.
    Hint(String),
    /// A remark on an answer, indented.
    Remark(String),
    /// An empty line.
    Blank,
}

/// What a notice is.
pub enum NoticeView {
    Title(Seq<char>),
    Section(Seq<char>),
    Hint(Seq<char>),
    Remark(Seq<char>),
    Blank,
}

impl Notice {
    pub open spec fn view(&self) -> NoticeView {
        match *self {
            Notice::Title(t) => NoticeView::Title(t@),
            Notice::Section(t) => NoticeView::Section(t@),
            Notice::Hint(t) => NoticeView::Hint(t@),
            Notice::Remark(t) => NoticeView::Remark(t@),
            Notice::Blank => NoticeView::Blank,
        }
    }
}

/// What the notices of a list are.
pub open spec fn notice_views(notices: Seq<Notice>) -> Seq<NoticeView> {
    notices.map_values(|n: Notice| n@)
}

/// Something to ask the user.
#[derive(Debug, PartialEq, Eq)]
pub enum Question {
    /// One of the options, the first being preselected, or none.
    Select { prompt: String, options: Vec<String> },
    /// A line of text.
    Text { prompt: String, default: Option<String>, allow_empty: bool },
    /// A number.
    Number { prompt: String, default: Option<String>, allow_empty: bool },
    /// Yes or no, or neither.
    Confirm { prompt: String, preset: bool },
}

/// What a question is.
pub enum QuestionView {
    Select { prompt: Seq<char>, options: Seq<Seq<char>> },
    Text { prompt: Seq<char>, default: Option<Seq<char>>, allow_empty: bool },
    Number { prompt: Seq<char>, default: Option<Seq<char>>, allow_empty: bool },
    Confirm { prompt: Seq<char>, preset: bool },
}

impl Question {
    pub open spec fn view(&self) -> QuestionView {
        match *self {
            Question::Select { prompt, options } => QuestionView::Select {
                prompt: prompt@,
                options: texts(options@),
            },
            Question::Text { prompt, default, allow_empty } => QuestionView::Text {
                prompt: prompt@,
                default: opt_text(default),
                allow_empty,
            },
            Question::Number { prompt, default, allow_empty } => QuestionView::Number {
                prompt: prompt@,
                default: opt_text(default),
                allow_empty,
            },
            Question::Confirm { prompt, preset } => QuestionView::Confirm {
                prompt: prompt@,
                preset,
            },
        }
    }
}

/// How a line of text reads as a floating-point number.
#[derive(Debug, PartialEq, Eq)]
pub enum Reading {
    /// It does not.
    Invalid,
    /// As one that JSON cannot hold.
    NotFinite,
    /// As this one.
    Finite(JsonNumber),
}

/// What the user answered.
#[derive(Debug, PartialEq, Eq)]
pub enum Answer {
    Selected(Option<usize>),
    Text(String),
    Number { text: String, reading: Reading },
    Confirmed(Option<bool>),
}

/// How a line of text reads as a floating-point number.
pub enum ReadingView {
    Invalid,
    NotFinite,
    Finite(NumberView),
}

/// What an answer is.
pub enum AnswerView {
    Selected(Option<usize>),
    Text(Seq<char>),
    Number { text: Seq<char>, reading: ReadingView },
    Confirmed(Option<bool>),
}

impl Reading {
    pub open spec fn view(&self) -> ReadingView {
        match *self {
            Reading::Invalid => ReadingView::Invalid,
            Reading::NotFinite => ReadingView::NotFinite,
            Reading::Finite(n) => ReadingView::Finite(n@),
        }
    }
}

impl Answer {
    pub open spec fn view(&self) -> AnswerView {
        match *self {
            Answer::Selected(i) => AnswerView::Selected(i),
            Answer::Text(t) => AnswerView::Text(t@),
            Answer::Number { text, reading } => AnswerView::Number {
                text: text@,
                reading: reading@,
            },
            Answer::Confirmed(b) => AnswerView::Confirmed(b),
        }
    }
}

/// What the answers of a list are.
pub open spec fn answer_views(answers: Seq<Answer>) -> Seq<AnswerView> {
    answers.map_values(|a: Answer| a@)
}

/// How far a part of the dialogue has come.
#[derive(Debug, PartialEq, Eq)]
pub enum Reply {
    /// The answers are used up, and this is to be asked next.
    Ask(Question),
    /// The part is over with this value, or with none.
    Value(Option<Json>),
    /// An answer does not fit the question it was given to.
    Misfit,
}

/// How far a part of the dialogue has come.
pub enum ReplyView {
    Ask(QuestionView),
    Value(Option<JsonView>),
    Misfit,
}

impl Reply {
    pub open spec fn view(&self) -> ReplyView {
        match *self {
            Reply::Ask(q) => ReplyView::Ask(q@),
            Reply::Value(v) => ReplyView::Value(opt_json(v)),
            Reply::Misfit => ReplyView::Misfit,
        }
    }
}

/// A part of the dialogue: what it shows, how many answers it uses and how far it has come.
#[verifier::ext_equal]
pub struct Step {
    pub notices: Seq<NoticeView>,
    pub used: nat,
    pub reply: ReplyView,
}

/// A step that shows nothing.
pub open spec fn step(used: nat, reply: ReplyView) -> Step {
    Step { notices: Seq::empty(), used, reply }
}

/// `s` after a part that showed `notices` and used `used` answers.
pub open spec fn after(notices: Seq<NoticeView>, used: nat, s: Step) -> Step {
    Step { notices: notices + s.notices, used: used + s.used, reply: s.reply }
}

/// The answers that are left when `used` of them are used.
pub open spec fn left(answers: Seq<AnswerView>, used: nat) -> Seq<AnswerView> {
    if used <= answers.len() {
        answers.skip(used as int)
    } else {
        Seq::empty()
    }
}

/// How much of a description is shown, in characters.
pub const HINT_SIZE: usize = 120;

/// What is shown of a description: its first line, and no more of it than the size of a hint.
pub open spec fn hint_of(description: Seq<char>) -> Seq<char> {
    let line = first_line_of(description);
    if line.len() <= HINT_SIZE {
        line
    } else {
        line.take(HINT_SIZE as int)
    }
}

/// The name of a field and whether it is required.
pub open spec fn prompt_of(field: FieldView) -> Seq<char> {
    if field.required {
        field.name + " (required)"@
    } else {
        field.name
    }
}

/// A value for a text that was entered: an empty one stands for no value.
pub open spec fn entered(text: Seq<char>) -> Option<JsonView> {
    if text.len() == 0 {
        None
    } else {
        Some(JsonView::String(text))
    }
}

/// The text that stands for a field unless another is entered.
pub open spec fn default_text(field: FieldView) -> Seq<char> {
    match field.default {
        Some(v) => match json_text(v) {
            Some(s) => s,
            None => Seq::empty(),
        },
        None => Seq::empty(),
    }
}

/// Asks for a line of text.
pub open spec fn text_step(field: FieldView, answers: Seq<AnswerView>) -> Step {
    if answers.len() == 0 {
        step(
            0,
            ReplyView::Ask(
                QuestionView::Text {
                    prompt: prompt_of(field),
                    default: Some(default_text(field)),
                    allow_empty: !field.required,
                },
            ),
        )
    } else {
        match answers[0] {
            AnswerView::Text(t) => step(1, ReplyView::Value(entered(t))),
            _ => step(0, ReplyView::Misfit),
        }
    }
}

/// The integer that stands for a field unless another is entered.
pub open spec fn default_integer(field: FieldView) -> i64 {
    match field.default {
        Some(v) => match json_i64(v) {
            Some(n) => n,
            None => 0,
        },
        None => 0,
    }
}

/// The number zero.
pub open spec fn zero() -> JsonView {
    JsonView::Number(NumberView::Int(0))
}

/// Asks for an integer. What is none counts as zero.
pub open spec fn integer_step(field: FieldView, answers: Seq<AnswerView>) -> Step {
    if answers.len() == 0 {
        step(
            0,
            ReplyView::Ask(
                QuestionView::Text {
                    prompt: prompt_of(field) + " (integer)"@,
                    default: Some(signed_decimal(default_integer(field) as int)),
                    allow_empty: !field.required,
                },
            ),
        )
    } else {
        match answers[0] {
            AnswerView::Text(t) => if t.len() == 0 {
                step(1, ReplyView::Value(None))
            } else {
                match integer_value(t) {
                    Some(n) => step(
                        1,
                        ReplyView::Value(Some(JsonView::Number(NumberView::Int(n as int)))),
                    ),
                    None => after(
                        seq![NoticeView::Remark("Invalid integer, using 0"@)],
                        0,
                        step(1, ReplyView::Value(Some(zero()))),
                    ),
                }
            },
            _ => step(0, ReplyView::Misfit),
        }
    }
}

/// Asks for a number. What is none counts as zero.
pub open spec fn number_step(field: FieldView, answers: Seq<AnswerView>) -> Step {
    if answers.len() == 0 {
        step(
            0,
            ReplyView::Ask(
                QuestionView::Number {
                    prompt: prompt_of(field) + " (number)"@,
                    default: Some("0"@),
                    allow_empty: !field.required,
                },
            ),
        )
    } else {
        match answers[0] {
            AnswerView::Number { text, reading } => if text.len() == 0 {
                step(1, ReplyView::Value(None))
            } else {
                match reading {
                    ReadingView::Finite(n) => step(
                        1,
                        ReplyView::Value(Some(JsonView::Number(n))),
                    ),
                    ReadingView::NotFinite => step(1, ReplyView::Value(Some(zero()))),
                    ReadingView::Invalid => after(
                        seq![NoticeView::Remark("Invalid number, using 0"@)],
                        0,
                        step(1, ReplyView::Value(Some(zero()))),
                    ),
                }
            },
            _ => step(0, ReplyView::Misfit),
        }
    }
}

/// The choice that stands for a field unless another is made.
pub open spec fn default_choice(field: FieldView) -> bool {
    field.default == Some(JsonView::Bool(true))
}

/// Asks for yes or no.
pub open spec fn boolean_step(field: FieldView, answers: Seq<AnswerView>) -> Step {
    if answers.len() == 0 {
        step(
            0,
            ReplyView::Ask(
                QuestionView::Confirm { prompt: prompt_of(field), preset: default_choice(field) },
            ),
        )
    } else {
        match answers[0] {
            AnswerView::Confirmed(Some(b)) => step(1, ReplyView::Value(Some(JsonView::Bool(b)))),
            AnswerView::Confirmed(None) => step(1, ReplyView::Value(None)),
            _ => step(0, ReplyView::Misfit),
        }
    }
}

/// The object that the members make, if there are any.
pub open spec fn object_of(members: Seq<Member>) -> Option<JsonView> {
    if members.len() == 0 {
        None
    } else {
        Some(JsonView::Object(members))
    }
}

/// Asks for members of a mapping, each as a name and a text with an equals sign between them,
/// until an empty line is entered.
pub open spec fn mapping_step(answers: Seq<AnswerView>, members: Seq<Member>) -> Step
    decreases answers.len(),
{
    if answers.len() == 0 {
        step(
            0,
            ReplyView::Ask(
                QuestionView::Text { prompt: "key=value"@, default: None, allow_empty: true },
            ),
        )
    } else {
        match answers[0] {
            AnswerView::Text(t) => if t.len() == 0 {
                step(1, ReplyView::Value(object_of(members)))
            } else {
                match first_occurrence(t, "="@) {
                    Some(i) => after(
                        Seq::empty(),
                        1,
                        mapping_step(
                            left(answers, 1),
                            with_member(
                                members,
                                trimmed(t.take(i)),
                                JsonView::String(trimmed(t.skip(i + 1))),
                            ),
                        ),
                    ),
                    None => after(
                        seq![NoticeView::Remark("Format: key=value"@)],
                        1,
                        mapping_step(left(answers, 1), members),
                    ),
                }
            },
            _ => step(0, ReplyView::Misfit),
        }
    }
}

/// How deep the fields of a field are asked for.
pub const NESTED: usize = 2;

/// Below this depth nothing is asked for.
pub const DEEPEST: usize = 3;

/// What is shown of the description of a field before it is asked for.
pub open spec fn hints(field: FieldView) -> Seq<NoticeView> {
    match field.description {
        Some(d) => seq![NoticeView::Hint(hint_of(d))],
        None => Seq::empty(),
    }
}

/// The heading of a field that has parts.
pub open spec fn section(name: Seq<char>, remark: Seq<char>) -> NoticeView {
    NoticeView::Section("── "@ + name + remark + " ──"@)
}

/// Asks for a field at the given depth. With `required_only`, of the fields of an object only
/// those that are required are asked for.
pub open spec fn field_step(
    field: FieldView,
    required_only: bool,
    depth: nat,
    answers: Seq<AnswerView>,
) -> Step
    decreases answers.len(), field, 0nat,
{
    if depth > DEEPEST {
        step(0, ReplyView::Value(None))
    } else {
        let shown = hints(field);
        match field.field_type {
            FieldTypeView::String => match field.enum_values {
                Some(values) => {
                    let options = string_items(values);
                    if options.len() == 0 {
                        after(shown, 0, text_step(field, answers))
                    } else if answers.len() == 0 {
                        after(
                            shown,
                            0,
                            step(
                                0,
                                ReplyView::Ask(
                                    QuestionView::Select { prompt: prompt_of(field), options },
                                ),
                            ),
                        )
                    } else {
                        match answers[0] {
                            AnswerView::Selected(Some(i)) => if i < options.len() {
                                after(
                                    shown,
                                    0,
                                    step(
                                        1,
                                        ReplyView::Value(
                                            Some(JsonView::String(options[i as int])),
                                        ),
                                    ),
                                )
                            } else {
                                after(shown, 0, step(0, ReplyView::Misfit))
                            },
                            AnswerView::Selected(None) => if field.required {
                                after(
                                    shown.push(NoticeView::Remark("This field is required!"@)),
                                    1,
                                    field_step(field, required_only, depth, left(answers, 1)),
                                )
                            } else {
                                after(shown, 0, step(1, ReplyView::Value(None)))
                            },
                            _ => after(shown, 0, step(0, ReplyView::Misfit)),
                        }
                    }
                },
                None => after(shown, 0, text_step(field, answers)),
            },
            FieldTypeView::Integer => after(shown, 0, integer_step(field, answers)),
            FieldTypeView::Number => after(shown, 0, number_step(field, answers)),
            FieldTypeView::Boolean => after(shown, 0, boolean_step(field, answers)),
            FieldTypeView::Object(fields) => if fields.len() > 0 && depth < NESTED {
                after(
                    shown.push(section(field.name, Seq::empty())),
                    0,
                    fields_step(fields, required_only, depth + 1, answers, Seq::empty()),
                )
            } else {
                after(shown, 0, text_step(field, answers))
            },
            FieldTypeView::Array(item) => if depth < NESTED {
                after(
                    shown.push(section(field.name, " (array, Enter empty to stop)"@)),
                    0,
                    items_step(*item, required_only, depth + 1, answers, Seq::empty()),
                )
            } else {
                after(shown, 0, text_step(field, answers))
            },
            FieldTypeView::Mapping(_) => after(
                shown.push(section(field.name, " (key=value pairs, Enter empty to stop)"@)),
                0,
                mapping_step(answers, Seq::empty()),
            ),
            FieldTypeView::Any => after(shown, 0, text_step(field, answers)),
        }
    }
}

/// `members` with what was entered for the field `name`, if anything was.
pub open spec fn with_entered(members: Seq<Member>, name: Seq<char>, value: Option<JsonView>) -> Seq<
    Member,
> {
    match value {
        Some(v) => with_member(members, name, v),
        None => members,
    }
}

/// Asks for the fields of an object, one after the other.
pub open spec fn fields_step(
    fields: Seq<FieldView>,
    required_only: bool,
    depth: nat,
    answers: Seq<AnswerView>,
    members: Seq<Member>,
) -> Step
    decreases answers.len(), fields, 0nat,
{
    if fields.len() == 0 {
        step(0, ReplyView::Value(object_of(members)))
    } else if required_only && !fields[0].required {
        fields_step(fields.drop_first(), required_only, depth, answers, members)
    } else {
        let first = field_step(fields[0], required_only, depth, answers);
        match first.reply {
            ReplyView::Value(v) => after(
                first.notices,
                first.used,
                fields_step(
                    fields.drop_first(),
                    required_only,
                    depth,
                    left(answers, first.used),
                    with_entered(members, fields[0].name, v),
                ),
            ),
            _ => first,
        }
    }
}

/// The list that the items make, if there are any.
pub open spec fn array_of(items: Seq<JsonView>) -> Option<JsonView> {
    if items.len() == 0 {
        None
    } else {
        Some(JsonView::Array(items))
    }
}

/// Asks for items of a list until none is entered.
pub open spec fn items_step(
    item: FieldView,
    required_only: bool,
    depth: nat,
    answers: Seq<AnswerView>,
    items: Seq<JsonView>,
) -> Step
    decreases answers.len(), item, 1nat,
{
    let first = field_step(item, required_only, depth, answers);
    match first.reply {
        ReplyView::Value(Some(v)) => if v != JsonView::Null && 0 < first.used <= answers.len() {
            after(
                first.notices,
                first.used,
                items_step(item, required_only, depth, left(answers, first.used), items.push(v)),
            )
        } else {
            Step { reply: ReplyView::Value(array_of(items)), ..first }
        },
        ReplyView::Value(None) => Step { reply: ReplyView::Value(array_of(items)), ..first },
        _ => first,
    }
}

proof fn lemma_left(answers: Seq<AnswerView>, pos: int, used: nat)
    requires
        0 <= pos,
        pos + used <= answers.len(),
    ensures
        left(answers.skip(pos), used) == answers.skip(pos + used),
{
    assert(left(answers.skip(pos), used) =~= answers.skip(pos + used));
}

proof fn lemma_after(n0: Seq<NoticeView>, u0: nat, n1: Seq<NoticeView>, u1: nat, s: Step)
    ensures
        after(n0, u0, after(n1, u1, s)) == after(n0 + n1, u0 + u1, s),
{
    assert(after(n0, u0, after(n1, u1, s)).notices =~= after(n0 + n1, u0 + u1, s).notices);
}

fn show(notices: &mut Vec<Notice>, notice: Notice)
    ensures
        notice_views(final(notices)@) == notice_views(old(notices)@).push(notice@),
{
    notices.push(notice);
    proof {
        assert(notice_views(notices@) =~= notice_views(old(notices)@).push(notice@));
    }
}

/// What is shown of a description.
pub fn hint(description: &str) -> (r: &str)
    ensures
        r@ == hint_of(description@),
{
    let line: &str = first_line(description);
    if line.unicode_len() <= HINT_SIZE {
        line
    } else {
        let r: &str = line.substring_char(0, HINT_SIZE);
        proof {
            assert(r@ =~= line@.take(HINT_SIZE as int));
        }
        r
    }
}

fn prompt(field: &FieldSchema, remark: &str) -> (r: String)
    ensures
        r@ == prompt_of(field@) + remark@,
{
    broadcast use lemma_field_view;

    let mut r: String = field.name.clone();
    if field.required {
        r.append(" (required)");
    }
    r.append(remark);
    r
}

/// Asks for a line of text.
pub fn prompt_string_field(field: &FieldSchema, answers: &Vec<Answer>, pos: usize) -> (r: (
    Reply,
    usize,
))
    requires
        pos <= answers@.len(),
    ensures
        ({
            let s = text_step(field@, answer_views(answers@).skip(pos as int));
            &&& s.notices == Seq::<NoticeView>::empty()
            &&& r.0@ == s.reply
            &&& r.1 == pos + s.used
            &&& r.1 <= answers@.len()
        }),
{
    broadcast use lemma_field_view;

    if pos == answers.len() {
        let default: String = match &field.default {
            Some(v) => match v.as_str() {
                Some(s) => s.to_owned(),
                None => String::new(),
            },
            None => String::new(),
        };
        let prompt: String = prompt(field, "");
        proof {
            reveal_strlit("");
            assert(prompt@ =~= prompt_of(field@));
            assert(default@ == default_text(field@));
        }
        return (
            Reply::Ask(
                Question::Text { prompt, default: Some(default), allow_empty: !field.required },
            ),
            pos,
        );
    }
    proof {
        assert(answer_views(answers@).skip(pos as int)[0] == answers@[pos as int]@);
    }
    match &answers[pos] {
        Answer::Text(t) => {
            if t.as_str().is_empty() {
                (Reply::Value(None), pos + 1)
            } else {
                (Reply::Value(Some(Json::String(t.clone()))), pos + 1)
            }
        },
        _ => (Reply::Misfit, pos),
    }
}

fn ask_integer(
    field: &FieldSchema,
    answers: &Vec<Answer>,
    pos: usize,
    notices: &mut Vec<Notice>,
) -> (r: (Reply, usize))
    requires
        pos <= answers@.len(),
    ensures
        ({
            let s = integer_step(field@, answer_views(answers@).skip(pos as int));
            &&& notice_views(final(notices)@) == notice_views(old(notices)@) + s.notices
            &&& r.0@ == s.reply
            &&& r.1 == pos + s.used
            &&& r.1 <= answers@.len()
        }),
{
    broadcast use lemma_field_view;

    if pos == answers.len() {
        let default: i64 = match &field.default {
            Some(v) => match v.as_i64() {
                Some(n) => n,
                None => 0,
            },
            None => 0,
        };
        return (
            Reply::Ask(
                Question::Text {
                    prompt: prompt(field, " (integer)"),
                    default: Some(signed_text(default)),
                    allow_empty: !field.required,
                },
            ),
            pos,
        );
    }
    proof {
        assert(answer_views(answers@).skip(pos as int)[0] == answers@[pos as int]@);
    }
    match &answers[pos] {
        Answer::Text(t) => {
            if t.as_str().is_empty() {
                return (Reply::Value(None), pos + 1);
            }
            match parse_integer(t.as_str()) {
                Some(n) => (
                    Reply::Value(Some(Json::Number(JsonNumber::from_i64(n)))),
                    pos + 1,
                ),
                None => {
                    show(notices, Notice::Remark("Invalid integer, using 0".to_owned()));
                    (Reply::Value(Some(Json::Number(JsonNumber::Unsigned(0)))), pos + 1)
                },
            }
        },
        _ => (Reply::Misfit, pos),
    }
}

fn ask_number(
    field: &FieldSchema,
    answers: &Vec<Answer>,
    pos: usize,
    notices: &mut Vec<Notice>,
) -> (r: (Reply, usize))
    requires
        pos <= answers@.len(),
    ensures
        ({
            let s = number_step(field@, answer_views(answers@).skip(pos as int));
            &&& notice_views(final(notices)@) == notice_views(old(notices)@) + s.notices
            &&& r.0@ == s.reply
            &&& r.1 == pos + s.used
            &&& r.1 <= answers@.len()
        }),
{
    broadcast use lemma_field_view;

    if pos == answers.len() {
        return (
            Reply::Ask(
                Question::Number {
                    prompt: prompt(field, " (number)"),
                    default: Some("0".to_owned()),
                    allow_empty: !field.required,
                },
            ),
            pos,
        );
    }
    proof {
        assert(answer_views(answers@).skip(pos as int)[0] == answers@[pos as int]@);
    }
    match &answers[pos] {
        Answer::Number { text, reading } => {
            if text.as_str().is_empty() {
                return (Reply::Value(None), pos + 1);
            }
            match reading {
                Reading::Finite(n) => (Reply::Value(Some(Json::Number(n.copy()))), pos + 1),
                Reading::NotFinite => (
                    Reply::Value(Some(Json::Number(JsonNumber::Unsigned(0)))),
                    pos + 1,
                ),
                Reading::Invalid => {
                    show(notices, Notice::Remark("Invalid number, using 0".to_owned()));
                    (Reply::Value(Some(Json::Number(JsonNumber::Unsigned(0)))), pos + 1)
                },
            }
        },
        _ => (Reply::Misfit, pos),
    }
}

fn ask_boolean(field: &FieldSchema, answers: &Vec<Answer>, pos: usize) -> (r: (Reply, usize))
    requires
        pos <= answers@.len(),
    ensures
        ({
            let s = boolean_step(field@, answer_views(answers@).skip(pos as int));
            &&& s.notices == Seq::<NoticeView>::empty()
            &&& r.0@ == s.reply
            &&& r.1 == pos + s.used
            &&& r.1 <= answers@.len()
        }),
{
    broadcast use lemma_field_view;

    if pos == answers.len() {
        let preset: bool = match &field.default {
            Some(Json::Bool(b)) => *b,
            _ => false,
        };
        let prompt: String = prompt(field, "");
        proof {
            reveal_strlit("");
            assert(prompt@ =~= prompt_of(field@));
        }
        return (Reply::Ask(Question::Confirm { prompt, preset }), pos);
    }
    proof {
        assert(answer_views(answers@).skip(pos as int)[0] == answers@[pos as int]@);
    }
    match &answers[pos] {
        Answer::Confirmed(Some(b)) => (Reply::Value(Some(Json::Bool(*b))), pos + 1),
        Answer::Confirmed(None) => (Reply::Value(None), pos + 1),
        _ => (Reply::Misfit, pos),
    }
}

fn object_value(members: Vec<(String, Json)>) -> (r: Option<Json>)
    ensures
        opt_json(r) == object_of(member_views(members@)),
{
    broadcast use lemma_json_view;

    if members.len() == 0 {
        None
    } else {
        Some(Json::Object(members))
    }
}

proof fn lemma_equals_sign()
    ensures
        "="@.len() == 1,
{
    reveal_strlit("=");
}

/// What stands before the first equals sign of a line, and what stands after it.
fn halves(line: &str) -> (r: Option<(&str, &str)>)
    ensures
        match first_occurrence(line@, "="@) {
            Some(i) => r matches Some((key, value)) && key@ == line@.take(i) && value@
                == line@.skip(i + 1),
            None => r is None,
        },
{
    let size: usize = line.unicode_len();
    match find(line, "=") {
        Some(i) => {
            proof {
                lemma_equals_sign();
            }
            let key: &str = line.substring_char(0, i);
            let value: &str = line.substring_char(i + 1, size);
            proof {
                assert(key@ =~= line@.take(i as int));
                assert(value@ =~= line@.skip(i + 1));
            }
            Some((key, value))
        },
        None => None,
    }
}

/// Adds the member that a line of a mapping gives, if it gives one.
#[verifier::spinoff_prover]
fn add_member(text: &String, members: &mut Vec<(String, Json)>) -> (r: bool)
    ensures
        match first_occurrence(text@, "="@) {
            Some(i) => r && member_views(final(members)@) == with_member(
                member_views(old(members)@),
                trimmed(text@.take(i)),
                JsonView::String(trimmed(text@.skip(i + 1))),
            ),
            None => !r && final(members)@ == old(members)@,
        },
{
    match halves(text.as_str()) {
        Some((key, value)) => {
            let key: String = trim(key).to_owned();
            let value: Json = Json::String(trim(value).to_owned());
            proof {
                lemma_json_view(value);
            }
            set_member(members, key, value);
            true
        },
        None => false,
    }
}

fn ask_mapping(answers: &Vec<Answer>, pos: usize, notices: &mut Vec<Notice>) -> (r: (Reply, usize))
    requires
        pos <= answers@.len(),
    ensures
        ({
            let s = mapping_step(answer_views(answers@).skip(pos as int), Seq::empty());
            &&& notice_views(final(notices)@) == notice_views(old(notices)@) + s.notices
            &&& r.0@ == s.reply
            &&& r.1 == pos + s.used
            &&& r.1 <= answers@.len()
        }),
{
    let mut members: Vec<(String, Json)> = Vec::new();
    let mut at: usize = pos;
    let ghost views = answer_views(answers@);
    let ghost whole = mapping_step(views.skip(pos as int), Seq::empty());
    let ghost mut shown: Seq<NoticeView> = Seq::empty();
    proof {
        assert(member_views(members@) =~= Seq::empty());
        assert(whole =~= after(shown, 0, whole));
        assert(notice_views(notices@) =~= notice_views(notices@) + shown);
    }
    while at < answers.len()
        invariant
            pos <= at <= answers@.len(),
            views == answer_views(answers@),
            whole == after(
                shown,
                (at - pos) as nat,
                mapping_step(views.skip(at as int), member_views(members@)),
            ),
            notice_views(notices@) == notice_views(old(notices)@) + shown,
            whole == mapping_step(views.skip(pos as int), Seq::empty()),
        decreases answers@.len() - at,
    {
        let ghost before = member_views(members@);
        proof {
            assert(views.skip(at as int)[0] == answers@[at as int]@);
            lemma_left(views, at as int, 1);
        }
        match &answers[at] {
            Answer::Text(t) => {
                if t.as_str().is_empty() {
                    proof {
                        assert(whole.notices =~= shown);
                    }
                    return (Reply::Value(object_value(members)), at + 1);
                }
                if add_member(t, &mut members) {
                    proof {
                        lemma_after(
                            shown,
                            (at - pos) as nat,
                            Seq::empty(),
                            1,
                            mapping_step(views.skip(at + 1), member_views(members@)),
                        );
                        assert(shown + Seq::<NoticeView>::empty() =~= shown);
                    }
                } else {
                    let remark: Notice = Notice::Remark("Format: key=value".to_owned());
                    proof {
                        lemma_after(
                            shown,
                            (at - pos) as nat,
                            seq![remark@],
                            1,
                            mapping_step(views.skip(at + 1), before),
                        );
                        assert(notice_views(old(notices)@) + (shown + seq![remark@]) =~= (
                        notice_views(old(notices)@) + shown).push(remark@));
                        shown = shown + seq![remark@];
                    }
                    show(notices, remark);
                }
                at = at + 1;
            },
            _ => {
                proof {
                    assert(whole.notices =~= shown);
                }
                return (Reply::Misfit, at);
            },
        }
    }
    proof {
        assert(whole.notices =~= shown);
    }
    (
        Reply::Ask(
            Question::Text { prompt: "key=value".to_owned(), default: None, allow_empty: true },
        ),
        at,
    )
}

/// Asks for a field.
#[verifier::rlimit(40)]
#[verifier::spinoff_prover]
pub fn prompt_field(
    field: &FieldSchema,
    required_only: bool,
    depth: usize,
    answers: &Vec<Answer>,
    pos: usize,
    notices: &mut Vec<Notice>,
) -> (r: (Reply, usize))
    requires
        pos <= answers@.len(),
    ensures
        ({
            let s = field_step(
                field@,
                required_only,
                depth as nat,
                answer_views(answers@).skip(pos as int),
            );
            &&& notice_views(final(notices)@) == notice_views(old(notices)@) + s.notices
            &&& r.0@ == s.reply
            &&& r.1 == pos + s.used
            &&& r.1 <= answers@.len()
        }),
    decreases answers@.len() - pos, field@, 0nat,
{
    broadcast use lemma_field_view, lemma_field_type_view;

    let ghost views = answer_views(answers@);
    let ghost whole = field_step(field@, required_only, depth as nat, views.skip(pos as int));
    let ghost before = notice_views(notices@);
    if depth > DEEPEST {
        proof {
            assert(before + whole.notices =~= before);
        }
        return (Reply::Value(None), pos);
    }
    match &field.description {
        Some(d) => {
            show(notices, Notice::Hint(hint(d.as_str()).to_owned()));
        },
        None => {},
    }
    let ghost shown = hints(field@);
    proof {
        assert(notice_views(notices@) =~= before + shown);
    }
    match &field.field_type {
        FieldType::String => match &field.enum_values {
            Some(values) => {
                let options: Vec<String> = strings_of(values);
                if options.len() == 0 {
                    proof {
                        assert(before + whole.notices =~= before + shown);
                    }
                    return prompt_string_field(field, answers, pos);
                }
                if pos == answers.len() {
                    let prompt: String = prompt(field, "");
                    proof {
                        reveal_strlit("");
                        assert(prompt@ =~= prompt_of(field@));
                        assert(before + whole.notices =~= before + shown);
                    }
                    return (Reply::Ask(Question::Select { prompt, options }), pos);
                }
                proof {
                    assert(views.skip(pos as int)[0] == answers@[pos as int]@);
                    lemma_left(views, pos as int, 1);
                }
                match &answers[pos] {
                    Answer::Selected(Some(i)) => {
                        proof {
                            assert(before + whole.notices =~= before + shown);
                        }
                        if *i < options.len() {
                            (Reply::Value(Some(Json::String(options[*i].clone()))), pos + 1)
                        } else {
                            (Reply::Misfit, pos)
                        }
                    },
                    Answer::Selected(None) => {
                        if field.required {
                            show(notices, Notice::Remark("This field is required!".to_owned()));
                            let r = prompt_field(
                                field,
                                required_only,
                                depth,
                                answers,
                                pos + 1,
                                notices,
                            );
                            proof {
                                assert(notice_views(notices@) =~= before + whole.notices);
                            }
                            r
                        } else {
                            proof {
                                assert(before + whole.notices =~= before + shown);
                            }
                            (Reply::Value(None), pos + 1)
                        }
                    },
                    _ => {
                        proof {
                            assert(before + whole.notices =~= before + shown);
                        }
                        (Reply::Misfit, pos)
                    },
                }
            },
            None => {
                proof {
                    assert(before + whole.notices =~= before + shown);
                }
                prompt_string_field(field, answers, pos)
            },
        },
        FieldType::Integer => {
            let r = ask_integer(field, answers, pos, notices);
            proof {
                assert(notice_views(notices@) =~= before + whole.notices);
            }
            r
        },
        FieldType::Number => {
            let r = ask_number(field, answers, pos, notices);
            proof {
                assert(notice_views(notices@) =~= before + whole.notices);
            }
            r
        },
        FieldType::Boolean => {
            proof {
                assert(before + whole.notices =~= before + shown);
            }
            ask_boolean(field, answers, pos)
        },
        FieldType::Object(fields) => {
            if fields.len() > 0 && depth < NESTED {
                show_section(notices, field.name.as_str(), "");
                let r = ask_fields(
                    field_refs(fields.as_slice()).as_slice(),
                    required_only,
                    depth + 1,
                    answers,
                    pos,
                    notices,
                );
                proof {
                    reveal_strlit("");
                    assert(""@ =~= Seq::<char>::empty());
                    assert(notice_views(notices@) =~= before + whole.notices);
                }
                (r.0, r.1)
            } else {
                proof {
                    assert(before + whole.notices =~= before + shown);
                }
                prompt_string_field(field, answers, pos)
            }
        },
        FieldType::Array(item) => {
            if depth < NESTED {
                show_section(notices, field.name.as_str(), " (array, Enter empty to stop)");
                let r = ask_items(item, required_only, depth + 1, answers, pos, notices);
                proof {
                    assert(notice_views(notices@) =~= before + whole.notices);
                }
                r
            } else {
                proof {
                    assert(before + whole.notices =~= before + shown);
                }
                prompt_string_field(field, answers, pos)
            }
        },
        FieldType::Mapping(_) => {
            show_section(
                notices,
                field.name.as_str(),
                " (key=value pairs, Enter empty to stop)",
            );
            let r = ask_mapping(answers, pos, notices);
            proof {
                assert(notice_views(notices@) =~= before + whole.notices);
            }
            r
        },
        FieldType::Any => {
            proof {
                assert(before + whole.notices =~= before + shown);
            }
            prompt_string_field(field, answers, pos)
        },
    }
}

fn show_section(notices: &mut Vec<Notice>, name: &str, remark: &str)
    ensures
        notice_views(final(notices)@) == notice_views(old(notices)@).push(section(name@, remark@)),
{
    let mut text: String = "── ".to_owned();
    text.append(name);
    text.append(remark);
    text.append(" ──");
    show(notices, Notice::Section(text));
}

/// Asks for the fields of an object, one after the other.
fn ask_fields(
    fields: &[&FieldSchema],
    required_only: bool,
    depth: usize,
    answers: &Vec<Answer>,
    pos: usize,
    notices: &mut Vec<Notice>,
) -> (r: (Reply, usize))
    requires
        pos <= answers@.len(),
    ensures
        ({
            let s = fields_step(
                field_ref_views(fields@),
                required_only,
                depth as nat,
                answer_views(answers@).skip(pos as int),
                Seq::empty(),
            );
            &&& notice_views(final(notices)@) == notice_views(old(notices)@) + s.notices
            &&& r.0@ == s.reply
            &&& r.1 == pos + s.used
            &&& r.1 <= answers@.len()
        }),
    decreases answers@.len() - pos, field_ref_views(fields@), 0nat,
{
    broadcast use lemma_field_view;

    let mut members: Vec<(String, Json)> = Vec::new();
    let mut at: usize = pos;
    let mut i: usize = 0;
    let ghost views = answer_views(answers@);
    let ghost all = field_ref_views(fields@);
    let ghost whole = fields_step(
        all,
        required_only,
        depth as nat,
        views.skip(pos as int),
        Seq::empty(),
    );
    let ghost mut shown: Seq<NoticeView> = Seq::empty();
    proof {
        assert(member_views(members@) =~= Seq::empty());
        assert(all.skip(0) =~= all);
        assert(whole =~= after(shown, 0, whole));
        assert(notice_views(notices@) =~= notice_views(notices@) + shown);
    }
    while i < fields.len()
        invariant
            i <= fields@.len(),
            pos <= at <= answers@.len(),
            views == answer_views(answers@),
            all == field_ref_views(fields@),
            whole == fields_step(
                all,
                required_only,
                depth as nat,
                views.skip(pos as int),
                Seq::empty(),
            ),
            whole == after(
                shown,
                (at - pos) as nat,
                fields_step(
                    all.skip(i as int),
                    required_only,
                    depth as nat,
                    views.skip(at as int),
                    member_views(members@),
                ),
            ),
            notice_views(notices@) == notice_views(old(notices)@) + shown,
        decreases fields@.len() - i,
    {
        let ghost rest = all.skip(i as int);
        let ghost old_members = member_views(members@);
        proof {
            assert(rest[0] == fields@[i as int]@);
            assert(rest.drop_first() =~= all.skip(i + 1));
            assert(decreases_to!(all => all[i as int]));
        }
        let field: &FieldSchema = fields[i];
        if required_only && !field.required {
            i = i + 1;
            continue;
        }
        let ghost first = field_step(
            field@,
            required_only,
            depth as nat,
            views.skip(at as int),
        );
        let ghost start = at;
        let (reply, next) = prompt_field(field, required_only, depth, answers, at, notices);
        at = next;
        match reply {
            Reply::Value(value) => {
                proof {
                    lemma_left(views, start as int, first.used);
                    lemma_after(
                        shown,
                        (start - pos) as nat,
                        first.notices,
                        first.used,
                        fields_step(
                            all.skip(i + 1),
                            required_only,
                            depth as nat,
                            views.skip(at as int),
                            with_entered(old_members, field@.name, opt_json(value)),
                        ),
                    );
                    assert(notice_views(notices@) =~= notice_views(old(notices)@) + (shown
                        + first.notices));
                    shown = shown + first.notices;
                }
                match value {
                    Some(v) => {
                        set_member(&mut members, field.name.clone(), v);
                    },
                    None => {},
                }
                i = i + 1;
            },
            other => {
                proof {
                    assert(notice_views(notices@) =~= notice_views(old(notices)@) + whole.notices);
                }
                return (other, at);
            },
        }
    }
    proof {
        assert(whole.notices =~= shown);
    }
    (Reply::Value(object_value(members)), at)
}

/// Asks for items of a list until none is entered.
fn ask_items(
    item: &FieldSchema,
    required_only: bool,
    depth: usize,
    answers: &Vec<Answer>,
    pos: usize,
    notices: &mut Vec<Notice>,
) -> (r: (Reply, usize))
    requires
        pos <= answers@.len(),
    ensures
        ({
            let s = items_step(
                item@,
                required_only,
                depth as nat,
                answer_views(answers@).skip(pos as int),
                Seq::empty(),
            );
            &&& notice_views(final(notices)@) == notice_views(old(notices)@) + s.notices
            &&& r.0@ == s.reply
            &&& r.1 == pos + s.used
            &&& r.1 <= answers@.len()
        }),
    decreases answers@.len() - pos, item@, 1nat,
{
    let mut items: Vec<Json> = Vec::new();
    let mut at: usize = pos;
    let ghost views = answer_views(answers@);
    let ghost whole = items_step(
        item@,
        required_only,
        depth as nat,
        views.skip(pos as int),
        Seq::empty(),
    );
    let ghost mut shown: Seq<NoticeView> = Seq::empty();
    proof {
        assert(json_views(items@) =~= Seq::empty());
        assert(whole =~= after(shown, 0, whole));
        assert(notice_views(notices@) =~= notice_views(notices@) + shown);
    }
    loop
        invariant
            pos <= at <= answers@.len(),
            views == answer_views(answers@),
            whole == items_step(
                item@,
                required_only,
                depth as nat,
                views.skip(pos as int),
                Seq::empty(),
            ),
            whole == after(
                shown,
                (at - pos) as nat,
                items_step(
                    item@,
                    required_only,
                    depth as nat,
                    views.skip(at as int),
                    json_views(items@),
                ),
            ),
            notice_views(notices@) == notice_views(old(notices)@) + shown,
        decreases answers@.len() - at,
    {
        let ghost first = field_step(item@, required_only, depth as nat, views.skip(at as int));
        let ghost start = at;
        let (reply, next) = prompt_field(item, required_only, depth, answers, at, notices);
        at = next;
        proof {
            assert(notice_views(notices@) =~= notice_views(old(notices)@) + (shown
                + first.notices));
            lemma_some_uses(item@, required_only, depth as nat, views.skip(start as int));
        }
        match reply {
            Reply::Value(Some(v)) => {
                if matches!(v, Json::Null) {
                    proof {
                        assert(whole.notices =~= shown + first.notices);
                    }
                    return (Reply::Value(array_value(items)), at);
                }
                proof {
                    lemma_json_views_push(items@, v);
                    lemma_left(views, start as int, first.used);
                    lemma_after(
                        shown,
                        (start - pos) as nat,
                        first.notices,
                        first.used,
                        items_step(
                            item@,
                            required_only,
                            depth as nat,
                            views.skip(at as int),
                            json_views(items@).push(v@),
                        ),
                    );
                    shown = shown + first.notices;
                }
                items.push(v);
            },
            Reply::Value(None) => {
                proof {
                    assert(whole.notices =~= shown + first.notices);
                }
                return (Reply::Value(array_value(items)), at);
            },
            other => {
                proof {
                    assert(whole.notices =~= shown + first.notices);
                }
                return (other, at);
            },
        }
    }
}

fn array_value(items: Vec<Json>) -> (r: Option<Json>)
    ensures
        opt_json(r) == array_of(json_views(items@)),
{
    broadcast use lemma_json_view;

    if items.len() == 0 {
        None
    } else {
        Some(Json::Array(items))
    }
}

/// A value that is entered for a field takes at least one answer.
pub proof fn lemma_some_uses(
    field: FieldView,
    required_only: bool,
    depth: nat,
    answers: Seq<AnswerView>,
)
    ensures
        field_step(field, required_only, depth, answers).reply matches ReplyView::Value(Some(_))
            ==> field_step(field, required_only, depth, answers).used > 0,
    decreases answers.len(), field, 0nat,
{
    if depth <= DEEPEST {
        match field.field_type {
            FieldTypeView::Object(fields) => {
                lemma_fields_use(fields, required_only, depth + 1, answers, Seq::empty());
            },
            FieldTypeView::Array(item) => {
                lemma_items_use(*item, required_only, depth + 1, answers, Seq::empty());
            },
            FieldTypeView::Mapping(_) => {
                assert(mapping_step(answers, Seq::empty()).reply is Value ==> mapping_step(
                    answers,
                    Seq::empty(),
                ).used > 0);
            },
            _ => {},
        }
    }
}

proof fn lemma_fields_use(
    fields: Seq<FieldView>,
    required_only: bool,
    depth: nat,
    answers: Seq<AnswerView>,
    members: Seq<Member>,
)
    ensures
        ({
            let s = fields_step(fields, required_only, depth, answers, members);
            (s.reply matches ReplyView::Value(Some(_))) && members.len() == 0 ==> s.used > 0
        }),
    decreases answers.len(), fields, 0nat,
{
    if fields.len() > 0 {
        if required_only && !fields[0].required {
            lemma_fields_use(fields.drop_first(), required_only, depth, answers, members);
        } else {
            let first = field_step(fields[0], required_only, depth, answers);
            lemma_some_uses(fields[0], required_only, depth, answers);
            if first.reply is Value {
                lemma_fields_use(
                    fields.drop_first(),
                    required_only,
                    depth,
                    left(answers, first.used),
                    with_entered(members, fields[0].name, first.reply->Value_0),
                );
            }
        }
    }
}

proof fn lemma_items_use(
    item: FieldView,
    required_only: bool,
    depth: nat,
    answers: Seq<AnswerView>,
    items: Seq<JsonView>,
)
    ensures
        ({
            let s = items_step(item, required_only, depth, answers, items);
            (s.reply matches ReplyView::Value(Some(_))) && items.len() == 0 ==> s.used > 0
        }),
    decreases answers.len(), item, 1nat,
{
}

/// How far the dialogue has come.
#[derive(Debug, PartialEq, Eq)]
pub enum Progress {
    /// This is to be asked next.
    Ask(Question),
    /// The dialogue is over with these values of fields.
    Done(Vec<(String, Json)>),
    /// An answer does not fit the question it was given to.
    Misfit,
}

/// How far the dialogue has come.
pub enum ProgressView {
    Ask(QuestionView),
    Done(Seq<Member>),
    Misfit,
}

impl Progress {
    pub open spec fn view(&self) -> ProgressView {
        match *self {
            Progress::Ask(q) => ProgressView::Ask(q@),
            Progress::Done(values) => ProgressView::Done(member_views(values@)),
            Progress::Misfit => ProgressView::Misfit,
        }
    }
}

/// What is shown before the first field is asked for.
pub open spec fn opening() -> Seq<NoticeView> {
    seq![
        NoticeView::Title(
            "Interactive mode — fill in resource fields (Enter to skip optional)"@,
        ),
        NoticeView::Blank,
    ]
}

/// What is shown when the last field has been asked for.
pub open spec fn closing() -> Seq<NoticeView> {
    seq![
        NoticeView::Blank,
        NoticeView::Title("✓ Done! Generating YAML..."@),
        NoticeView::Blank,
    ]
}

/// The members of an object that may be none.
pub open spec fn members_in(value: Option<JsonView>) -> Seq<Member> {
    match value {
        Some(JsonView::Object(members)) => members,
        _ => Seq::empty(),
    }
}

/// What the dialogue on `fields` shows, given the answers so far, and how far it has come.
pub open spec fn dialogue(
    fields: Seq<FieldView>,
    required_only: bool,
    answers: Seq<AnswerView>,
) -> (Seq<NoticeView>, ProgressView) {
    let s = fields_step(fields, required_only, 0, answers, Seq::empty());
    match s.reply {
        ReplyView::Ask(q) => (opening() + s.notices, ProgressView::Ask(q)),
        ReplyView::Value(v) => (
            opening() + s.notices + closing(),
            ProgressView::Done(members_in(v)),
        ),
        ReplyView::Misfit => (opening() + s.notices, ProgressView::Misfit),
    }
}

/// Asks for the values of fields, of those that are required or of all of them. Given the answers
/// so far, returns everything that is to be shown up to this point and how far the dialogue has
/// come.
pub fn prompt_for_fields(
    fields: &[&FieldSchema],
    required_only: bool,
    answers: &Vec<Answer>,
) -> (r: (Vec<Notice>, Progress))
    ensures
        (notice_views(r.0@), r.1@) == dialogue(
            field_ref_views(fields@),
            required_only,
            answer_views(answers@),
        ),
{
    broadcast use lemma_json_view;

    let mut notices: Vec<Notice> = Vec::new();
    show(
        &mut notices,
        Notice::Title(
            "Interactive mode — fill in resource fields (Enter to skip optional)".to_owned(),
        ),
    );
    show(&mut notices, Notice::Blank);
    proof {
        assert(notice_views(notices@) =~= opening());
        assert(answer_views(answers@).skip(0) =~= answer_views(answers@));
    }
    let (reply, _used) = ask_fields(fields, required_only, 0, answers, 0, &mut notices);
    let ghost shown = notice_views(notices@);
    match reply {
        Reply::Ask(question) => (notices, Progress::Ask(question)),
        Reply::Value(value) => {
            show(&mut notices, Notice::Blank);
            show(&mut notices, Notice::Title("✓ Done! Generating YAML...".to_owned()));
            show(&mut notices, Notice::Blank);
            proof {
                assert(notice_views(notices@) =~= shown + closing());
            }
            let values: Vec<(String, Json)> = match value {
                Some(Json::Object(members)) => members,
                _ => Vec::new(),
            };
            proof {
                assert(member_views(values@) =~= members_in(opt_json(value)));
            }
            (notices, Progress::Done(values))
        },
        Reply::Misfit => (notices, Progress::Misfit),
    }
}

/// Whether `t` is how a part of the dialogue that had come to `s` with `given` answers goes on
/// when more answers are given.
pub open spec fn goes_on(s: Step, given: nat, t: Step) -> bool {
    if s.reply is Ask {
        &&& s.used == given
        &&& t.used >= given
        &&& s.notices.is_prefix_of(t.notices)
    } else {
        &&& s.used <= given
        &&& t == s
    }
}

proof fn lemma_goes_on_after(shown: Seq<NoticeView>, used: nat, s: Step, given: nat, t: Step)
    requires
        goes_on(s, given, t),
    ensures
        goes_on(after(shown, used, s), used + given, after(shown, used, t)),
{
    if s.reply is Ask {
        assert(after(shown, used, s).notices =~= after(shown, used, t).notices.take(
            after(shown, used, s).notices.len() as int,
        ));
    }
}

proof fn lemma_mapping_goes_on(
    answers: Seq<AnswerView>,
    more: Seq<AnswerView>,
    members: Seq<Member>,
)
    ensures
        goes_on(
            mapping_step(answers, members),
            answers.len(),
            mapping_step(answers + more, members),
        ),
    decreases answers.len(),
{
    let s = mapping_step(answers, members);
    let t = mapping_step(answers + more, members);
    if answers.len() == 0 {
        assert(s.notices =~= t.notices.take(0));
    } else {
        assert((answers + more)[0] == answers[0]);
        let rest = left(answers, 1);
        assert(left(answers + more, 1) =~= rest + more);
        match answers[0] {
            AnswerView::Text(t) => if t.len() > 0 {
                match first_occurrence(t, "="@) {
                    Some(i) => {
                        let set = with_member(
                            members,
                            trimmed(t.take(i)),
                            JsonView::String(trimmed(t.skip(i + 1))),
                        );
                        lemma_mapping_goes_on(rest, more, set);
                        lemma_goes_on_after(
                            Seq::empty(),
                            1,
                            mapping_step(rest, set),
                            rest.len(),
                            mapping_step(rest + more, set),
                        );
                    },
                    None => {
                        lemma_mapping_goes_on(rest, more, members);
                        lemma_goes_on_after(
                            seq![NoticeView::Remark("Format: key=value"@)],
                            1,
                            mapping_step(rest, members),
                            rest.len(),
                            mapping_step(rest + more, members),
                        );
                    },
                }
            },
            _ => {},
        }
    }
}

proof fn lemma_left_more(answers: Seq<AnswerView>, more: Seq<AnswerView>, used: nat)
    requires
        used <= answers.len(),
    ensures
        left(answers + more, used) == left(answers, used) + more,
{
    assert(left(answers + more, used) =~= left(answers, used) + more);
}

proof fn lemma_simple_goes_on(field: FieldView, answers: Seq<AnswerView>, more: Seq<AnswerView>)
    ensures
        goes_on(text_step(field, answers), answers.len(), text_step(field, answers + more)),
        goes_on(integer_step(field, answers), answers.len(), integer_step(field, answers + more)),
        goes_on(number_step(field, answers), answers.len(), number_step(field, answers + more)),
        goes_on(boolean_step(field, answers), answers.len(), boolean_step(field, answers + more)),
{
    if answers.len() == 0 {
        assert(text_step(field, more).notices.take(0) =~= Seq::empty());
        assert(integer_step(field, more).notices.take(0) =~= Seq::empty());
        assert(number_step(field, more).notices.take(0) =~= Seq::empty());
        assert(boolean_step(field, more).notices.take(0) =~= Seq::empty());
        assert(answers + more =~= more);
    } else {
        assert((answers + more)[0] == answers[0]);
    }
}

/// What is shown and asked for a field does not change when more answers are given: once the field
/// has a value the rest of the answers does not matter, and until then the dialogue goes on from
/// where it was.
pub proof fn lemma_field_goes_on(
    field: FieldView,
    required_only: bool,
    depth: nat,
    answers: Seq<AnswerView>,
    more: Seq<AnswerView>,
)
    ensures
        goes_on(
            field_step(field, required_only, depth, answers),
            answers.len(),
            field_step(field, required_only, depth, answers + more),
        ),
    decreases answers.len(), field, 0nat,
{
    let all = answers + more;
    if depth <= DEEPEST {
        let shown = hints(field);
        lemma_simple_goes_on(field, answers, more);
        lemma_goes_on_after(
            shown,
            0,
            text_step(field, answers),
            answers.len(),
            text_step(field, all),
        );
        lemma_goes_on_after(
            shown,
            0,
            integer_step(field, answers),
            answers.len(),
            integer_step(field, all),
        );
        lemma_goes_on_after(
            shown,
            0,
            number_step(field, answers),
            answers.len(),
            number_step(field, all),
        );
        lemma_goes_on_after(
            shown,
            0,
            boolean_step(field, answers),
            answers.len(),
            boolean_step(field, all),
        );
        match field.field_type {
            FieldTypeView::String => {
                if answers.len() > 0 {
                    assert(all[0] == answers[0]);
                    let again = left(answers, 1);
                    lemma_left_more(answers, more, 1);
                    lemma_field_goes_on(field, required_only, depth, again, more);
                    lemma_goes_on_after(
                        shown.push(NoticeView::Remark("This field is required!"@)),
                        1,
                        field_step(field, required_only, depth, again),
                        again.len(),
                        field_step(field, required_only, depth, again + more),
                    );
                } else if field.enum_values is Some && string_items(field.enum_values->0).len() > 0 {
                    let s = field_step(field, required_only, depth, answers);
                    let t = field_step(field, required_only, depth, all);
                    assert(s.notices =~= shown);
                    assert(shown.is_prefix_of(t.notices));
                }
            },
            FieldTypeView::Object(fields) => {
                lemma_fields_go_on(
                    fields,
                    required_only,
                    depth + 1,
                    answers,
                    more,
                    Seq::empty(),
                );
                lemma_goes_on_after(
                    shown.push(section(field.name, Seq::empty())),
                    0,
                    fields_step(fields, required_only, depth + 1, answers, Seq::empty()),
                    answers.len(),
                    fields_step(fields, required_only, depth + 1, all, Seq::empty()),
                );
            },
            FieldTypeView::Array(item) => {
                lemma_items_go_on(*item, required_only, depth + 1, answers, more, Seq::empty());
                lemma_goes_on_after(
                    shown.push(section(field.name, " (array, Enter empty to stop)"@)),
                    0,
                    items_step(*item, required_only, depth + 1, answers, Seq::empty()),
                    answers.len(),
                    items_step(*item, required_only, depth + 1, all, Seq::empty()),
                );
            },
            FieldTypeView::Mapping(_) => {
                lemma_mapping_goes_on(answers, more, Seq::empty());
                lemma_goes_on_after(
                    shown.push(section(field.name, " (key=value pairs, Enter empty to stop)"@)),
                    0,
                    mapping_step(answers, Seq::empty()),
                    answers.len(),
                    mapping_step(all, Seq::empty()),
                );
            },
            _ => {},
        }
    }
}

proof fn lemma_fields_go_on(
    fields: Seq<FieldView>,
    required_only: bool,
    depth: nat,
    answers: Seq<AnswerView>,
    more: Seq<AnswerView>,
    members: Seq<Member>,
)
    ensures
        goes_on(
            fields_step(fields, required_only, depth, answers, members),
            answers.len(),
            fields_step(fields, required_only, depth, answers + more, members),
        ),
    decreases answers.len(), fields, 0nat,
{
    if fields.len() > 0 {
        let rest = fields.drop_first();
        if required_only && !fields[0].required {
            lemma_fields_go_on(rest, required_only, depth, answers, more, members);
        } else {
            let first = field_step(fields[0], required_only, depth, answers);
            let again = field_step(fields[0], required_only, depth, answers + more);
            lemma_field_goes_on(fields[0], required_only, depth, answers, more);
            if first.reply is Value {
                let next = left(answers, first.used);
                let entered = with_entered(members, fields[0].name, first.reply->Value_0);
                lemma_left_more(answers, more, first.used);
                lemma_fields_go_on(rest, required_only, depth, next, more, entered);
                lemma_goes_on_after(
                    first.notices,
                    first.used,
                    fields_step(rest, required_only, depth, next, entered),
                    next.len(),
                    fields_step(rest, required_only, depth, next + more, entered),
                );
            } else if first.reply is Ask && again.reply is Value {
                let tail = fields_step(
                    rest,
                    required_only,
                    depth,
                    left(answers + more, again.used),
                    with_entered(members, fields[0].name, again.reply->Value_0),
                );
                assert(first.notices =~= (again.notices + tail.notices).take(
                    first.notices.len() as int,
                ));
            }
        }
    }
}

proof fn lemma_items_go_on(
    item: FieldView,
    required_only: bool,
    depth: nat,
    answers: Seq<AnswerView>,
    more: Seq<AnswerView>,
    items: Seq<JsonView>,
)
    ensures
        goes_on(
            items_step(item, required_only, depth, answers, items),
            answers.len(),
            items_step(item, required_only, depth, answers + more, items),
        ),
    decreases answers.len(), item, 1nat,
{
    let all = answers + more;
    let first = field_step(item, required_only, depth, answers);
    let again = field_step(item, required_only, depth, all);
    lemma_field_goes_on(item, required_only, depth, answers, more);
    lemma_some_uses(item, required_only, depth, answers);
    if first.reply is Ask {
        match again.reply {
            ReplyView::Value(Some(v)) => {
                let tail = items_step(
                    item,
                    required_only,
                    depth,
                    left(all, again.used),
                    items.push(v),
                );
                assert(first.notices =~= (again.notices + tail.notices).take(
                    first.notices.len() as int,
                ));
            },
            _ => {},
        }
    } else {
        match first.reply {
            ReplyView::Value(Some(v)) => if v != JsonView::Null {
                let next = left(answers, first.used);
                lemma_left_more(answers, more, first.used);
                lemma_items_go_on(item, required_only, depth, next, more, items.push(v));
                lemma_goes_on_after(
                    first.notices,
                    first.used,
                    items_step(item, required_only, depth, next, items.push(v)),
                    next.len(),
                    items_step(item, required_only, depth, next + more, items.push(v)),
                );
            },
            _ => {},
        }
    }
}

/// The dialogue only ever goes on: with more answers it shows what it showed before, and more only
/// if it had asked for more; once it is over, more answers change nothing.
pub proof fn lemma_dialogue_goes_on(
    fields: Seq<FieldView>,
    required_only: bool,
    answers: Seq<AnswerView>,
    more: Seq<AnswerView>,
)
    ensures
        ({
            let before = dialogue(fields, required_only, answers);
            let now = dialogue(fields, required_only, answers + more);
            if before.1 is Ask {
                before.0.is_prefix_of(now.0)
            } else {
                now == before
            }
        }),
{
    let s = fields_step(fields, required_only, 0, answers, Seq::empty());
    let t = fields_step(fields, required_only, 0, answers + more, Seq::empty());
    lemma_fields_go_on(fields, required_only, 0, answers, more, Seq::empty());
    if s.reply is Ask {
        let before = dialogue(fields, required_only, answers);
        let now = dialogue(fields, required_only, answers + more);
        assert(before.0 =~= now.0.take(before.0.len() as int));
    }
}

/// Whether a value is entered for `name` only if some field of that name is asked for.
pub open spec fn asked_for(fields: Seq<FieldView>, required_only: bool, name: Seq<char>) -> bool {
    exists|i: int|
        0 <= i < fields.len() && (#[trigger] fields[i]).name == name && (required_only
            ==> fields[i].required)
}

proof fn lemma_fields_entered(
    fields: Seq<FieldView>,
    required_only: bool,
    depth: nat,
    answers: Seq<AnswerView>,
    members: Seq<Member>,
    name: Seq<char>,
)
    requires
        !asked_for(fields, required_only, name),
        lookup(members, name) is None,
    ensures
        fields_step(fields, required_only, depth, answers, members).reply matches ReplyView::Value(
            v,
        ) ==> lookup(members_in(v), name) is None,
    decreases fields.len(),
{
    if fields.len() > 0 {
        let rest = fields.drop_first();
        assert forall|i: int| 0 <= i < rest.len() implies !((#[trigger] rest[i]).name == name && (
        required_only ==> rest[i].required)) by {
            assert(rest[i] == fields[i + 1]);
        }
        if required_only && !fields[0].required {
            lemma_fields_entered(rest, required_only, depth, answers, members, name);
        } else {
            assert(fields[0].name != name);
            let first = field_step(fields[0], required_only, depth, answers);
            if first.reply is Value {
                let entered = with_entered(members, fields[0].name, first.reply->Value_0);
                if first.reply->Value_0 is Some {
                    lemma_lookup_with_member(
                        members,
                        fields[0].name,
                        first.reply->Value_0->0,
                        name,
                    );
                }
                lemma_fields_entered(
                    rest,
                    required_only,
                    depth,
                    left(answers, first.used),
                    entered,
                    name,
                );
            }
        }
    }
}

/// The dialogue enters values for those fields only that it was to ask for: with `required_only`
/// for required ones alone.
pub proof fn lemma_only_asked_entered(
    fields: Seq<FieldView>,
    required_only: bool,
    answers: Seq<AnswerView>,
    name: Seq<char>,
)
    ensures
        dialogue(fields, required_only, answers).1 matches ProgressView::Done(values) ==> (lookup(
            values,
            name,
        ) is Some ==> asked_for(fields, required_only, name)),
{
    if !asked_for(fields, required_only, name) {
        lemma_fields_entered(fields, required_only, 0, answers, Seq::empty(), name);
    }
}

/// Whether each member is a text.
pub open spec fn all_texts(members: Seq<Member>) -> bool {
    forall|i: int| 0 <= i < members.len() ==> (#[trigger] members[i]).1 is String
}

proof fn lemma_with_text(members: Seq<Member>, key: Seq<char>, text: Seq<char>)
    requires
        all_texts(members),
    ensures
        all_texts(with_member(members, key, JsonView::String(text))),
    decreases members.len(),
{
    let set = with_member(members, key, JsonView::String(text));
    if members.len() > 0 {
        let rest = members.drop_first();
        assert forall|i: int| 0 <= i < rest.len() implies (#[trigger] rest[i]).1 is String by {
            assert(rest[i] == members[i + 1]);
        }
        lemma_with_text(rest, key, text);
        assert forall|i: int| 0 <= i < set.len() implies (#[trigger] set[i]).1 is String by {
            if members[0].0 == key {
                if i > 0 {
                    assert(set[i] == rest[i - 1]);
                }
            } else if text_less(key, members[0].0) {
                if i > 0 {
                    assert(set[i] == members[i - 1]);
                }
            } else if i > 0 {
                assert(set[i] == with_member(rest, key, JsonView::String(text))[i - 1]);
            } else {
                assert(set[0] == members[0]);
            }
        }
    }
}

proof fn lemma_mapping_holds_texts(answers: Seq<AnswerView>, members: Seq<Member>)
    requires
        all_texts(members),
    ensures
        mapping_step(answers, members).reply matches ReplyView::Value(Some(v)) ==> (
        v matches JsonView::Object(entered) && entered.len() > 0 && all_texts(entered)),
    decreases answers.len(),
{
    if answers.len() > 0 {
        match answers[0] {
            AnswerView::Text(t) => if t.len() > 0 {
                match first_occurrence(t, "="@) {
                    Some(i) => {
                        lemma_with_text(members, trimmed(t.take(i)), trimmed(t.skip(i + 1)));
                        lemma_mapping_holds_texts(
                            left(answers, 1),
                            with_member(
                                members,
                                trimmed(t.take(i)),
                                JsonView::String(trimmed(t.skip(i + 1))),
                            ),
                        );
                    },
                    None => {
                        lemma_mapping_holds_texts(left(answers, 1), members);
                    },
                }
            },
            _ => {},
        }
    }
}

proof fn lemma_fields_make_object(
    fields: Seq<FieldView>,
    required_only: bool,
    depth: nat,
    answers: Seq<AnswerView>,
    members: Seq<Member>,
)
    ensures
        fields_step(fields, required_only, depth, answers, members).reply matches ReplyView::Value(
            Some(v),
        ) ==> (v matches JsonView::Object(entered) && entered.len() > 0),
    decreases fields.len(),
{
    if fields.len() > 0 {
        if required_only && !fields[0].required {
            lemma_fields_make_object(
                fields.drop_first(),
                required_only,
                depth,
                answers,
                members,
            );
        } else {
            let first = field_step(fields[0], required_only, depth, answers);
            if first.reply is Value {
                lemma_fields_make_object(
                    fields.drop_first(),
                    required_only,
                    depth,
                    left(answers, first.used),
                    with_entered(members, fields[0].name, first.reply->Value_0),
                );
            }
        }
    }
}

proof fn lemma_items_make_array(
    item: FieldView,
    required_only: bool,
    depth: nat,
    answers: Seq<AnswerView>,
    items: Seq<JsonView>,
)
    ensures
        items_step(item, required_only, depth, answers, items).reply matches ReplyView::Value(
            Some(v),
        ) ==> (v matches JsonView::Array(entered) && entered.len() > 0),
    decreases answers.len(),
{
    let first = field_step(item, required_only, depth, answers);
    match first.reply {
        ReplyView::Value(Some(v)) => {
            if v != JsonView::Null && 0 < first.used <= answers.len() {
                lemma_items_make_array(
                    item,
                    required_only,
                    depth,
                    left(answers, first.used),
                    items.push(v),
                );
            }
        },
        _ => {},
    }
}

/// Whether a value is one of the type of a field: an integer, a number, a choice, a text that is
/// not empty, a mapping of texts; a list or an object, or a text where those are not asked for part
/// by part.
pub open spec fn is_of_type(v: JsonView, field: FieldView) -> bool {
    match field.field_type {
        FieldTypeView::Integer => v matches JsonView::Number(NumberView::Int(_)),
        FieldTypeView::Number => v is Number,
        FieldTypeView::Boolean => v is Bool,
        FieldTypeView::String => {
            &&& v is String
            &&& match field.enum_values {
                Some(values) => string_items(values).len() > 0 ==> string_items(values).contains(
                    v->String_0,
                ),
                None => v->String_0.len() > 0,
            }
        },
        FieldTypeView::Mapping(_) => v matches JsonView::Object(members) && members.len() > 0
            && all_texts(members),
        FieldTypeView::Object(_) => (v matches JsonView::Object(members) && members.len() > 0) || (
        v matches JsonView::String(s) && s.len() > 0),
        FieldTypeView::Array(_) => (v matches JsonView::Array(items) && items.len() > 0) || (
        v matches JsonView::String(s) && s.len() > 0),
        FieldTypeView::Any => v matches JsonView::String(s) && s.len() > 0,
    }
}

/// A value that is entered for a field is one of the type of the field.
pub proof fn lemma_entered_has_type(
    field: FieldView,
    required_only: bool,
    depth: nat,
    answers: Seq<AnswerView>,
)
    ensures
        field_step(field, required_only, depth, answers).reply matches ReplyView::Value(Some(v))
            ==> is_of_type(v, field),
    decreases answers.len(),
{
    if depth <= DEEPEST {
        match field.field_type {
            FieldTypeView::String => {
                if answers.len() > 0 {
                    lemma_entered_has_type(field, required_only, depth, left(answers, 1));
                }
            },
            FieldTypeView::Object(fields) => {
                lemma_fields_make_object(
                    fields,
                    required_only,
                    depth + 1,
                    answers,
                    Seq::empty(),
                );
            },
            FieldTypeView::Array(item) => {
                lemma_items_make_array(*item, required_only, depth + 1, answers, Seq::empty());
            },
            FieldTypeView::Mapping(_) => {
                lemma_mapping_holds_texts(answers, Seq::empty());
            },
            _ => {},
        }
    }
}

}
