use kubectl_ditto::interactive::{
    hint, prompt_for_fields, Answer, Notice, Progress, Question, Reading,
};
use kubectl_ditto::json::{Json, JsonNumber};
use kubectl_ditto::schema::field::{any_field, FieldSchema, FieldType};

fn field(name: &str, field_type: FieldType, required: bool) -> FieldSchema {
    FieldSchema {
        field_type,
        required,
        ..any_field(name)
    }
}

fn text(s: &str) -> Json {
    Json::String(s.to_string())
}

fn typed(s: &str) -> Answer {
    Answer::Text(s.to_string())
}

fn integer(n: i64) -> Json {
    Json::Number(JsonNumber::from_i64(n))
}

fn run(field: &FieldSchema, answers: Vec<Answer>) -> (Vec<Notice>, Progress) {
    let (mut notices, progress) = prompt_for_fields(&vec![field], false, &answers);
    assert_eq!(
        notices.remove(0),
        Notice::Title(
            "Interactive mode — fill in resource fields (Enter to skip optional)".to_string()
        )
    );
    assert_eq!(notices.remove(0), Notice::Blank);
    if let Progress::Done(_) = progress {
        assert_eq!(notices.pop(), Some(Notice::Blank));
        assert_eq!(
            notices.pop(),
            Some(Notice::Title("✓ Done! Generating YAML...".to_string()))
        );
        assert_eq!(notices.pop(), Some(Notice::Blank));
    }
    (notices, progress)
}

/// What is entered for the field `f`.
fn value(field: &FieldSchema, answers: Vec<Answer>) -> Option<Json> {
    match run(field, answers).1 {
        Progress::Done(mut values) => values.pop().map(|(name, value)| {
            assert_eq!(name, field.name);
            value
        }),
        other => panic!("{other:?}"),
    }
}

fn question(field: &FieldSchema, answers: Vec<Answer>) -> Question {
    match run(field, answers).1 {
        Progress::Ask(q) => q,
        other => panic!("{other:?}"),
    }
}

fn remarks(field: &FieldSchema, answers: Vec<Answer>) -> Vec<String> {
    run(field, answers)
        .0
        .into_iter()
        .filter_map(|n| match n {
            Notice::Remark(t) => Some(t),
            _ => None,
        })
        .collect()
}

#[test]
fn a_text_is_asked_for() {
    let mut f = field("f", FieldType::String, true);
    f.default = Some(text("d"));
    assert_eq!(
        question(&f, vec![]),
        Question::Text {
            prompt: "f (required)".to_string(),
            default: Some("d".to_string()),
            allow_empty: false,
        }
    );
    assert_eq!(value(&f, vec![typed("x")]), Some(text("x")));
    let f = field("f", FieldType::Any, false);
    assert_eq!(
        question(&f, vec![]),
        Question::Text {
            prompt: "f".to_string(),
            default: Some(String::new()),
            allow_empty: true,
        }
    );
    assert_eq!(value(&f, vec![typed("")]), None);
}

#[test]
fn a_default_that_is_no_text_is_not_shown() {
    let mut f = field("f", FieldType::String, false);
    f.default = Some(integer(1));
    match question(&f, vec![]) {
        Question::Text { default, .. } => assert_eq!(default, Some(String::new())),
        other => panic!("{other:?}"),
    }
}

#[test]
fn choices_are_selected_from() {
    let mut f = field("f", FieldType::String, true);
    f.enum_values = Some(vec![text("a"), Json::Null, text("b")]);
    assert_eq!(
        question(&f, vec![]),
        Question::Select {
            prompt: "f (required)".to_string(),
            options: vec!["a".to_string(), "b".to_string()],
        }
    );
    assert_eq!(value(&f, vec![Answer::Selected(Some(1))]), Some(text("b")));
    assert!(matches!(
        run(&f, vec![Answer::Selected(Some(2))]).1,
        Progress::Misfit
    ));
    // A required field is asked for again.
    assert_eq!(
        remarks(&f, vec![Answer::Selected(None), Answer::Selected(Some(0))]),
        vec!["This field is required!".to_string()]
    );
    assert_eq!(
        value(&f, vec![Answer::Selected(None), Answer::Selected(Some(0))]),
        Some(text("a"))
    );
    f.required = false;
    assert_eq!(value(&f, vec![Answer::Selected(None)]), None);
}

#[test]
fn choices_without_text_leave_a_text_to_be_asked_for() {
    let mut f = field("f", FieldType::String, false);
    f.enum_values = Some(vec![integer(1)]);
    assert!(matches!(question(&f, vec![]), Question::Text { .. }));
}

#[test]
fn an_integer_is_asked_for() {
    let mut f = field("f", FieldType::Integer, false);
    f.default = Some(integer(-3));
    assert_eq!(
        question(&f, vec![]),
        Question::Text {
            prompt: "f (integer)".to_string(),
            default: Some("-3".to_string()),
            allow_empty: true,
        }
    );
    assert_eq!(value(&f, vec![typed("+42")]), Some(integer(42)));
    assert_eq!(
        value(&f, vec![typed("-9223372036854775808")]),
        Some(integer(i64::MIN))
    );
    assert_eq!(value(&f, vec![typed("")]), None);
    for wrong in ["9223372036854775808", "1.0", "-", " 1", "0x10"] {
        assert_eq!(
            remarks(&f, vec![typed(wrong)]),
            vec!["Invalid integer, using 0".to_string()]
        );
        assert_eq!(value(&f, vec![typed(wrong)]), Some(integer(0)));
    }
    f.default = Some(Json::Number(JsonNumber::Unsigned(u64::MAX)));
    match question(&f, vec![]) {
        Question::Text { default, .. } => assert_eq!(default, Some("0".to_string())),
        other => panic!("{other:?}"),
    }
}

#[test]
fn a_number_is_asked_for() {
    let f = field("f", FieldType::Number, true);
    assert_eq!(
        question(&f, vec![]),
        Question::Number {
            prompt: "f (required) (number)".to_string(),
            default: Some("0".to_string()),
            allow_empty: false,
        }
    );
    let answer = |text: &str, reading: Reading| Answer::Number {
        text: text.to_string(),
        reading,
    };
    let half = || JsonNumber::Float("0.5".to_string());
    assert_eq!(
        value(&f, vec![answer(".5", Reading::Finite(half()))]),
        Some(Json::Number(half()))
    );
    assert_eq!(
        value(&f, vec![answer("inf", Reading::NotFinite)]),
        Some(integer(0))
    );
    assert!(remarks(&f, vec![answer("inf", Reading::NotFinite)]).is_empty());
    assert_eq!(
        value(&f, vec![answer("x", Reading::Invalid)]),
        Some(integer(0))
    );
    assert_eq!(
        remarks(&f, vec![answer("x", Reading::Invalid)]),
        vec!["Invalid number, using 0".to_string()]
    );
    assert_eq!(value(&f, vec![answer("", Reading::Invalid)]), None);
    assert!(matches!(run(&f, vec![typed("1")]).1, Progress::Misfit));
}

#[test]
fn yes_or_no_is_asked_for() {
    let mut f = field("f", FieldType::Boolean, false);
    f.default = Some(Json::Bool(true));
    assert_eq!(
        question(&f, vec![]),
        Question::Confirm {
            prompt: "f".to_string(),
            preset: true,
        }
    );
    assert_eq!(
        value(&f, vec![Answer::Confirmed(Some(false))]),
        Some(Json::Bool(false))
    );
    assert_eq!(value(&f, vec![Answer::Confirmed(None)]), None);
    f.default = None;
    assert!(matches!(
        question(&f, vec![]),
        Question::Confirm { preset: false, .. }
    ));
}

#[test]
fn a_mapping_is_asked_for_line_by_line() {
    let f = field("labels", FieldType::Mapping(None), false);
    assert_eq!(
        question(&f, vec![]),
        Question::Text {
            prompt: "key=value".to_string(),
            default: None,
            allow_empty: true,
        }
    );
    let answers = || {
        vec![
            typed("b = 1=2 "),
            typed("nonsense"),
            typed("a=x"),
            typed("b=3"),
            typed(""),
        ]
    };
    assert_eq!(
        value(&f, answers()),
        Some(Json::Object(vec![
            ("a".to_string(), text("x")),
            ("b".to_string(), text("3")),
        ]))
    );
    assert_eq!(
        run(&f, answers()).0,
        vec![
            Notice::Section(
                "── labels (key=value pairs, Enter empty to stop) ──".to_string()
            ),
            Notice::Remark("Format: key=value".to_string()),
        ]
    );
    assert_eq!(
        value(&f, vec![typed("b = 1=2 "), typed("")]),
        Some(Json::Object(vec![("b".to_string(), text("1=2"))]))
    );
    assert_eq!(value(&f, vec![typed("")]), None);
}

#[test]
fn a_list_is_asked_for_item_by_item() {
    let f = field(
        "args",
        FieldType::Array(Box::new(field("items", FieldType::String, false))),
        false,
    );
    assert_eq!(
        value(&f, vec![typed("a"), typed("b"), typed("")]),
        Some(Json::Array(vec![text("a"), text("b")]))
    );
    assert_eq!(value(&f, vec![typed("")]), None);
    assert_eq!(
        run(&f, vec![]).0,
        vec![Notice::Section("── args (array, Enter empty to stop) ──".to_string())]
    );
}

#[test]
fn the_fields_of_an_object_are_asked_for() {
    let f = field(
        "spec",
        FieldType::Object(vec![
            field("z", FieldType::String, false),
            field("a", FieldType::Boolean, false),
        ]),
        true,
    );
    assert_eq!(
        value(&f, vec![typed("x"), Answer::Confirmed(Some(true))]),
        Some(Json::Object(vec![
            ("a".to_string(), Json::Bool(true)),
            ("z".to_string(), text("x")),
        ]))
    );
    assert_eq!(
        value(&f, vec![typed(""), Answer::Confirmed(None)]),
        None
    );
    assert_eq!(
        run(&f, vec![]).0,
        vec![Notice::Section("── spec ──".to_string())]
    );
}

#[test]
fn deep_objects_and_empty_ones_are_asked_for_as_text() {
    let inner = |name: &str, t: FieldType| field(name, FieldType::Object(vec![field("x", t, false)]), false);
    let f = field(
        "a",
        FieldType::Object(vec![inner(
            "b",
            FieldType::Object(vec![field("deep", FieldType::Boolean, false)]),
        )]),
        false,
    );
    // a and b open up, x does not.
    match question(&f, vec![]) {
        Question::Text { prompt, .. } => assert_eq!(prompt, "x"),
        other => panic!("{other:?}"),
    }
    let f = field("a", FieldType::Object(vec![]), false);
    assert!(matches!(question(&f, vec![]), Question::Text { .. }));
}

#[test]
fn only_required_fields_are_asked_for_where_that_is_wanted() {
    let f = field(
        "spec",
        FieldType::Object(vec![
            field("skipped", FieldType::String, false),
            field("kept", FieldType::String, true),
        ]),
        true,
    );
    let g = field("other", FieldType::String, false);
    let fields = vec![&g, &f];
    match prompt_for_fields(&fields, true, &vec![]).1 {
        Progress::Ask(Question::Text { prompt, .. }) => assert_eq!(prompt, "kept (required)"),
        other => panic!("{other:?}"),
    }
    match prompt_for_fields(&fields, true, &vec![typed("v")]).1 {
        Progress::Done(values) => assert_eq!(
            values,
            vec![(
                "spec".to_string(),
                Json::Object(vec![("kept".to_string(), text("v"))])
            )]
        ),
        other => panic!("{other:?}"),
    }
    match prompt_for_fields(&fields, false, &vec![]).1 {
        Progress::Ask(Question::Text { prompt, .. }) => assert_eq!(prompt, "other"),
        other => panic!("{other:?}"),
    }
}

#[test]
fn the_dialogue_only_goes_on() {
    let f = field(
        "args",
        FieldType::Array(Box::new(field("items", FieldType::String, false))),
        false,
    );
    let g = field("n", FieldType::Integer, true);
    let fields = vec![&f, &g];
    let answers = ["a", "", "7", "too many"];
    let mut last: Vec<Notice> = Vec::new();
    for n in 0..=answers.len() {
        let given: Vec<Answer> = answers[..n].iter().map(|a| typed(a)).collect();
        let (notices, progress) = prompt_for_fields(&fields, false, &given);
        assert_eq!(&notices[..last.len()], &last[..]);
        assert_eq!(matches!(progress, Progress::Done(_)), n >= 3);
        last = notices;
    }
}

#[test]
fn descriptions_are_hints() {
    let mut f = field("f", FieldType::String, false);
    f.description = Some("First line\nSecond".to_string());
    assert_eq!(run(&f, vec![]).0, vec![Notice::Hint("First line".to_string())]);
    assert_eq!(hint("x\r\ny"), "x");
    assert_eq!(hint(""), "");
    let long = "a".repeat(200);
    assert_eq!(hint(&long), &long[..120]);
    let just = "é".repeat(120);
    assert_eq!(hint(&just), just);
    let wide = format!("a{}", "é".repeat(200));
    assert_eq!(hint(&wide), format!("a{}", "é".repeat(119)));
    f.description = Some(wide);
    assert_eq!(
        run(&f, vec![]).0,
        vec![Notice::Hint(format!("a{}", "é".repeat(119)))]
    );
}
