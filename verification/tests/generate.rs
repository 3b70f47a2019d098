use kubectl_ditto::cli::Args;
use kubectl_ditto::discovery::{ResolvedApiResource, ResolvedResource};
use kubectl_ditto::generate::{
    build_node, fields_to_render, filter_fields, first_sentence, format_value, generate_yaml,
    is_commonly_needed, render, value_to_node, Generated,
};
use kubectl_ditto::interactive::{Answer, Notice, Question};
use kubectl_ditto::json::{Json, JsonNumber};
use kubectl_ditto::schema::field::{any_field, FieldSchema, FieldType, ResourceSchema};
use kubectl_ditto::yaml::{
    emit_array_item, emit_entry, emit_first_array_field, emit_yaml, inline_comment, YamlNode,
};

fn text(s: &str) -> Json {
    Json::String(s.to_string())
}

fn number(n: u64) -> Json {
    Json::Number(JsonNumber::Unsigned(n))
}

fn field(name: &str, field_type: FieldType, required: bool) -> FieldSchema {
    FieldSchema {
        field_type,
        required,
        ..any_field(name)
    }
}

fn scalar(s: &str) -> YamlNode {
    YamlNode::Scalar(s.to_string())
}

fn entry(key: &str, node: YamlNode) -> (String, YamlNode, Option<String>) {
    (key.to_string(), node, None)
}

fn described(key: &str, node: YamlNode, desc: &str) -> (String, YamlNode, Option<String>) {
    (key.to_string(), node, Some(desc.to_string()))
}

fn args() -> Args {
    Args {
        resource: Some("deploy".to_string()),
        name: None,
        namespace: None,
        kubeconfig: None,
        context: None,
        minimal: false,
        full: false,
        interactive: false,
        no_comments: false,
        dump_schema: false,
    }
}

fn deployment() -> ResolvedResource {
    ResolvedResource {
        api_resource: ResolvedApiResource {
            kind: "Deployment".to_string(),
            plural: "deployments".to_string(),
        },
        namespaced: true,
        group: "apps".to_string(),
        version: "v1".to_string(),
    }
}

fn spec_schema() -> ResourceSchema {
    let port = FieldType::Object(vec![
        field("containerPort", FieldType::Integer, true),
        field("hostIP", FieldType::String, false),
    ]);
    let container = FieldType::Object(vec![
        field("env", FieldType::Mapping(None), false),
        field("name", FieldType::String, true),
        field("image", FieldType::String, false),
        field(
            "ports",
            FieldType::Array(Box::new(field("items", port, false))),
            false,
        ),
        field("tty", FieldType::Boolean, false),
    ]);
    let mut replicas = field("replicas", FieldType::Integer, false);
    replicas.default = Some(number(1));
    replicas.description = Some("Number of desired pods. Defaults to 1.".to_string());
    let spec = FieldType::Object(vec![
        replicas,
        field(
            "containers",
            FieldType::Array(Box::new(field("items", container, false))),
            true,
        ),
        field("paused", FieldType::Boolean, false),
    ]);
    let mut spec_field = field("spec", spec, true);
    spec_field.description = Some("What is wanted\nin more words".to_string());
    ResourceSchema {
        fields: vec![
            field("apiVersion", FieldType::String, false),
            field("kind", FieldType::String, false),
            field("metadata", FieldType::Any, false),
            spec_field,
            field("extra", FieldType::Any, false),
            field("status", FieldType::Any, false),
        ],
        description: None,
    }
}

fn yaml(args: &Args) -> String {
    match generate_yaml(&deployment(), &spec_schema(), args, &vec![]) {
        (notices, Generated::Yaml(text)) => {
            assert!(notices.is_empty());
            text
        }
        other => panic!("{other:?}"),
    }
}

#[test]
fn a_document_with_common_fields() {
    assert_eq!(
        yaml(&args()),
        "---\n\
         apiVersion: apps/v1\n\
         kind: Deployment\n\
         metadata:\n  name: my-resource\n  namespace: default\n\
         spec:  # What is wanted\n  \
         replicas: 1  # Number of desired pods.\n  \
         containers:\n  \
         - name: \"\"\n    \
         image: \"\"\n    \
         env:\n      # key: value\n    \
         ports:\n    \
         - containerPort: 0\n\
         extra: null"
    );
}

#[test]
fn minimal_output_has_required_fields_alone() {
    let text = yaml(&Args {
        minimal: true,
        name: Some("web".to_string()),
        namespace: Some("prod".to_string()),
        ..args()
    });
    assert_eq!(
        text,
        "---\n\
         apiVersion: apps/v1\n\
         kind: Deployment\n\
         metadata:\n  name: web\n  namespace: prod\n\
         spec:  # What is wanted\n  \
         containers:\n  \
         - name: \"\""
    );
}

#[test]
fn full_output_has_every_field() {
    let text = yaml(&Args {
        full: true,
        ..args()
    });
    assert!(text.contains("  paused: false"));
    assert!(text.contains("    tty: false"));
    assert!(text.contains("      hostIP: \"\""));
    assert!(!text.contains("status"));
}

#[test]
fn comments_can_be_suppressed() {
    let with = yaml(&args());
    let without = yaml(&Args {
        no_comments: true,
        ..args()
    });
    assert!(!without.contains("What is wanted"));
    assert!(without.contains("      # key: value"));
    let (a, b): (Vec<&str>, Vec<&str>) = (with.lines().collect(), without.lines().collect());
    assert_eq!(a.len(), b.len());
    for (full, bare) in a.iter().zip(&b) {
        assert!(full == bare || full.starts_with(&format!("{bare}  # ")));
    }
}

#[test]
fn a_cluster_scoped_resource_of_the_core_has_no_namespace() {
    let node = ResolvedResource {
        api_resource: ResolvedApiResource {
            kind: "Node".to_string(),
            plural: "nodes".to_string(),
        },
        namespaced: false,
        group: String::new(),
        version: "v1".to_string(),
    };
    let schema = ResourceSchema {
        fields: vec![],
        description: None,
    };
    let asked = Args {
        namespace: Some("web".to_string()),
        ..args()
    };
    assert_eq!(
        render(&node, &schema, &asked, None),
        "---\napiVersion: v1\nkind: Node\nmetadata:\n  name: my-resource"
    );
}

#[test]
fn entered_values_override_everything() {
    let mut schema = ResourceSchema {
        fields: vec![field("replicas", FieldType::Integer, true), field("tags", FieldType::Any, true)],
        description: None,
    };
    schema.fields[0].default = Some(number(1));
    let values = vec![
        ("replicas".to_string(), number(7)),
        (
            "tags".to_string(),
            Json::Array(vec![text("a"), Json::Object(vec![("k".to_string(), text("v"))])]),
        ),
    ];
    assert_eq!(
        render(&deployment(), &schema, &args(), Some(&values)),
        "---\napiVersion: apps/v1\nkind: Deployment\nmetadata:\n  name: my-resource\n  \
         namespace: default\nreplicas: 7\ntags:\n- \"a\"\n- k: \"v\""
    );
}

#[test]
fn interactive_mode_asks_for_required_fields_or_for_all() {
    let schema = ResourceSchema {
        fields: vec![
            field("optional", FieldType::Boolean, false),
            field("needed", FieldType::String, true),
        ],
        description: None,
    };
    let asking = Args {
        interactive: true,
        ..args()
    };
    match generate_yaml(&deployment(), &schema, &asking, &vec![]) {
        (notices, Generated::Ask(Question::Text { prompt, .. })) => {
            assert_eq!(prompt, "needed (required)");
            assert_eq!(notices.len(), 2);
        }
        other => panic!("{other:?}"),
    }
    match generate_yaml(
        &deployment(),
        &schema,
        &asking,
        &vec![Answer::Text("yes".to_string())],
    ) {
        (notices, Generated::Yaml(text)) => {
            assert!(text.ends_with("optional: false\nneeded: \"yes\""));
            assert_eq!(
                notices[3],
                Notice::Title("✓ Done! Generating YAML...".to_string())
            );
        }
        other => panic!("{other:?}"),
    }
    let all = Args {
        full: true,
        ..asking
    };
    match generate_yaml(&deployment(), &schema, &all, &vec![]) {
        (_, Generated::Ask(Question::Confirm { prompt, .. })) => assert_eq!(prompt, "optional"),
        other => panic!("{other:?}"),
    }
    match generate_yaml(&deployment(), &schema, &all, &vec![Answer::Text(String::new())]) {
        (_, Generated::Misfit) => {}
        other => panic!("{other:?}"),
    }
}

#[test]
fn reserved_fields_are_not_rendered() {
    let schema = spec_schema();
    let names = |minimal: bool| -> Vec<String> {
        fields_to_render(&schema, minimal)
            .iter()
            .map(|f| f.name.clone())
            .collect()
    };
    assert_eq!(names(false), vec!["spec".to_string(), "extra".to_string()]);
    assert_eq!(names(true), vec!["spec".to_string()]);
}

#[test]
fn a_filter_that_nothing_passes_shows_everything() {
    let fields = vec![
        field("foo", FieldType::String, false),
        field("bar", FieldType::String, false),
    ];
    assert_eq!(filter_fields(&fields, true, false).len(), 2);
    assert_eq!(filter_fields(&fields, false, false).len(), 2);
    let some = vec![
        field("foo", FieldType::String, false),
        field("image", FieldType::String, false),
        field("bar", FieldType::String, true),
    ];
    let names = |minimal: bool, full: bool| -> Vec<String> {
        filter_fields(&some, minimal, full)
            .iter()
            .map(|f| f.name.clone())
            .collect()
    };
    assert_eq!(names(false, false), vec!["image".to_string(), "bar".to_string()]);
    assert_eq!(names(true, true), vec!["bar".to_string()]);
    assert_eq!(names(false, true).len(), 3);
    assert!(filter_fields(&vec![], true, false).is_empty());
}

#[test]
fn commonly_needed_names() {
    assert!(is_commonly_needed(&field("metrics", FieldType::Any, false)));
    assert!(is_commonly_needed(&field("volumeMounts", FieldType::Any, false)));
    assert!(!is_commonly_needed(&field("tolerations", FieldType::Any, false)));
}

#[test]
fn scaffolds_by_type() {
    let node = |f: &FieldSchema| build_node(f, false, false, None);
    assert_eq!(node(&field("a", FieldType::String, false)), scalar("\"\""));
    let mut date = field("a", FieldType::String, false);
    date.format = Some("date-time".to_string());
    assert_eq!(node(&date), scalar("\"2025-01-01T00:00:00Z\""));
    assert_eq!(node(&field("a", FieldType::Integer, false)), scalar("0"));
    assert_eq!(node(&field("a", FieldType::Number, false)), scalar("0.0"));
    assert_eq!(node(&field("a", FieldType::Boolean, false)), scalar("false"));
    assert_eq!(node(&field("a", FieldType::Any, false)), scalar("null"));
    assert_eq!(node(&field("a", FieldType::Object(vec![]), false)), scalar("{}"));
    assert_eq!(node(&field("a", FieldType::Mapping(None), false)), YamlNode::Mapping);
    assert_eq!(
        node(&field(
            "a",
            FieldType::Array(Box::new(field("items", FieldType::Integer, false))),
            false
        )),
        YamlNode::Array(vec![scalar("0")])
    );
}

#[test]
fn defaults_and_choices_come_before_the_type() {
    let mut f = field("a", FieldType::Integer, false);
    f.enum_values = Some(vec![number(5), number(6)]);
    assert_eq!(build_node(&f, false, false, None), scalar("5"));
    f.default = Some(number(9));
    assert_eq!(build_node(&f, false, false, None), scalar("9"));
    assert_eq!(build_node(&f, false, false, Some(&text("x"))), scalar("\"x\""));
    f.default = None;
    f.enum_values = Some(vec![]);
    assert_eq!(build_node(&f, false, false, None), scalar("0"));
}

#[test]
fn an_empty_default_gives_way_to_known_parts() {
    let inner = vec![field("name", FieldType::String, true)];
    let mut f = field("a", FieldType::Object(inner), false);
    f.default = Some(Json::Object(vec![]));
    assert_eq!(
        build_node(&f, false, false, None),
        YamlNode::Object(vec![entry("name", scalar("\"\""))])
    );
    let mut unknown = field("a", FieldType::Mapping(None), false);
    unknown.default = Some(Json::Object(vec![]));
    assert_eq!(build_node(&unknown, false, false, None), scalar("{}"));
    let mut known = field(
        "a",
        FieldType::Mapping(Some(Box::new(field("value", FieldType::String, false)))),
        false,
    );
    known.default = Some(Json::Object(vec![]));
    assert_eq!(build_node(&known, false, false, None), YamlNode::Mapping);
    let mut list = field(
        "a",
        FieldType::Array(Box::new(field("items", FieldType::Integer, false))),
        false,
    );
    list.default = Some(Json::Array(vec![]));
    assert_eq!(
        build_node(&list, false, false, None),
        YamlNode::Array(vec![scalar("0")])
    );
    list.default = Some(Json::Array(vec![number(1)]));
    assert_eq!(build_node(&list, false, false, None), scalar("[1]"));
}

#[test]
fn values_become_nodes() {
    let value = Json::Object(vec![
        ("b".to_string(), Json::Array(vec![Json::Null, number(2)])),
        ("a".to_string(), Json::Object(vec![])),
    ]);
    assert_eq!(
        value_to_node(&value),
        YamlNode::Object(vec![
            entry("b", YamlNode::Array(vec![scalar("null"), scalar("2")])),
            entry("a", YamlNode::Object(vec![])),
        ])
    );
}

#[test]
fn values_are_formatted() {
    assert_eq!(format_value(&text("say \"hi\"")), "\"say \\\"hi\\\"\"");
    assert_eq!(format_value(&number(18446744073709551615)), "18446744073709551615");
    assert_eq!(
        format_value(&Json::Number(JsonNumber::Signed(-9223372036854775808))),
        "-9223372036854775808"
    );
    assert_eq!(
        format_value(&Json::Number(JsonNumber::Float("1.5".to_string()))),
        "1.5"
    );
    assert_eq!(format_value(&Json::Bool(true)), "true");
    assert_eq!(format_value(&Json::Bool(false)), "false");
    assert_eq!(format_value(&Json::Null), "null");
    assert_eq!(format_value(&Json::Array(vec![])), "[]");
    assert_eq!(format_value(&Json::Object(vec![])), "{}");
    assert_eq!(
        format_value(&Json::Object(vec![
            ("b".to_string(), Json::Number(JsonNumber::Float("0.5".to_string()))),
            ("a".to_string(), Json::Array(vec![text("x\n"), Json::Null])),
        ])),
        "{\"a\":[\"x\\n\",null],\"b\":0.5}"
    );
    assert_eq!(
        format_value(&Json::Array(vec![Json::Number(JsonNumber::Float(
            "no number".to_string()
        ))])),
        "null"
    );
}

#[test]
fn first_sentences() {
    assert_eq!(first_sentence("One. Two."), "One.");
    assert_eq!(first_sentence("No end"), "No end");
    assert_eq!(first_sentence("v1.2 is here\nmore"), "v1.2 is here");
    assert_eq!(first_sentence("Ends.\nMore. Still"), "Ends.");
    assert_eq!(first_sentence(""), "");
    assert_eq!(first_sentence("\nlater"), "");
    let long = "x".repeat(130);
    assert_eq!(first_sentence(&long).len(), 120);
    assert_eq!(first_sentence(&format!("{}. y", "x".repeat(119))).len(), 120);
    let wide = "é".repeat(130);
    assert_eq!(first_sentence(&wide), "é".repeat(120));
}

#[test]
fn comments() {
    assert_eq!(inline_comment(Some("text"), true), "  # text");
    assert_eq!(inline_comment(Some("text"), false), "");
    assert_eq!(inline_comment(None, true), "");
}

fn lines(f: impl Fn(&mut Vec<String>)) -> Vec<String> {
    let mut lines = vec!["before".to_string()];
    f(&mut lines);
    assert_eq!(lines.remove(0), "before");
    lines
}

#[test]
fn entries_at_an_indentation() {
    let node = YamlNode::Object(vec![described(
        "b",
        YamlNode::Array(vec![scalar("1"), YamlNode::Array(vec![scalar("2")])]),
        "list",
    )]);
    assert_eq!(
        lines(|l| emit_entry(l, "a", &node, Some("top"), "  ", true)),
        vec!["  a:  # top", "    b:  # list", "    - 1", "    - 2"]
    );
    assert_eq!(
        lines(|l| emit_entry(l, "a", &YamlNode::Object(vec![]), None, "", true)),
        vec!["a: {}"]
    );
    assert_eq!(
        lines(|l| emit_entry(l, "a", &YamlNode::Array(vec![]), Some("x"), "", true)),
        vec!["a: []  # x"]
    );
    assert_eq!(
        lines(|l| emit_entry(l, "a", &YamlNode::Mapping, None, "", false)),
        vec!["a:", "  # key: value"]
    );
}

#[test]
fn items_put_scalars_first() {
    let item = YamlNode::Object(vec![
        entry("deep", YamlNode::Object(vec![entry("x", scalar("1"))])),
        described("name", scalar("n"), "the name"),
        entry("more", YamlNode::Mapping),
        entry("last", scalar("z")),
    ]);
    assert_eq!(
        lines(|l| emit_array_item(l, &item, "    ", true)),
        vec![
            "  - name: n  # the name",
            "    last: z",
            "    deep:",
            "      x: 1",
            "    more:",
            "      # key: value",
        ]
    );
    assert_eq!(
        lines(|l| emit_array_item(l, &YamlNode::Object(vec![]), "  ", true)),
        vec!["- {}"]
    );
    assert_eq!(lines(|l| emit_array_item(l, &YamlNode::Mapping, "", true)), vec!["- {}"]);
}

#[test]
fn the_first_field_of_an_item_bears_the_dash() {
    let object = YamlNode::Object(vec![entry("x", scalar("1"))]);
    assert_eq!(
        lines(|l| emit_first_array_field(l, "k", &object, "  # c", "  ", true)),
        vec!["- k:  # c", "    x: 1"]
    );
    let list = YamlNode::Array(vec![scalar("1")]);
    assert_eq!(
        lines(|l| emit_first_array_field(l, "k", &list, "", "    ", true)),
        vec!["  - k:", "    - 1"]
    );
    assert_eq!(
        lines(|l| emit_first_array_field(l, "k", &YamlNode::Mapping, "", "  ", true)),
        vec!["- k:", "    # key: value"]
    );
    assert_eq!(
        lines(|l| emit_first_array_field(l, "k", &YamlNode::Array(vec![]), "", "  ", true)),
        vec!["- k: []"]
    );
    assert_eq!(
        lines(|l| emit_first_array_field(l, "k", &YamlNode::Object(vec![]), "", "  ", true)),
        vec!["- k: {}"]
    );
    assert_eq!(
        lines(|l| emit_first_array_field(l, "k", &scalar("v"), "", "  ", true)),
        vec!["- k: v"]
    );
}

#[test]
fn only_a_mapping_is_a_document() {
    assert_eq!(emit_yaml(&scalar("x"), true), "");
    assert_eq!(
        emit_yaml(
            &YamlNode::Object(vec![entry("a", scalar("1")), described("b", scalar("2"), "c")]),
            true
        ),
        "a: 1\nb: 2  # c"
    );
}

#[test]
fn formatted_values_are_read_back() {
    let values = [
        Json::Null,
        Json::Bool(true),
        Json::Bool(false),
        number(18446744073709551615),
        Json::Number(JsonNumber::Signed(-9223372036854775808)),
        Json::Number(JsonNumber::Float("1e+300".to_string())),
        Json::Number(JsonNumber::Float("-0.0".to_string())),
        text("say \"hi\" é"),
        text(""),
        Json::Array(vec![]),
        Json::Object(vec![]),
        Json::Array(vec![text("a\\b\n\u{1}"), Json::Null]),
        Json::Object(vec![
            ("a".to_string(), Json::Array(vec![number(1), Json::Array(vec![])])),
            ("b\n".to_string(), Json::Number(JsonNumber::Float("0.1".to_string()))),
        ]),
    ];
    for value in values {
        let line = format_value(&value);
        assert_eq!(Json::from_text(&line).unwrap(), value);
        assert!(!line.contains('\n'));
    }
    // A text by itself is written with its line breaks and backslashes.
    assert!(format_value(&text("a\nb")).contains('\n'));
    assert!(Json::from_text(&format_value(&text("a\nb"))).is_err());
    assert!(Json::from_text(&format_value(&text("a\\"))).is_err());
}

#[test]
fn values_are_read_back_up_to_a_depth() {
    let nested = |n: usize| {
        let mut value = Json::Null;
        for _ in 0..n {
            value = Json::Array(vec![value]);
        }
        value
    };
    let deep = nested(127);
    assert_eq!(Json::from_text(&format_value(&deep)).unwrap(), deep);
    assert!(Json::from_text(&format_value(&nested(128))).is_err());
}

#[test]
fn descriptions_matter_to_comments_alone() {
    let schema = spec_schema();
    let mut other = schema.clone();
    assert_eq!(other, schema);
    other.description = Some("else".to_string());
    for f in &mut other.fields {
        f.description = Some(format!("{} in other words", f.name));
        if let FieldType::Object(inner) = &mut f.field_type {
            for g in inner {
                g.description = None;
            }
        }
    }
    let silent = Args {
        no_comments: true,
        ..args()
    };
    let render = |s: &ResourceSchema, a: &Args| generate_yaml(&deployment(), s, a, &vec![]);
    assert_eq!(render(&schema, &silent), render(&other, &silent));
    assert_ne!(render(&schema, &args()), render(&other, &args()));
}
