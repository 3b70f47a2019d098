use kubectl_ditto::cli::{ArgValue, Args};
use kubectl_ditto::discovery::{ResolvedApiResource, ResolvedResource};
use kubectl_ditto::generate::{generate_yaml, Generated};
use kubectl_ditto::json::{Json, JsonNumber};
use kubectl_ditto::schema::error::SchemaError;
use kubectl_ditto::schema::fetch::{
    fetch_raw_schema, fetch_schema, raw_schema, spec_url, Fetch, RawFetch,
};
use kubectl_ditto::schema::field::{any_field, FieldSchema, FieldType, ResourceSchema};
use kubectl_ditto::schema::lookup::find_definition_key;
use kubectl_ditto::schema::v2::schema_from_v2;
use kubectl_ditto::schema::v3::schema_from_v3;

fn json(text: &str) -> Json {
    Json::from_value(&serde_json::from_str::<serde_json::Value>(text).unwrap())
}

fn resource(group: &str, version: &str, kind: &str) -> ResolvedResource {
    ResolvedResource {
        api_resource: ResolvedApiResource {
            kind: kind.to_string(),
            plural: "things".to_string(),
        },
        namespaced: true,
        group: group.to_string(),
        version: version.to_string(),
    }
}

fn thing() -> ResolvedResource {
    resource("x.io", "v1", "Thing")
}

fn key(keys: &[&str], r: &ResolvedResource) -> Option<String> {
    find_definition_key(&keys.iter().map(|k| k.to_string()).collect::<Vec<String>>(), r).ok()
}

#[test]
fn a_key_of_the_group_comes_before_one_of_another() {
    let r = resource("example", "v1", "Widget");
    let k = |keys: &[&str]| key(keys, &r);
    assert_eq!(
        k(&["other.v1.Widget", "my.example.v1.Widget"]),
        Some("my.example.v1.Widget".to_string())
    );
    assert_eq!(
        k(&["other.v1.Widget", "Example.V1.widget"]),
        Some("Example.V1.widget".to_string())
    );
    // The group is a whole part of the key, next to the version.
    assert_eq!(
        k(&["other.v1.Widget", "counterexample.v1.Widget", "example.more.v1.Widget"]),
        Some("other.v1.Widget".to_string())
    );
    // A resource of the core has no group to look for.
    assert_eq!(
        key(&["other.v1.Widget", "my..v1.Widget"], &resource("", "v1", "Widget")),
        Some("other.v1.Widget".to_string())
    );
}

#[test]
fn keys_are_found_by_one_strategy_after_the_other() {
    let r = resource("apps", "v1", "Deployment");
    let k = |keys: &[&str]| key(keys, &r);
    assert_eq!(
        k(&["io.k8s.api.apps.v1beta1.Deployment", "io.k8s.api.apps.V1.deployment"]),
        Some("io.k8s.api.apps.V1.deployment".to_string())
    );
    // No dot before the version
    assert_eq!(
        k(&["xDeployment", "v1.Deployment"]),
        Some("v1.Deployment".to_string())
    );
    assert_eq!(
        k(&["a.Deployment", "APPS.Deployment"]),
        Some("APPS.Deployment".to_string())
    );
    assert_eq!(k(&["b", "a.Deployment"]), Some("a.Deployment".to_string()));
    assert_eq!(k(&["a.deployment"]), None);
    assert_eq!(
        key(&["a.Deployment"], &resource("", "v1", "Deployment")),
        Some("a.Deployment".to_string())
    );
}

#[test]
fn a_missing_key_is_reported() {
    let e = find_definition_key(&["x".to_string()], &thing()).unwrap_err();
    assert_eq!(
        e.message(),
        "Could not find OpenAPI definition for x.io/v1 kind=Thing"
    );
}

fn plain(name: &str, field_type: FieldType) -> FieldSchema {
    FieldSchema {
        field_type,
        ..any_field(name)
    }
}

#[test]
fn a_v2_schema() {
    let doc = json(
        r##"{"definitions": {"io.x.v1.Thing": {
            "description": "A thing",
            "required": ["spec", 7],
            "properties": {
                "spec": {"$ref": "#/definitions/io.x.v1.Spec"},
                "lost": {"$ref": "#/definitions/nowhere", "type": "boolean"},
                "when": {"type": "string", "format": "date-time", "description": "time",
                         "default": "now", "enum": ["now", 1]},
                "free": {"type": "object"},
                "odd": {"type": "null"}
            }},
            "io.x.v1.Spec": {
                "required": ["count"],
                "properties": {
                    "count": {"type": "integer"},
                    "ratio": {"type": "number"},
                    "list": {"type": "array", "items": {"type": "string"}},
                    "any": {"type": "array"},
                    "map": {"additionalProperties": {"type": "string"}},
                    "self": {"$ref": "#/definitions/io.x.v1.Spec"},
                    "inline": {"properties": {"again": {"$ref": "#/definitions/io.x.v1.Spec"}}}
                }
            }
        }}"##,
    );
    let mut count = plain("count", FieldType::Integer);
    count.required = true;
    let spec = vec![
        plain("any", FieldType::Array(Box::new(any_field("items")))),
        count,
        plain("inline", FieldType::Object(vec![any_field("again")])),
        plain(
            "list",
            FieldType::Array(Box::new(plain("items", FieldType::String))),
        ),
        plain(
            "map",
            FieldType::Mapping(Some(Box::new(plain("value", FieldType::String)))),
        ),
        plain("ratio", FieldType::Number),
        any_field("self"),
    ];
    let mut spec_field = plain("spec", FieldType::Object(spec));
    spec_field.required = true;
    let mut when = plain("when", FieldType::String);
    when.description = Some("time".to_string());
    when.format = Some("date-time".to_string());
    when.default = Some(Json::String("now".to_string()));
    when.enum_values = Some(vec![
        Json::String("now".to_string()),
        Json::Number(JsonNumber::Unsigned(1)),
    ]);
    assert_eq!(
        schema_from_v2(&doc, &thing()).unwrap(),
        ResourceSchema {
            fields: vec![
                plain("free", FieldType::Mapping(None)),
                plain("lost", FieldType::Boolean),
                plain("odd", FieldType::Any),
                spec_field,
                when,
            ],
            description: Some("A thing".to_string()),
        }
    );
}

#[test]
fn a_v2_definition_that_is_a_reference_is_followed_once() {
    let doc = json(
        r##"{"definitions": {
            "a.v1.Thing": {"$ref": "#/definitions/b"},
            "b": {"description": "b", "properties": {"loop": {"$ref": "#/definitions/b"}}}
        }}"##,
    );
    let schema = schema_from_v2(&doc, &thing()).unwrap();
    assert_eq!(schema.description.as_deref(), Some("b"));
    // The definition itself is expanded once more, and then is known to be.
    assert_eq!(
        schema.fields,
        vec![FieldSchema {
            description: Some("b".to_string()),
            ..plain("loop", FieldType::Object(vec![any_field("loop")]))
        }]
    );
}

#[test]
fn v2_errors() {
    assert_eq!(
        schema_from_v2(&json("{}"), &thing()).unwrap_err().message(),
        "No definitions found in OpenAPI v2 spec"
    );
    assert!(matches!(
        schema_from_v2(&json(r#"{"definitions": []}"#), &thing()),
        Err(SchemaError::NoKey { .. })
    ));
    let empty = schema_from_v2(&json(r#"{"definitions": {"a.v1.Thing": 5}}"#), &thing()).unwrap();
    assert!(empty.fields.is_empty() && empty.description.is_none());
}

fn v3(schemas: &str) -> Json {
    json(&format!(
        r##"{{"openapi": "3.0.0", "info": {{"title": "t", "version": "1"}}, "paths": {{}},
            "components": {{"schemas": {schemas}}}}}"##
    ))
}

fn v3_fields(schemas: &str) -> Vec<FieldSchema> {
    schema_from_v3(&v3(schemas), &thing()).unwrap().fields
}

#[test]
fn a_v3_schema() {
    let schema = schema_from_v3(
        &v3(
            r##"{"io.x.v1.Thing": {"type": "object", "description": "A thing",
                "required": ["spec"],
                "properties": {
                    "spec": {"allOf": [{"$ref": "#/components/schemas/Spec"}],
                             "description": "the spec", "default": {}},
                    "gone": {"$ref": "#/components/schemas/nowhere"},
                    "alias": {"$ref": "#/components/schemas/Alias"},
                    "size": {"type": "integer", "format": "int32"},
                    "share": {"type": "number", "format": "double"},
                    "when": {"type": "string", "format": "date-time"},
                    "port": {"type": "string", "format": "int-or-string"},
                    "mode": {"type": "string", "enum": ["rw", null, "ro"]},
                    "on": {"type": "boolean"},
                    "labels": {"type": "object",
                               "additionalProperties": {"type": "string"}},
                    "open": {"type": "object", "additionalProperties": true},
                    "bare": {"type": "object"}
                }},
              "Spec": {"type": "object", "required": ["items"], "properties": {
                    "items": {"type": "array", "items": {"$ref": "#/components/schemas/Item"}},
                    "loose": {"type": "array"}}},
              "Item": {"type": "object", "properties": {
                    "parent": {"$ref": "#/components/schemas/Spec"}}},
              "Alias": {"$ref": "#/components/schemas/Spec"}
            }"##,
        ),
        &thing(),
    )
    .unwrap();
    assert_eq!(schema.description.as_deref(), Some("A thing"));
    let by_name = |name: &str| schema.fields.iter().find(|f| f.name == name);
    assert!(by_name("gone").is_none());
    // A reference to a reference leads nowhere.
    assert!(by_name("alias").is_none());
    let spec = by_name("spec").unwrap();
    assert!(spec.required);
    assert_eq!(spec.description.as_deref(), Some("the spec"));
    assert_eq!(spec.default, Some(Json::Object(vec![])));
    let item = plain("items", FieldType::Object(vec![any_field("parent")]));
    let mut items = plain("items", FieldType::Array(Box::new(item)));
    items.required = true;
    assert_eq!(
        spec.field_type,
        FieldType::Object(vec![
            items,
            plain("loose", FieldType::Array(Box::new(any_field("items")))),
        ])
    );
    let size = by_name("size").unwrap();
    assert_eq!(size.field_type, FieldType::Integer);
    assert_eq!(size.format.as_deref(), Some("int32"));
    assert_eq!(by_name("share").unwrap().format.as_deref(), Some("double"));
    assert_eq!(by_name("when").unwrap().format.as_deref(), Some("date-time"));
    assert_eq!(
        by_name("port").unwrap().format.as_deref(),
        Some("int-or-string")
    );
    assert_eq!(
        by_name("mode").unwrap().enum_values,
        Some(vec![
            Json::String("rw".to_string()),
            Json::String("ro".to_string())
        ])
    );
    assert_eq!(by_name("on").unwrap().field_type, FieldType::Boolean);
    assert_eq!(
        by_name("labels").unwrap().field_type,
        FieldType::Mapping(Some(Box::new(plain("value", FieldType::String))))
    );
    assert_eq!(by_name("open").unwrap().field_type, FieldType::Mapping(None));
    assert_eq!(by_name("bare").unwrap().field_type, FieldType::Mapping(None));
}

#[test]
fn v3_variants() {
    let fields = v3_fields(
        r##"{"v1.Thing": {"type": "object", "properties": {
            "one": {"oneOf": [{"type": "string"}, {"$ref": "#/components/schemas/nowhere"},
                              {"type": "integer"}]},
            "any": {"anyOf": [{"$ref": "#/components/schemas/nowhere"}]},
            "not": {"not": {"type": "string"}}
        }}}"##,
    );
    let by_name = |name: &str| fields.iter().find(|f| f.name == name).unwrap();
    assert_eq!(by_name("one").field_type, FieldType::Any);
    assert_eq!(
        by_name("one").variants,
        Some(vec![
            plain("variant_0", FieldType::String),
            plain("variant_2", FieldType::Integer),
        ])
    );
    assert_eq!(by_name("any").variants, None);
    assert_eq!(by_name("not").field_type, FieldType::Any);
}

#[test]
fn v3_all_of_is_flattened() {
    let fields = v3_fields(
        r##"{"v1.Thing": {"allOf": [
                {"type": "object", "properties": {"a": {"type": "string"}}},
                {"$ref": "#/components/schemas/More"},
                {"$ref": "#/components/schemas/nowhere"},
                {"type": "string"}
            ]},
            "More": {"type": "object", "required": ["a", "b"],
                     "properties": {"b": {"type": "integer"}, "c": {"type": "boolean"}}}
        }"##,
    );
    let mut a = plain("a", FieldType::String);
    a.required = true;
    let mut b = plain("b", FieldType::Integer);
    b.required = true;
    assert_eq!(fields, vec![a, b, plain("c", FieldType::Boolean)]);
}

#[test]
fn v3_schemas_of_no_particular_form() {
    let fields = v3_fields(
        r##"{"v1.Thing": {"properties": {
                "string": {"type": "string", "minimum": 1, "format": "f", "enum": ["e", 2]},
                "array": {"type": "array", "format": "set", "items": {"type": "string"}},
                "loose": {"type": "array", "format": "set"},
                "number": {"type": "number", "pattern": "x"},
                "integer": {"type": "integer", "pattern": "x"},
                "boolean": {"type": "boolean", "pattern": "x"},
                "object": {"type": "object", "format": "x"},
                "none": {},
                "parts": {"type": "object", "allOf": [{"$ref": "#/components/schemas/Part"}],
                          "properties": {"ignored": {"type": "string"}}},
                "empty": {"type": "object", "allOf": [{"type": "string"}]},
                "props": {"properties": {"x": {"type": "string"}}, "required": ["x"]}
            }, "required": ["none"]},
            "Part": {"properties": {"p": {"type": "string"}}, "required": ["p"]}
        }"##,
    );
    let by_name = |name: &str| fields.iter().find(|f| f.name == name).unwrap();
    let string = by_name("string");
    assert_eq!(string.field_type, FieldType::String);
    assert_eq!(string.format.as_deref(), Some("f"));
    assert_eq!(
        string.enum_values,
        Some(vec![
            Json::String("e".to_string()),
            Json::Number(JsonNumber::Unsigned(2))
        ])
    );
    assert_eq!(
        by_name("array").field_type,
        FieldType::Array(Box::new(plain("items", FieldType::String)))
    );
    assert_eq!(
        by_name("loose").field_type,
        FieldType::Array(Box::new(any_field("items")))
    );
    assert_eq!(by_name("number").field_type, FieldType::Number);
    assert_eq!(by_name("integer").field_type, FieldType::Integer);
    assert_eq!(by_name("boolean").field_type, FieldType::Boolean);
    assert_eq!(by_name("object").field_type, FieldType::Any);
    assert!(by_name("none").required);
    assert_eq!(by_name("none").field_type, FieldType::Any);
    let mut p = plain("p", FieldType::String);
    p.required = true;
    assert_eq!(by_name("parts").field_type, FieldType::Object(vec![p]));
    assert_eq!(by_name("empty").field_type, FieldType::Any);
    let mut x = plain("x", FieldType::String);
    x.required = true;
    assert_eq!(by_name("props").field_type, FieldType::Object(vec![x]));
}

#[test]
fn v3_cycles_end() {
    // The resource is not being expanded at first, but the schemas in it are.
    let fields = v3_fields(
        r##"{"v1.Thing": {"type": "object", "properties": {
                "here": {"type": "object", "properties": {
                    "back": {"$ref": "#/components/schemas/v1.Thing"}}},
                "there": {"type": "string"}
            }}}"##,
    );
    let back = plain(
        "back",
        FieldType::Object(vec![any_field("here"), plain("there", FieldType::String)]),
    );
    assert_eq!(
        fields,
        vec![
            plain("here", FieldType::Object(vec![back])),
            plain("there", FieldType::String),
        ]
    );
    // A part that is being expanded is skipped.
    let fields = v3_fields(
        r##"{"v1.Thing": {"allOf": [
                {"$ref": "#/components/schemas/Part"},
                {"type": "object", "properties": {
                    "again": {"$ref": "#/components/schemas/v1.Thing"}}}]},
            "Part": {"type": "object", "properties": {
                "whole": {"$ref": "#/components/schemas/v1.Thing"}}}
        }"##,
    );
    let again = plain("again", FieldType::Any);
    assert_eq!(
        fields,
        vec![
            plain("whole", FieldType::Object(vec![again])),
            plain("again", FieldType::Object(vec![any_field("whole")])),
        ]
    );
}

#[test]
fn v3_errors() {
    let e = schema_from_v3(&json("{}"), &thing()).unwrap_err();
    assert_eq!(e, SchemaError::Unparsed("missing field `openapi`".to_string()));
    assert_eq!(e.message(), "missing field `openapi`");
    let no_number = Json::Number(JsonNumber::Float("x".to_string()));
    let e = schema_from_v3(&no_number, &thing()).unwrap_err();
    assert_eq!(e, SchemaError::NotJson);
    assert_eq!(e.message(), "Not a JSON value");
    let no_components =
        json(r#"{"openapi": "3.0.0", "info": {"title": "t", "version": "1"}, "paths": {}}"#);
    assert_eq!(
        schema_from_v3(&no_components, &thing()).unwrap_err().message(),
        "No components in spec"
    );
    assert!(matches!(
        schema_from_v3(&v3("{}"), &thing()),
        Err(SchemaError::NoKey { .. })
    ));
    assert_eq!(
        schema_from_v3(
            &v3(r##"{"v1.Thing": {"$ref": "#/components/schemas/nowhere"}}"##),
            &thing()
        )
        .unwrap_err()
        .message(),
        "Could not resolve definition: v1.Thing"
    );
}

#[test]
fn the_spec_of_a_group_is_looked_up() {
    let specs = json(
        r##"{"paths": {"api/v1": {"serverRelativeURL": "/core"},
                       "apis/x.io/v1": {"serverRelativeURL": "/x"},
                       "apis/y.io/v1": {}}}"##,
    );
    assert_eq!(spec_url(&specs, &thing()), Ok("/x".to_string()));
    assert_eq!(
        spec_url(&specs, &resource("", "v1", "Pod")),
        Ok("/core".to_string())
    );
    assert_eq!(
        spec_url(&specs, &resource("y.io", "v1", "Y")).unwrap_err().message(),
        "No serverRelativeURL"
    );
    assert_eq!(
        spec_url(&specs, &resource("z.io", "v1", "Z")).unwrap_err().message(),
        "No v3 spec for apis/z.io/v1"
    );
    assert_eq!(
        spec_url(&json(r#"{"paths": 1}"#), &thing()).unwrap_err().message(),
        "No paths in OpenAPI v3 discovery"
    );
}

fn specs() -> Json {
    json(r#"{"paths": {"apis/x.io/v1": {"serverRelativeURL": "/x?hash=1"}}}"#)
}

fn path(fetch: &Fetch) -> String {
    fetch.request().unwrap().unwrap().uri().to_string()
}

#[test]
fn v3_is_tried_first() {
    let f = Fetch::Specs;
    assert_eq!(path(&f), "/openapi/v3");
    let f = fetch_schema(f, &thing(), &Ok(specs()));
    assert_eq!(path(&f), "/x?hash=1");
    let f = fetch_schema(
        f,
        &thing(),
        &Ok(v3(r#"{"v1.Thing": {"type": "object", "description": "three"}}"#)),
    );
    assert!(f.request().is_none());
    match f {
        Fetch::Done(schema) => assert_eq!(schema.description.as_deref(), Some("three")),
        other => panic!("{other:?}"),
    }
}

#[test]
fn whatever_goes_wrong_with_v3_v2_is_tried() {
    let v2 = || Ok(json(r#"{"definitions": {"v1.Thing": {"description": "two"}}}"#));
    let failed = || Err("no".to_string());
    let spec = || fetch_schema(Fetch::Specs, &thing(), &Ok(specs()));
    let ways = vec![
        fetch_schema(Fetch::Specs, &thing(), &failed()),
        fetch_schema(Fetch::Specs, &thing(), &Ok(json("{}"))),
        fetch_schema(spec(), &thing(), &failed()),
        fetch_schema(spec(), &thing(), &Ok(json("{}"))),
    ];
    for f in ways {
        assert_eq!(path(&f), "/openapi/v2");
        match fetch_schema(f, &thing(), &v2()) {
            Fetch::Done(schema) => assert_eq!(schema.description.as_deref(), Some("two")),
            other => panic!("{other:?}"),
        }
    }
    match fetch_schema(Fetch::V2, &thing(), &failed()) {
        Fetch::Failed(e) => assert_eq!(e.message(), "no"),
        other => panic!("{other:?}"),
    }
    let done = fetch_schema(Fetch::V2, &thing(), &Ok(json("{}")));
    assert_eq!(done, Fetch::Failed(SchemaError::NoDefinitions));
    assert!(done.request().is_none());
    assert_eq!(
        fetch_schema(done, &thing(), &v2()),
        Fetch::Failed(SchemaError::NoDefinitions)
    );
}

#[test]
fn an_address_that_is_none_cannot_be_asked_for() {
    let f = Fetch::Spec("not an address".to_string());
    assert!(f.request().unwrap().is_err());
}

#[test]
fn the_raw_definition_is_fetched() {
    let f = RawFetch::Specs;
    assert_eq!(f.request().unwrap().unwrap().uri().path(), "/openapi/v3");
    let f = fetch_raw_schema(f, &thing(), &Ok(specs()));
    assert_eq!(f, RawFetch::Spec("/x?hash=1".to_string()));
    assert_eq!(f.request().unwrap().unwrap().uri().path(), "/x");
    let raw = json(r#"{"components": {"schemas": {"v1.Thing": {"any": ["thing", 1.50]}}}}"#);
    match fetch_raw_schema(f, &thing(), &Ok(raw)) {
        RawFetch::Done(j) => assert_eq!(
            j.pretty().unwrap(),
            "{\n  \"any\": [\n    \"thing\",\n    1.5\n  ]\n}"
        ),
        other => panic!("{other:?}"),
    }
    let e = |f: RawFetch, response: Result<Json, String>| -> String {
        match fetch_raw_schema(f, &thing(), &response) {
            RawFetch::Failed(e) => e.message(),
            other => panic!("{other:?}"),
        }
    };
    assert_eq!(e(RawFetch::Specs, Err("down".to_string())), "down");
    assert_eq!(e(RawFetch::Specs, Ok(json("{}"))), "No paths in OpenAPI v3 discovery");
    assert_eq!(e(RawFetch::Spec("/x".to_string()), Err("down".to_string())), "down");
    assert_eq!(
        e(RawFetch::Spec("/x".to_string()), Ok(json("{}"))),
        "No components/schemas in v3 spec"
    );
}

#[test]
fn raw_errors() {
    assert_eq!(
        raw_schema(&json(r#"{"components": {"schemas": []}}"#), &thing()),
        Err(SchemaError::NoSchemas)
    );
    assert!(matches!(
        raw_schema(&json(r#"{"components": {"schemas": {}}}"#), &thing()),
        Err(SchemaError::NoKey { .. })
    ));
    assert_eq!(
        SchemaError::NotFound("k".to_string()).message(),
        "Definition not found: k"
    );
}

#[test]
fn a_date_is_filled_in_with_a_date() {
    let schema = schema_from_v3(
        &v3(
            r##"{"v1.Thing": {"type": "object", "properties": {
                "at": {"type": "string", "format": "date-time"},
                "day": {"type": "string", "format": "date"},
                "raw": {"type": "string", "format": "byte"}}}}"##,
        ),
        &thing(),
    )
    .unwrap();
    let args = Args::from_values(vec![
        ArgValue::Text(Some("thing".to_string())),
        ArgValue::Text(None),
        ArgValue::Text(None),
        ArgValue::Path(None),
        ArgValue::Text(None),
        ArgValue::Flag(false),
        ArgValue::Flag(true),
        ArgValue::Flag(false),
        ArgValue::Flag(false),
        ArgValue::Flag(false),
    ])
    .unwrap();
    let (_, generated) = generate_yaml(&thing(), &schema, &args, &vec![]);
    assert_eq!(
        generated,
        Generated::Yaml(
            "---\napiVersion: x.io/v1\nkind: Thing\n\
             metadata:\n  name: my-resource\n  namespace: default\n\
             at: \"2025-01-01T00:00:00Z\"\nday: \"\"\nraw: \"\""
                .to_string()
        )
    );
}

#[test]
fn parts_of_a_loose_schema_come_first() {
    let fields = v3_fields(
        r##"{"v1.Thing": {"type": "object", "properties": {
                "p": {"minimum": 1, "allOf": [{"$ref": "#/components/schemas/Part"}],
                      "properties": {"own": {"type": "string"}}}}},
            "Part": {"type": "object", "properties": {"part": {"type": "string"}}}
        }"##,
    );
    assert_eq!(
        fields,
        vec![plain(
            "p",
            FieldType::Object(vec![plain("part", FieldType::String)])
        )]
    );
}
