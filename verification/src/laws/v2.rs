//! The fields that an OpenAPI v2 document describes.

use vstd::prelude::*;

use super::v3::{lemma_after_prefix, lemma_type_names_differ};
use crate::discovery::ResolvedView;
use crate::json::{lookup, member, string_items, text_member, JsonView, Member};
use crate::schema::error::SchemaErrorView;
use crate::schema::field::{FieldTypeView, FieldView, ResourceSchemaView};
use crate::schema::lookup::definition_key;
use crate::schema::v2::{
    expanded_field, field_of, fields_of, referred, required_names, resource_of, type_of, v2_schema,
};
use crate::text::after_prefix;

verus! {

/// Whether a schema refers to the definition under a key.
pub open spec fn refers_to(schema: JsonView, key: Seq<char>) -> bool {
    text_member(schema, "$ref"@) == Some("#/definitions/"@ + key)
}

/// Whether a schema refers to no definition that is there.
pub open spec fn stands_alone(definitions: Seq<Member>, schema: JsonView) -> bool {
    forall|key: Seq<char>| #[trigger]
        refers_to(schema, key) ==> lookup(definitions, key) is None
}

/// Whether a field is as a schema says, references aside: its description, its default, its choices,
/// its format and its type.
pub open spec fn says(
    definitions: Seq<Member>,
    open: Seq<Seq<char>>,
    schema: JsonView,
    field: FieldView,
) -> bool {
    &&& field.description == text_member(schema, "description"@)
    &&& field.default == member(schema, "default"@)
    &&& field.enum_values == (match member(schema, "enum"@) {
        Some(JsonView::Array(values)) => Some(values),
        _ => None,
    })
    &&& field.format == text_member(schema, "format"@)
    &&& field.field_type == type_of(definitions, open, schema)
    &&& field.variants is None
}

proof fn lemma_referred(definitions: Seq<Member>, schema: JsonView, key: Seq<char>)
    ensures
        refers_to(schema, key) ==> referred(definitions, schema) == (match lookup(definitions, key) {
            Some(definition) => Some((key, definition)),
            None => None,
        }),
        stands_alone(definitions, schema) ==> referred(definitions, schema) is None,
{
    let prefix = "#/definitions/"@;
    lemma_after_prefix(prefix, key);
    match text_member(schema, "$ref"@) {
        Some(text) => match after_prefix(text, prefix) {
            Some(other) => {
                assert(text =~= prefix + other);
                assert(refers_to(schema, other));
            },
            None => {},
        },
        None => {},
    }
}

/// A schema that refers to no definition describes the field that it says: nothing of what it says
/// is lost, and whether the field is required is not for it to say.
pub proof fn lemma_field_as_schema_says(
    definitions: Seq<Member>,
    open: Seq<Seq<char>>,
    name: Seq<char>,
    schema: JsonView,
)
    requires
        stands_alone(definitions, schema),
    ensures
        ({
            let field = field_of(definitions, open, name, schema);
            field.name == name && !field.required && says(definitions, open, schema, field)
        }),
{
    lemma_referred(definitions, schema, Seq::empty());
    assert(expanded_field(definitions, open, name, schema).name == name);
}

/// A schema that refers to a definition describes the field that the definition says, unless the
/// definition is being expanded. Then the field has its name and can be anything.
pub proof fn lemma_field_as_definition_says(
    definitions: Seq<Member>,
    open: Seq<Seq<char>>,
    name: Seq<char>,
    schema: JsonView,
    key: Seq<char>,
    definition: JsonView,
)
    requires
        refers_to(schema, key),
        lookup(definitions, key) == Some(definition),
    ensures
        ({
            let field = field_of(definitions, open, name, schema);
            &&& field.name == name
            &&& !field.required
            &&& if open.contains(key) {
                &&& field.field_type == FieldTypeView::Any
                &&& field.description is None
                &&& field.default is None
                &&& field.enum_values is None
                &&& field.format is None
                &&& field.variants is None
            } else {
                says(definitions, open.push(key), definition, field)
            }
        }),
{
    lemma_referred(definitions, schema, key);
    if !open.contains(key) {
        assert(expanded_field(definitions, open.push(key), name, definition).name == name);
    }
}

/// Whether a schema has this type: what its member `type` says.
pub open spec fn has_type(schema: JsonView, name: Seq<char>) -> bool {
    text_member(schema, "type"@) == Some(name)
}

/// A schema that names a simple type describes values of that type.
pub proof fn lemma_simple_types(definitions: Seq<Member>, open: Seq<Seq<char>>, schema: JsonView)
    ensures
        has_type(schema, "string"@) ==> type_of(definitions, open, schema) == FieldTypeView::String,
        has_type(schema, "integer"@) ==> type_of(definitions, open, schema)
            == FieldTypeView::Integer,
        has_type(schema, "number"@) ==> type_of(definitions, open, schema) == FieldTypeView::Number,
        has_type(schema, "boolean"@) ==> type_of(definitions, open, schema)
            == FieldTypeView::Boolean,
{
    lemma_type_names_differ();
}

/// A schema that names a type that is not known describes anything.
pub proof fn lemma_unknown_type(
    definitions: Seq<Member>,
    open: Seq<Seq<char>>,
    schema: JsonView,
    name: Seq<char>,
)
    requires
        has_type(schema, name),
        name.len() > 0,
        name != "string"@ && name != "integer"@ && name != "number"@,
        name != "boolean"@ && name != "array"@ && name != "object"@,
    ensures
        type_of(definitions, open, schema) == FieldTypeView::Any,
{
    reveal_strlit("");
}

/// The items of a list are as the schema of its items says, or as the definition says that it refers
/// to. Without such a schema nothing is known of them.
pub proof fn lemma_list_has_items(
    definitions: Seq<Member>,
    open: Seq<Seq<char>>,
    schema: JsonView,
    key: Seq<char>,
)
    requires
        has_type(schema, "array"@),
    ensures
        match type_of(definitions, open, schema) {
            FieldTypeView::Array(item) => {
                &&& item.name == "items"@
                &&& !item.required
                &&& match member(schema, "items"@) {
                    Some(items) => {
                        &&& *item == field_of(definitions, open, "items"@, items)
                        &&& stands_alone(definitions, items) ==> says(
                            definitions,
                            open,
                            items,
                            *item,
                        )
                        &&& refers_to(items, key) && lookup(definitions, key) is Some
                            && !open.contains(key) ==> says(
                            definitions,
                            open.push(key),
                            lookup(definitions, key)->0,
                            *item,
                        )
                    },
                    None => item.field_type == FieldTypeView::Any && item.default is None,
                }
            },
            _ => false,
        },
{
    lemma_type_names_differ();
    match member(schema, "items"@) {
        Some(items) => {
            lemma_name_kept(definitions, open, "items"@, items);
            if stands_alone(definitions, items) {
                lemma_field_as_schema_says(definitions, open, "items"@, items);
            }
            if refers_to(items, key) && lookup(definitions, key) is Some {
                lemma_field_as_definition_says(
                    definitions,
                    open,
                    "items"@,
                    items,
                    key,
                    lookup(definitions, key)->0,
                );
            }
        },
        None => {},
    }
}

proof fn lemma_name_kept(
    definitions: Seq<Member>,
    open: Seq<Seq<char>>,
    name: Seq<char>,
    schema: JsonView,
)
    ensures
        field_of(definitions, open, name, schema).name == name,
        !field_of(definitions, open, name, schema).required,
{
    match referred(definitions, schema) {
        Some((key, definition)) => {
            assert(expanded_field(definitions, open.push(key), name, definition).name == name);
        },
        None => {
            assert(expanded_field(definitions, open, name, schema).name == name);
        },
    }
}

/// Whether a schema is that of an object: it says so, or it names no type.
pub open spec fn is_object(schema: JsonView) -> bool {
    has_type(schema, "object"@) || text_member(schema, "type"@) is None
}

/// A name is required if and only if it stands as a text in the list of those that are.
pub proof fn lemma_required_names(schema: JsonView, name: Seq<char>)
    ensures
        required_names(schema).contains(name) <==> match member(schema, "required"@) {
            Some(JsonView::Array(items)) => items.contains(JsonView::String(name)),
            _ => false,
        },
{
    match member(schema, "required"@) {
        Some(JsonView::Array(items)) => {
            lemma_string_items_contain(items, name);
        },
        _ => {},
    }
}

proof fn lemma_string_items_contain(items: Seq<JsonView>, name: Seq<char>)
    ensures
        string_items(items).contains(name) <==> items.contains(JsonView::String(name)),
    decreases items.len(),
{
    if items.len() > 0 {
        let rest = items.drop_last();
        let before = string_items(rest);
        let now = string_items(items);
        lemma_string_items_contain(rest, name);
        if before.contains(name) {
            let k = choose|k: int| 0 <= k < before.len() && before[k] == name;
            assert(now[k] == name);
        }
        if rest.contains(JsonView::String(name)) {
            let k = choose|k: int| 0 <= k < rest.len() && rest[k] == JsonView::String(name);
            assert(items[k] == JsonView::String(name));
        }
        if items.last() == JsonView::String(name) {
            assert(items[items.len() - 1] == JsonView::String(name));
            assert(now[now.len() - 1] == name);
        }
        if items.contains(JsonView::String(name)) {
            let k = choose|k: int| 0 <= k < items.len() && items[k] == JsonView::String(name);
            if k < rest.len() {
                assert(rest[k] == JsonView::String(name));
            }
        }
        if now.contains(name) {
            let k = choose|k: int| 0 <= k < now.len() && now[k] == name;
            if k < before.len() {
                assert(before[k] == name);
            }
        }
    }
}

/// Whether the fields are those of the properties of an object, in order: each is the one that the
/// schema of its property describes, under its name, and it is required exactly if that name is.
pub open spec fn are_properties(
    definitions: Seq<Member>,
    open: Seq<Seq<char>>,
    properties: Seq<Member>,
    schema: JsonView,
    fields: Seq<FieldView>,
) -> bool {
    &&& fields.len() == properties.len()
    &&& forall|i: int|
        0 <= i < fields.len() ==> #[trigger] fields[i] == (FieldView {
            required: match member(schema, "required"@) {
                Some(JsonView::Array(names)) => names.contains(JsonView::String(properties[i].0)),
                _ => false,
            },
            ..field_of(definitions, open, properties[i].0, properties[i].1)
        }) && fields[i].name == properties[i].0
}

proof fn lemma_are_properties(
    definitions: Seq<Member>,
    open: Seq<Seq<char>>,
    properties: Seq<Member>,
    schema: JsonView,
)
    ensures
        are_properties(
            definitions,
            open,
            properties,
            schema,
            fields_of(definitions, open, properties, required_names(schema)),
        ),
    decreases properties.len(),
{
    let required = required_names(schema);
    let fields = fields_of(definitions, open, properties, required);
    if properties.len() > 0 {
        let rest = properties.drop_last();
        let before = fields_of(definitions, open, rest, required);
        lemma_are_properties(definitions, open, rest, schema);
        lemma_required_names(schema, properties.last().0);
        lemma_name_kept(definitions, open, properties.last().0, properties.last().1);
        assert forall|i: int| 0 <= i < fields.len() implies #[trigger] fields[i] == (FieldView {
            required: match member(schema, "required"@) {
                Some(JsonView::Array(names)) => names.contains(JsonView::String(properties[i].0)),
                _ => false,
            },
            ..field_of(definitions, open, properties[i].0, properties[i].1)
        }) && fields[i].name == properties[i].0 by {
            if i < before.len() {
                assert(fields[i] == before[i]);
                assert(rest[i] == properties[i]);
            } else {
                assert(properties[i] == properties.last());
            }
        }
    }
}

/// An object has a field for each of its properties. One without properties maps names to values as
/// the schema of its further properties says, if it has one.
pub proof fn lemma_object_has_properties(
    definitions: Seq<Member>,
    open: Seq<Seq<char>>,
    schema: JsonView,
)
    requires
        is_object(schema),
    ensures
        match member(schema, "properties"@) {
            Some(JsonView::Object(properties)) => match type_of(definitions, open, schema) {
                FieldTypeView::Object(fields) => are_properties(
                    definitions,
                    open,
                    properties,
                    schema,
                    fields,
                ),
                _ => false,
            },
            _ => match member(schema, "additionalProperties"@) {
                Some(values) => type_of(definitions, open, schema) == FieldTypeView::Mapping(
                    Some(Box::new(field_of(definitions, open, "value"@, values))),
                ),
                None => type_of(definitions, open, schema) == FieldTypeView::Mapping(None),
            },
        },
{
    lemma_type_names_differ();
    match member(schema, "properties"@) {
        Some(JsonView::Object(properties)) => {
            lemma_are_properties(definitions, open, properties, schema);
        },
        _ => {},
    }
}

/// The schema of a resource is that of the definition that is its own, or of the one that this
/// refers to: its description, and a field for each of its properties. Where there are no
/// definitions, or none is its own, the error says so.
pub proof fn lemma_own_definition_described(
    openapi: JsonView,
    definitions: Seq<Member>,
    r: ResolvedView,
    other: Seq<char>,
)
    requires
        member(openapi, "definitions"@) == Some(JsonView::Object(definitions)),
    ensures
        match definition_key(definitions.map_values(|m: Member| m.0), r) {
            Some(key) => lookup(definitions, key) matches Some(definition) ==> {
                &&& stands_alone(definitions, definition) ==> describes(
                    definitions,
                    definition,
                    v2_schema(openapi, r),
                )
                &&& refers_to(definition, other) && lookup(definitions, other) is Some ==> describes(
                    definitions,
                    lookup(definitions, other)->0,
                    v2_schema(openapi, r),
                )
            },
            None => v2_schema(openapi, r) == Err::<ResourceSchemaView, SchemaErrorView>(
                SchemaErrorView::NoKey { group: r.group, version: r.version, kind: r.kind },
            ),
        },
{
    match definition_key(definitions.map_values(|m: Member| m.0), r) {
        Some(key) => match lookup(definitions, key) {
            Some(definition) => {
                lemma_referred(definitions, definition, other);
                assert(v2_schema(openapi, r) == Ok::<ResourceSchemaView, SchemaErrorView>(
                    resource_of(definitions, definition),
                ));
                let schema = match referred(definitions, definition) {
                    Some((_, target)) => target,
                    None => definition,
                };
                let properties = match member(schema, "properties"@) {
                    Some(JsonView::Object(members)) => members,
                    _ => Seq::empty(),
                };
                lemma_are_properties(definitions, Seq::empty(), properties, schema);
            },
            None => {},
        },
        None => {},
    }
}

/// Whether there is a schema and it is as a definition says: it has its description and a field for
/// each of its properties, nothing being expanded yet.
pub open spec fn describes(
    definitions: Seq<Member>,
    definition: JsonView,
    found: Result<ResourceSchemaView, SchemaErrorView>,
) -> bool {
    match found {
        Ok(schema) => {
            &&& schema.description == text_member(definition, "description"@)
            &&& are_properties(
                definitions,
                Seq::empty(),
                match member(definition, "properties"@) {
                    Some(JsonView::Object(members)) => members,
                    _ => Seq::empty(),
                },
                definition,
                schema.fields,
            )
        },
        Err(_) => false,
    }
}

/// A document without definitions has no schema for any resource.
pub proof fn lemma_no_definitions(openapi: JsonView, r: ResolvedView)
    requires
        member(openapi, "definitions"@) is None,
    ensures
        v2_schema(openapi, r) == Err::<ResourceSchemaView, SchemaErrorView>(
            SchemaErrorView::NoDefinitions,
        ),
{
}

}
