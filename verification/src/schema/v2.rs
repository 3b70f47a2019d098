//! Schemas from an OpenAPI v2 document: raw JSON with references between definitions.

use vstd::prelude::*;

use crate::json::{
    find_member, lemma_json_view, lookup, member, member_names, member_views, names_of,
    string_items, strings_of, text_member, Json, JsonView, Member,
};
use crate::discovery::{ResolvedResource, ResolvedView};
use crate::schema::error::{SchemaError, SchemaErrorView};
use crate::schema::field::{
    any_field, any_field_view, copy_json_list, field_views, lemma_field_type_view, lemma_field_view,
    lemma_field_views_push, FieldSchema, FieldType, FieldTypeView, FieldView, ResourceSchema,
    ResourceSchemaView,
};
use crate::schema::lookup::{definition_key, find_definition_key, lemma_definition_key, no_key};
use crate::text::{after_prefix, lemma_texts_push, listed, opt_text, same, strip_prefix, texts};

verus! {

/// The definition that a schema refers to, if it refers to one that is there: its key and what it
/// is.
pub open spec fn referred(definitions: Seq<Member>, schema: JsonView) -> Option<Member> {
    match text_member(schema, "$ref"@) {
        Some(reference) => match after_prefix(reference, "#/definitions/"@) {
            Some(key) => match lookup(definitions, key) {
                Some(definition) => Some((key, definition)),
                None => None,
            },
            None => None,
        },
        None => None,
    }
}

/// How many of the definitions are not being expanded, `open` being the keys of those that are.
pub open spec fn unopened(definitions: Seq<Member>, open: Seq<Seq<char>>) -> nat
    decreases definitions.len(),
{
    if definitions.len() == 0 {
        0
    } else {
        unopened(definitions.drop_first(), open) + if open.contains(definitions[0].0) {
            0nat
        } else {
            1nat
        }
    }
}

proof fn lemma_unopened_not_more(definitions: Seq<Member>, open: Seq<Seq<char>>, key: Seq<char>)
    ensures
        unopened(definitions, open.push(key)) <= unopened(definitions, open),
    decreases definitions.len(),
{
    if definitions.len() > 0 {
        lemma_unopened_not_more(definitions.drop_first(), open, key);
        if open.contains(definitions[0].0) {
            let i = choose|i: int| 0 <= i < open.len() && open[i] == definitions[0].0;
            assert(open.push(key)[i] == definitions[0].0);
        }
    }
}

/// To expand a definition leaves fewer that are not being expanded.
pub proof fn lemma_unopened_less(definitions: Seq<Member>, open: Seq<Seq<char>>, key: Seq<char>)
    requires
        lookup(definitions, key) is Some,
        !open.contains(key),
    ensures
        unopened(definitions, open.push(key)) < unopened(definitions, open),
    decreases definitions.len(),
{
    if definitions[0].0 == key {
        lemma_unopened_not_more(definitions.drop_first(), open, key);
        assert(open.push(key)[open.len() as int] == key);
    } else {
        lemma_unopened_less(definitions.drop_first(), open, key);
        if open.contains(definitions[0].0) {
            let i = choose|i: int| 0 <= i < open.len() && open[i] == definitions[0].0;
            assert(open.push(key)[i] == definitions[0].0);
        }
    }
}

proof fn lemma_lookup_smaller(members: Seq<Member>, key: Seq<char>)
    ensures
        lookup(members, key) matches Some(v) ==> decreases_to!(members => v),
    decreases members.len(),
{
    if members.len() > 0 {
        if members[0].0 == key {
            assert(decreases_to!(members => members[0]));
            assert(decreases_to!(members[0] => members[0].1));
        } else {
            lemma_lookup_smaller(members.drop_first(), key);
            assert(decreases_to!(members => members.drop_first()));
        }
    }
}

/// A member of a value is smaller than the value.
pub proof fn lemma_member_smaller(j: JsonView, key: Seq<char>)
    ensures
        member(j, key) matches Some(v) ==> decreases_to!(j => v),
{
    match j {
        JsonView::Object(members) => {
            lemma_lookup_smaller(members, key);
            assert(decreases_to!(j => j->Object_0));
        },
        _ => {},
    }
}

/// The members of the member `key`, where it is an object.
pub open spec fn members_at(j: JsonView, key: Seq<char>) -> Option<Seq<Member>> {
    match member(j, key) {
        Some(JsonView::Object(members)) => Some(members),
        _ => None,
    }
}

/// The items of the member `key`, where it is a list.
pub open spec fn items_at(j: JsonView, key: Seq<char>) -> Option<Seq<JsonView>> {
    match member(j, key) {
        Some(JsonView::Array(items)) => Some(items),
        _ => None,
    }
}

/// The names that a schema says are required.
pub open spec fn required_names(schema: JsonView) -> Seq<Seq<char>> {
    match items_at(schema, "required"@) {
        Some(items) => string_items(items),
        None => Seq::empty(),
    }
}

/// The field that a schema describes, `open` being the definitions that are being expanded: if it
/// refers to one of them, nothing but its name is known.
pub open spec fn field_of(
    definitions: Seq<Member>,
    open: Seq<Seq<char>>,
    name: Seq<char>,
    schema: JsonView,
) -> FieldView
    decreases unopened(definitions, open), schema, 2nat,
{
    match referred(definitions, schema) {
        Some((key, definition)) => if open.contains(key) {
            any_field_view(name)
        } else {
            proof {
                lemma_unopened_less(definitions, open, key);
            }
            expanded_field(definitions, open.push(key), name, definition)
        },
        None => expanded_field(definitions, open, name, schema),
    }
}

/// The field that a schema describes by itself.
pub open spec fn expanded_field(
    definitions: Seq<Member>,
    open: Seq<Seq<char>>,
    name: Seq<char>,
    schema: JsonView,
) -> FieldView
    decreases unopened(definitions, open), schema, 1nat,
{
    FieldView {
        name,
        description: text_member(schema, "description"@),
        field_type: type_of(definitions, open, schema),
        required: false,
        default: member(schema, "default"@),
        enum_values: items_at(schema, "enum"@),
        variants: None,
        format: text_member(schema, "format"@),
    }
}

/// The type that a schema describes by itself.
pub open spec fn type_of(
    definitions: Seq<Member>,
    open: Seq<Seq<char>>,
    schema: JsonView,
) -> FieldTypeView
    decreases unopened(definitions, open), schema, 0nat,
{
    let kind = match text_member(schema, "type"@) {
        Some(t) => t,
        None => ""@,
    };
    if kind == "string"@ {
        FieldTypeView::String
    } else if kind == "integer"@ {
        FieldTypeView::Integer
    } else if kind == "number"@ {
        FieldTypeView::Number
    } else if kind == "boolean"@ {
        FieldTypeView::Boolean
    } else if kind == "array"@ {
        match member(schema, "items"@) {
            Some(items) => {
                proof {
                    lemma_member_smaller(schema, "items"@);
                }
                FieldTypeView::Array(Box::new(field_of(definitions, open, "items"@, items)))
            },
            None => FieldTypeView::Array(Box::new(any_field_view("items"@))),
        }
    } else if kind == "object"@ || kind == ""@ {
        match members_at(schema, "properties"@) {
            Some(properties) => {
                proof {
                    lemma_member_smaller(schema, "properties"@);
                    let object = member(schema, "properties"@)->0;
                    assert(decreases_to!(object => object->Object_0));
                }
                FieldTypeView::Object(
                    fields_of(definitions, open, properties, required_names(schema)),
                )
            },
            None => match member(schema, "additionalProperties"@) {
                Some(additional) => {
                    proof {
                        lemma_member_smaller(schema, "additionalProperties"@);
                    }
                    FieldTypeView::Mapping(
                        Some(Box::new(field_of(definitions, open, "value"@, additional))),
                    )
                },
                None => FieldTypeView::Mapping(None),
            },
        }
    } else {
        FieldTypeView::Any
    }
}

/// The fields that the properties of a schema describe.
pub open spec fn fields_of(
    definitions: Seq<Member>,
    open: Seq<Seq<char>>,
    properties: Seq<Member>,
    required: Seq<Seq<char>>,
) -> Seq<FieldView>
    decreases unopened(definitions, open), properties, 0nat,
{
    if properties.len() == 0 {
        Seq::empty()
    } else {
        let (name, schema) = properties.last();
        fields_of(definitions, open, properties.drop_last(), required).push(
            FieldView {
                required: required.contains(name),
                ..field_of(definitions, open, name, schema)
            },
        )
    }
}

/// The schema of a resource that is defined by `definition`. Neither the definition itself nor one
/// that it refers to counts as being expanded.
pub open spec fn resource_of(definitions: Seq<Member>, definition: JsonView) -> ResourceSchemaView {
    let schema = match referred(definitions, definition) {
        Some((_, target)) => target,
        None => definition,
    };
    let properties = match members_at(schema, "properties"@) {
        Some(members) => members,
        None => Seq::empty(),
    };
    ResourceSchemaView {
        fields: fields_of(definitions, Seq::empty(), properties, required_names(schema)),
        description: text_member(schema, "description"@),
    }
}

/// What resolves the references between the definitions of a document.
pub struct V2Resolver<'a> {
    pub definitions: &'a Vec<(String, Json)>,
}

impl<'a> V2Resolver<'a> {
    /// What the definitions are.
    pub open spec fn view(&self) -> Seq<Member> {
        member_views(self.definitions@)
    }

    /// The definition that a schema refers to, if it refers to one that is there: its key and what
    /// it is.
    pub fn resolve(&self, schema: &Json) -> (r: Option<(String, &'a Json)>)
        ensures
            match r {
                Some((key, definition)) => referred(self@, schema@) == Some(
                    (key@, definition@),
                ),
                None => referred(self@, schema@) is None,
            },
    {
        match schema.get_str("$ref") {
            Some(reference) => match strip_prefix(reference, "#/definitions/") {
                Some(key) => match find_member(self.definitions, key) {
                    Some(definition) => Some((key.to_owned(), definition)),
                    None => None,
                },
                None => None,
            },
            None => None,
        }
    }
}

/// The names that a schema says are required.
fn required_in(schema: &Json) -> (r: Vec<String>)
    ensures
        texts(r@) == required_names(schema@),
{
    broadcast use lemma_json_view;

    match schema.get("required") {
        Some(Json::Array(items)) => strings_of(items),
        _ => {
            let r: Vec<String> = Vec::new();
            proof {
                assert(texts(r@) =~= Seq::empty());
            }
            r
        },
    }
}

fn text_at(schema: &Json, key: &str) -> (r: Option<String>)
    ensures
        opt_text(r) == text_member(schema@, key@),
{
    match schema.get_str(key) {
        Some(s) => Some(s.to_owned()),
        None => None,
    }
}

/// The field that a schema describes, `open` being the keys of the definitions that are being
/// expanded.
pub fn v2_parse_field(
    name: &str,
    schema: &Json,
    resolver: &V2Resolver,
    open: &mut Vec<String>,
) -> (r: FieldSchema)
    ensures
        r@ == field_of(resolver@, texts(old(open)@), name@, schema@),
        texts(final(open)@) == texts(old(open)@),
    decreases unopened(resolver@, texts(old(open)@)), schema@, 2nat,
{
    let ghost before = texts(open@);
    match resolver.resolve(schema) {
        Some((key, definition)) => {
            // A definition that is being expanded: a cycle
            if listed(open, key.as_str()) {
                return any_field(name);
            }
            proof {
                lemma_texts_push(open@, key);
                lemma_unopened_less(resolver@, before, key@);
            }
            open.push(key);
            let field: FieldSchema = expand_field(name, definition, resolver, open);
            let ghost during = open@;
            open.pop();
            proof {
                assert(texts(open@) =~= texts(during).drop_last());
                assert(texts(open@) =~= before);
            }
            field
        },
        None => expand_field(name, schema, resolver, open),
    }
}

fn expand_field(
    name: &str,
    schema: &Json,
    resolver: &V2Resolver,
    open: &mut Vec<String>,
) -> (r: FieldSchema)
    ensures
        r@ == expanded_field(resolver@, texts(old(open)@), name@, schema@),
        texts(final(open)@) == texts(old(open)@),
    decreases unopened(resolver@, texts(old(open)@)), schema@, 1nat,
{
    broadcast use lemma_field_view, lemma_json_view;

    let default: Option<Json> = match schema.get("default") {
        Some(v) => Some(v.copy()),
        None => None,
    };
    let enum_values: Option<Vec<Json>> = match schema.get("enum") {
        Some(Json::Array(items)) => Some(copy_json_list(items)),
        _ => None,
    };
    let field_type: FieldType = v2_parse_type(schema, resolver, open);
    FieldSchema {
        name: name.to_owned(),
        description: text_at(schema, "description"),
        field_type,
        required: false,
        default,
        enum_values,
        variants: None,
        format: text_at(schema, "format"),
    }
}

/// The type that a schema describes.
pub fn v2_parse_type(schema: &Json, resolver: &V2Resolver, open: &mut Vec<String>) -> (r: FieldType)
    ensures
        r@ == type_of(resolver@, texts(old(open)@), schema@),
        texts(final(open)@) == texts(old(open)@),
    decreases unopened(resolver@, texts(old(open)@)), schema@, 0nat,
{
    broadcast use lemma_field_type_view, lemma_json_view;

    let kind: &str = match schema.get_str("type") {
        Some(t) => t,
        None => "",
    };
    if same(kind, "string") {
        FieldType::String
    } else if same(kind, "integer") {
        FieldType::Integer
    } else if same(kind, "number") {
        FieldType::Number
    } else if same(kind, "boolean") {
        FieldType::Boolean
    } else if same(kind, "array") {
        match schema.get("items") {
            Some(items) => {
                proof {
                    lemma_member_smaller(schema@, "items"@);
                }
                FieldType::Array(Box::new(v2_parse_field("items", items, resolver, open)))
            },
            None => FieldType::Array(Box::new(any_field("items"))),
        }
    } else if same(kind, "object") || same(kind, "") {
        match schema.get("properties") {
            Some(Json::Object(properties)) => {
                proof {
                    lemma_member_smaller(schema@, "properties"@);
                    let object = member(schema@, "properties"@)->0;
                    assert(decreases_to!(object => object->Object_0));
                }
                let required: Vec<String> = required_in(schema);
                FieldType::Object(parse_fields(properties, &required, resolver, open))
            },
            _ => match schema.get("additionalProperties") {
                Some(additional) => {
                    proof {
                        lemma_member_smaller(schema@, "additionalProperties"@);
                    }
                    FieldType::Mapping(
                        Some(Box::new(v2_parse_field("value", additional, resolver, open))),
                    )
                },
                None => FieldType::Mapping(None),
            },
        }
    } else {
        FieldType::Any
    }
}

fn parse_fields(
    properties: &Vec<(String, Json)>,
    required: &Vec<String>,
    resolver: &V2Resolver,
    open: &mut Vec<String>,
) -> (r: Vec<FieldSchema>)
    ensures
        field_views(r@) == fields_of(
            resolver@,
            texts(old(open)@),
            member_views(properties@),
            texts(required@),
        ),
        texts(final(open)@) == texts(old(open)@),
    decreases unopened(resolver@, texts(old(open)@)), member_views(properties@), 0nat,
{
    broadcast use lemma_field_view;

    let ghost before = texts(open@);
    let ghost all = member_views(properties@);
    let mut fields: Vec<FieldSchema> = Vec::new();
    let mut i: usize = 0;
    proof {
        assert(field_views(fields@) =~= fields_of(
            resolver@,
            before,
            all.take(0),
            texts(required@),
        ));
    }
    while i < properties.len()
        invariant
            i <= properties@.len(),
            all == member_views(properties@),
            before == texts(old(open)@),
            texts(open@) == before,
            field_views(fields@) == fields_of(
                resolver@,
                before,
                all.take(i as int),
                texts(required@),
            ),
        decreases properties@.len() - i,
    {
        let name: &str = properties[i].0.as_str();
        proof {
            assert(decreases_to!(all => all[i as int]));
            assert(decreases_to!(all[i as int] => all[i as int].1));
            assert(all.take(i + 1).drop_last() =~= all.take(i as int));
            assert(all.take(i + 1).last() == (name@, properties@[i as int].1@));
        }
        let mut field: FieldSchema = v2_parse_field(name, &properties[i].1, resolver, open);
        field.required = listed(required, name);
        proof {
            lemma_field_views_push(fields@, field);
        }
        fields.push(field);
        i = i + 1;
    }
    proof {
        assert(all.take(i as int) =~= all);
    }
    fields
}

/// The schema of a resource that is defined by `definition`.
pub fn v2_parse_resource(definition: &Json, resolver: &V2Resolver) -> (r: ResourceSchema)
    ensures
        r@ == resource_of(resolver@, definition@),
{
    broadcast use lemma_json_view;

    let schema: &Json = match resolver.resolve(definition) {
        Some((_, target)) => target,
        None => definition,
    };
    let required: Vec<String> = required_in(schema);
    let mut open: Vec<String> = Vec::new();
    proof {
        assert(texts(open@) =~= Seq::empty());
    }
    let fields: Vec<FieldSchema> = match schema.get("properties") {
        Some(Json::Object(properties)) => parse_fields(
            properties,
            &required,
            resolver,
            &mut open,
        ),
        _ => {
            let fields: Vec<FieldSchema> = Vec::new();
            proof {
                assert(field_views(fields@) =~= fields_of(
                    resolver@,
                    Seq::empty(),
                    Seq::empty(),
                    texts(required@),
                ));
            }
            fields
        },
    };
    ResourceSchema { fields, description: text_at(schema, "description") }
}

/// The schema of a resource from an OpenAPI v2 document, or why there is none.
pub open spec fn v2_schema(openapi: JsonView, r: ResolvedView) -> Result<
    ResourceSchemaView,
    SchemaErrorView,
> {
    match member(openapi, "definitions"@) {
        None => Err(SchemaErrorView::NoDefinitions),
        Some(definitions) => match definition_key(member_names(definitions), r) {
            None => Err(no_key(r)),
            Some(key) => match member(definitions, key) {
                None => Err(SchemaErrorView::NotFound(key)),
                Some(definition) => Ok(
                    resource_of(
                        match definitions {
                            JsonView::Object(members) => members,
                            _ => Seq::empty(),
                        },
                        definition,
                    ),
                ),
            },
        },
    }
}

/// The schema of a resource from an OpenAPI v2 document.
pub fn schema_from_v2(openapi: &Json, resolved: &ResolvedResource) -> (r: Result<
    ResourceSchema,
    SchemaError,
>)
    ensures
        match r {
            Ok(schema) => v2_schema(openapi@, resolved@) == Ok::<
                ResourceSchemaView,
                SchemaErrorView,
            >(schema@),
            Err(e) => v2_schema(openapi@, resolved@) == Err::<
                ResourceSchemaView,
                SchemaErrorView,
            >(e@),
        },
{
    broadcast use lemma_json_view;

    let definitions: &Json = match openapi.get("definitions") {
        Some(d) => d,
        None => {
            return Err(SchemaError::NoDefinitions);
        },
    };
    let key: String = match find_definition_key(names_of(definitions).as_slice(), resolved) {
        Ok(key) => key,
        Err(e) => {
            return Err(e);
        },
    };
    match definitions {
        Json::Object(members) => match find_member(members, key.as_str()) {
            Some(definition) => {
                let resolver = V2Resolver { definitions: members };
                Ok(v2_parse_resource(definition, &resolver))
            },
            None => Err(SchemaError::NotFound(key)),
        },
        _ => Err(SchemaError::NotFound(key)),
    }
}

/// A definition that has been found is there: the error that there is none under its key does not
/// come up.
pub proof fn lemma_v2_key_is_there(openapi: JsonView, r: ResolvedView, key: Seq<char>)
    ensures
        v2_schema(openapi, r) != Err::<ResourceSchemaView, SchemaErrorView>(
            SchemaErrorView::NotFound(key),
        ),
{
    match member(openapi, "definitions"@) {
        Some(definitions) => {
            lemma_definition_key(member_names(definitions), r);
            match definition_key(member_names(definitions), r) {
                Some(found) => {
                    let members = definitions->Object_0;
                    let i = choose|i: int|
                        0 <= i < member_names(definitions).len() && member_names(definitions)[i]
                            == found;
                    lemma_lookup_some(members, found, i);
                },
                None => {},
            }
        },
        None => {},
    }
}

proof fn lemma_lookup_some(members: Seq<Member>, key: Seq<char>, i: int)
    requires
        0 <= i < members.len(),
        members[i].0 == key,
    ensures
        lookup(members, key) is Some,
    decreases members.len(),
{
    if members[0].0 != key {
        assert(members.drop_first()[i - 1] == members[i]);
        lemma_lookup_some(members.drop_first(), key, i - 1);
    }
}

/// A schema that refers to a definition describes the field that the definition describes, unless
/// the definition is being expanded; then nothing but the name of the field is known.
pub proof fn lemma_reference(
    definitions: Seq<Member>,
    open: Seq<Seq<char>>,
    name: Seq<char>,
    schema: JsonView,
    key: Seq<char>,
)
    requires
        text_member(schema, "$ref"@) == Some("#/definitions/"@ + key),
        lookup(definitions, key) is Some,
    ensures
        field_of(definitions, open, name, schema) == (if open.contains(key) {
            any_field_view(name)
        } else {
            expanded_field(definitions, open.push(key), name, lookup(definitions, key)->0)
        }),
{
    let prefix = "#/definitions/"@;
    let reference = prefix + key;
    assert(prefix =~= reference.take(prefix.len() as int));
    assert(reference.subrange(prefix.len() as int, reference.len() as int) =~= key);
}

proof fn lemma_field_name(
    definitions: Seq<Member>,
    open: Seq<Seq<char>>,
    name: Seq<char>,
    schema: JsonView,
)
    ensures
        field_of(definitions, open, name, schema).name == name,
{
    match referred(definitions, schema) {
        Some((key, definition)) => {
            assert(expanded_field(definitions, open.push(key), name, definition).name == name);
        },
        None => {
            assert(expanded_field(definitions, open, name, schema).name == name);
        },
    }
}

/// The fields of an object are its properties, each under its name and in order, and those are
/// required that the object says are.
pub proof fn lemma_fields_are_properties(
    definitions: Seq<Member>,
    open: Seq<Seq<char>>,
    properties: Seq<Member>,
    required: Seq<Seq<char>>,
)
    ensures
        ({
            let fields = fields_of(definitions, open, properties, required);
            &&& fields.len() == properties.len()
            &&& forall|i: int|
                0 <= i < fields.len() ==> (#[trigger] fields[i]).name == properties[i].0
                    && fields[i].required == required.contains(properties[i].0)
        }),
    decreases properties.len(),
{
    if properties.len() > 0 {
        let rest = properties.drop_last();
        let before = fields_of(definitions, open, rest, required);
        let fields = fields_of(definitions, open, properties, required);
        lemma_fields_are_properties(definitions, open, rest, required);
        lemma_field_name(definitions, open, properties.last().0, properties.last().1);
        assert forall|i: int| 0 <= i < fields.len() implies (#[trigger] fields[i]).name
            == properties[i].0 && fields[i].required == required.contains(properties[i].0) by {
            if i < before.len() {
                assert(fields[i] == before[i]);
                assert(rest[i] == properties[i]);
            }
        }
    }
}

}
